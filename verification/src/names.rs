//! Entry names and file content as the callers hand them in.
use vstd::prelude::*;
use vstd::string::StringSliceAdditionalSpecFns;
use bytes::Bytes;
use bytestring::ByteString;

verus! {

/// The name of a directory entry: UTF-8 text that is cheap to clone. It
/// holds a `bytestring::ByteString`, which the verifier does not look
/// into: what it holds is known by `name_bytes` alone.
#[verifier::external_body]
pub struct Name {
    text: ByteString,
}

/// `bytes::Bytes`, a shared buffer of bytes, carried through as it is:
/// what it holds is known by `content_bytes` alone.
#[verifier::external_type_specification]
#[verifier::external_body]
pub struct ExBytes(bytes::Bytes);

/// The bytes of an entry name.
pub uninterp spec fn name_bytes(name: Name) -> Seq<u8>;

/// The bytes that a buffer holds.
pub uninterp spec fn content_bytes(data: Bytes) -> Seq<u8>;

impl Name {
    /// `ByteString::from` on text: a name whose bytes are the UTF-8
    /// bytes of `text`. Trusted.
    #[verifier::external_body]
    pub fn new(text: &str) -> (out: Name)
        ensures
            name_bytes(out) == text.spec_bytes(),
    {
        Name { text: ByteString::from(text) }
    }

    /// `ByteString::as_bytes`, copied out: the bytes of the name, in
    /// order. Trusted: the result is what `name_bytes` stands for.
    #[verifier::external_body]
    pub(crate) fn to_vec(&self) -> (out: Vec<u8>)
        ensures
            out@ == name_bytes(*self),
    {
        self.text.as_bytes().to_vec()
    }

    /// `ByteString::clone`: a name with the same bytes. Trusted.
    #[verifier::external_body]
    pub(crate) fn duplicate(&self) -> (out: Name)
        ensures
            name_bytes(out) == name_bytes(*self),
    {
        Name { text: self.text.clone() }
    }
}

/// `Bytes::len`: how many bytes the buffer holds. Trusted.
#[verifier::external_body]
pub(crate) fn content_len(data: &Bytes) -> (n: usize)
    ensures
        n == content_bytes(*data).len(),
{
    data.len()
}

/// `Bytes::as_ref`, copied out: the bytes of the buffer, in order.
/// Trusted: the result is what `content_bytes` stands for.
#[verifier::external_body]
pub(crate) fn content_vec(data: &Bytes) -> (out: Vec<u8>)
    ensures
        out@ == content_bytes(*data),
{
    data.as_ref().to_vec()
}

} // verus!

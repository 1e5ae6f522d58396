//! Content fingerprints: BLAKE3 over the bytes of a file, fed chunk by chunk.

use vstd::prelude::*;

verus! {

/// The incremental BLAKE3 hasher.
#[verifier::external_type_specification]
#[verifier::external_body]
pub struct ExHasher(blake3::Hasher);

/// The bytes that a hasher has taken in so far, in order.
pub uninterp spec fn hasher_input(h: blake3::Hasher) -> Seq<u8>;

/// The BLAKE3 digest of `data`, as `Hash::to_hex` writes it.
pub uninterp spec fn blake3_hex(data: Seq<u8>) -> Seq<char>;

/// Calls `blake3::Hasher::new`: a hasher that has taken in nothing.
#[verifier::external_body]
pub(crate) fn hasher_new() -> (h: blake3::Hasher)
    ensures
        hasher_input(h) == Seq::<u8>::empty(),
{
    blake3::Hasher::new()
}

/// Calls `blake3::Hasher::update`, which adds `input` to what was taken in.
#[verifier::external_body]
pub(crate) fn hasher_update(h: &mut blake3::Hasher, input: &[u8])
    ensures
        hasher_input(*final(h)) == hasher_input(*old(h)) + input@,
{
    h.update(input);
}

/// Is `c` a hexadecimal digit in lower case?
pub open spec fn lower_hex(c: char) -> bool {
    ('0' <= c && c <= '9') || ('a' <= c && c <= 'f')
}

/// Is `text` a fingerprint in form: 64 hexadecimal digits in lower case?
pub open spec fn fingerprint_form(text: Seq<char>) -> bool {
    text.len() == 64 && forall|i: int| 0 <= i < text.len() ==> lower_hex(#[trigger] text[i])
}

/// Calls `blake3::Hasher::finalize` and writes the digest with `to_hex`: the
/// digest of all that was taken in, 32 bytes as 64 hexadecimal digits in
/// lower case. The hasher stays as it is.
#[verifier::external_body]
pub(crate) fn hasher_hex(h: &blake3::Hasher) -> (r: String)
    ensures
        r@ == blake3_hex(hasher_input(*h)),
        fingerprint_form(r@),
{
    h.finalize().to_hex().to_string()
}

/// Hashes the content of a file as it is read.
pub struct ContentHasher {
    inner: blake3::Hasher,
}

impl ContentHasher {
    /// The bytes fed so far.
    pub closed spec fn input(&self) -> Seq<u8> {
        hasher_input(self.inner)
    }

    /// A hasher that was fed nothing.
    pub fn new() -> (r: Self)
        ensures
            r.input() == Seq::<u8>::empty(),
    {
        ContentHasher { inner: hasher_new() }
    }

    /// Feeds what one read returned. An empty chunk is the end of the file:
    /// the answer says whether to read on.
    pub fn feed(&mut self, chunk: &[u8]) -> (more: bool)
        ensures
            more == (chunk@.len() > 0),
            final(self).input() == old(self).input() + chunk@,
    {
        if chunk.len() == 0 {
            assert(self.input() + chunk@ =~= self.input());
            return false;
        }
        hasher_update(&mut self.inner, chunk);
        true
    }

    /// The fingerprint of what was fed: its BLAKE3 digest in hex.
    pub fn digest(&self) -> (r: String)
        ensures
            r@ == blake3_hex(self.input()),
            fingerprint_form(r@),
    {
        hasher_hex(&self.inner)
    }
}

/// The fingerprint of `data`.
pub fn hash_bytes(data: &[u8]) -> (r: String)
    ensures
        r@ == blake3_hex(data@),
        fingerprint_form(r@),
{
    let mut h = ContentHasher::new();
    h.feed(data);
    assert(Seq::<u8>::empty() + data@ =~= data@);
    h.digest()
}

} // verus!

//! Streaming content hashing with BLAKE3, fed in bounded chunks.
use vstd::prelude::*;

verus! {

#[verifier::external_type_specification]
#[verifier::external_body]
pub struct ExHasher(blake3::Hasher);

/// The bytes a hasher has been fed since it was made.
pub uninterp spec fn fed(h: blake3::Hasher) -> Seq<u8>;

/// The BLAKE3 hash of `b`, in lowercase hexadecimal.
pub uninterp spec fn blake3_hex(b: Seq<u8>) -> Seq<char>;

/// A lowercase hexadecimal digit.
pub open spec fn is_hex_digit(c: char) -> bool {
    ('0' <= c && c <= '9') || ('a' <= c && c <= 'f')
}

/// Relies on `blake3::Hasher::new`: a hasher for the regular hash function.
#[verifier::external_body]
fn new_hasher() -> (r: blake3::Hasher)
    ensures
        fed(r) == Seq::<u8>::empty(),
{
    blake3::Hasher::new()
}

/// Relies on `blake3::Hasher::update`: adds the bytes to the hashed input.
#[verifier::external_body]
fn absorb(hasher: &mut blake3::Hasher, chunk: &[u8])
    ensures
        fed(*final(hasher)) == fed(*old(hasher)) + chunk@,
{
    hasher.update(chunk);
}

/// Relies on `blake3::Hasher::finalize` and `blake3::Hash::to_hex`: the
/// 32-byte hash of the input so far, as 64 lowercase hexadecimal digits.
#[verifier::external_body]
fn hex_of_hasher(hasher: &blake3::Hasher) -> (r: String)
    ensures
        r@ == blake3_hex(fed(*hasher)),
        r@.len() == 64,
        forall|i: int| 0 <= i < 64 ==> is_hex_digit(#[trigger] r@[i]),
{
    hasher.finalize().to_hex().to_string()
}

/// The content hash of a file, fed chunk by chunk.
pub struct ContentDigest {
    hasher: blake3::Hasher,
}

impl View for ContentDigest {
    type V = Seq<u8>;

    /// The content fed so far.
    closed spec fn view(&self) -> Seq<u8> {
        fed(self.hasher)
    }
}

impl ContentDigest {
    pub fn new() -> (r: ContentDigest)
        ensures
            r@ == Seq::<u8>::empty(),
    {
        ContentDigest { hasher: new_hasher() }
    }

    /// Adds the next chunk of content.
    pub fn update(&mut self, chunk: &[u8])
        ensures
            final(self)@ == old(self)@ + chunk@,
    {
        absorb(&mut self.hasher, chunk);
    }

    /// The hash of all chunks so far, in lowercase hexadecimal: it depends
    /// on the content alone, not on how it was split into chunks.
    pub fn finish(&self) -> (r: String)
        ensures
            r@ == blake3_hex(self@),
            r@.len() == 64,
            forall|i: int| 0 <= i < 64 ==> is_hex_digit(#[trigger] r@[i]),
    {
        hex_of_hasher(&self.hasher)
    }
}

} // verus!

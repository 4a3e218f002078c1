//! Content hashing: the BLAKE3 digest of a byte body, and its hex form.
use crate::digits::{digit_str, hex_digit};
use vstd::prelude::*;

verus! {

/// A 32-byte BLAKE3 digest.
pub type Digest = [u8; 32];

/// The BLAKE3 digest of `input`, as computed by the `blake3` crate.
pub uninterp spec fn blake3_digest(input: Seq<u8>) -> Seq<u8>;

/// `blake3::hash`: the 32-byte BLAKE3 digest of `input`. The digest depends
/// on the input bytes alone; what it is, is BLAKE3's definition and is not
/// restated here.
#[verifier::external_body]
fn blake3_hash(input: &[u8]) -> (d: Digest)
    ensures
        d@ == blake3_digest(input@),
{
    *blake3::hash(input).as_bytes()
}

/// Hash an arbitrary byte body.
pub fn hash_bytes(body: &[u8]) -> (d: Digest)
    ensures
        d@ == blake3_digest(body@),
{
    blake3_hash(body)
}

/// `bytes` in lowercase hexadecimal, two digits per byte, high nibble
/// first.
pub open spec fn hex_of(bytes: Seq<u8>) -> Seq<char>
    decreases bytes.len(),
{
    if bytes.len() == 0 {
        Seq::empty()
    } else {
        hex_of(bytes.drop_last()) + seq![hex_digit((bytes.last() / 16) as nat), hex_digit((bytes.last() % 16) as nat)]
    }
}

/// `hex_of` gives two digits per byte.
pub proof fn lemma_hex_len(bytes: Seq<u8>)
    ensures
        hex_of(bytes).len() == 2 * bytes.len(),
    decreases bytes.len(),
{
    if bytes.len() > 0 {
        lemma_hex_len(bytes.drop_last());
    }
}

/// Hex-encode `digest` as a 64-character lowercase string.
pub fn hex(digest: &Digest) -> (s: String)
    ensures
        s@ == hex_of(digest@),
        s@.len() == 64,
{
    let mut s = String::new();
    let mut i: usize = 0;
    while i < 32
        invariant
            i <= 32,
            digest@.len() == 32,
            s@ == hex_of(digest@.take(i as int)),
        decreases 32 - i,
    {
        let b = digest[i];
        proof {
            assert(digest@.take(i + 1 as int).drop_last() =~= digest@.take(i as int));
            assert(digest@.take(i + 1 as int).last() == b);
        }
        s.append(digit_str(b / 16));
        s.append(digit_str(b % 16));
        i = i + 1;
    }
    proof {
        assert(digest@.take(32) =~= digest@);
        lemma_hex_len(digest@);
    }
    s
}

} // verus!

//! The laws that tie an encoder to its decoder.
use crate::decoder::{spec_read_seq_bytes, varint_u32_round_trip, Decode, DecodeError};
use crate::encoder::{spec_encode_seq_bytes, Encode};
use crate::varint::varint_bytes;
use vstd::prelude::*;

verus! {

/// A type whose encoder and decoder agree: whatever is written is read back,
/// exactly, whatever bytes follow it on the wire.
pub trait Codec: Encode + Decode {
    /// The values the decoder takes back: those within its length caps.
    spec fn spec_fits(v: <Self as DeepView>::V) -> bool;

    /// Decoding an encoded value gives it back and consumes exactly its
    /// bytes.
    proof fn lemma_round_trip(v: <Self as DeepView>::V, tail: Seq<u8>)
        requires
            Self::spec_fits(v),
        ensures
            Self::spec_encode(v).1,
            Self::spec_decode(Self::spec_encode(v).0 + tail) == (
                Ok::<<Self as DeepView>::V, DecodeError>(v),
                Self::spec_encode(v).0.len(),
            ),
    ;
}

/// Every strict prefix of an encoding fails to decode: a truncated message
/// never reads back as a value.
pub proof fn lemma_truncated_fails<T: Codec>(v: <T as DeepView>::V, k: nat)
    requires
        T::spec_fits(v),
        k < T::spec_encode(v).0.len(),
    ensures
        T::spec_decode(T::spec_encode(v).0.take(k as int)).0 is Err,
{
    let e = T::spec_encode(v).0;
    let p = e.take(k as int);
    T::lemma_round_trip(v, Seq::empty());
    assert(e + Seq::<u8>::empty() =~= e);
    if T::spec_decode(p).0 is Ok {
        T::lemma_decode_within(p);
        let m = T::spec_decode(p).1;
        T::lemma_decode_local(p, e.skip(m as int));
        assert(p.take(m as int) + e.skip(m as int) =~= e);
    }
}

/// A length-prefixed payload written by `Writer::write_seq_bytes` reads
/// back through `Reader::read_seq_bytes` with any cap it respects, whatever
/// follows it.
pub proof fn lemma_seq_bytes_round_trip(b: Seq<u8>, tail: Seq<u8>, max: nat)
    requires
        b.len() <= max,
        b.len() <= u32::MAX,
    ensures
        spec_encode_seq_bytes(b).1,
        spec_read_seq_bytes(spec_encode_seq_bytes(b).0 + tail, max) == (
            Ok::<Seq<u8>, DecodeError>(b),
            spec_encode_seq_bytes(b).0.len(),
        ),
{
    let h = varint_bytes(b.len());
    varint_u32_round_trip(b.len() as u32, b + tail);
    let s = h + b + tail;
    assert(s =~= h + (b + tail));
    assert(s.skip(h.len() as int) =~= b + tail);
    assert((b + tail).take(b.len() as int) =~= b);
}

} // verus!

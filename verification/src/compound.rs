//! Wire codecs for strings, options, sequences and pairs.
//!
//! | type            | encoding                                        |
//! | --------------- | ----------------------------------------------- |
//! | `String`        | varint length + UTF-8 payload                   |
//! | `Option<T>`     | one byte (`0 = None`, `1 = Some`) + payload     |
//! | `Vec<T>`        | varint length + payload                         |
//! | `(A, B)`        | both payloads in order                          |
use crate::codec::Codec;
use crate::decoder::{Budget, 
    and_then, decoded_as, lemma_read_seq_bytes_local, lemma_read_varint_within, lemma_reads_local,
    spec_read_seq_bytes, spec_read_u8, spec_read_varint_u32, varint_u32_round_trip, Decode,
    DecodeError, Decoded, Reader,
};
use crate::encoder::{
    emit, emit_then, spec_encode_seq_bytes, EncodeError, Emitted, Encode, Writer,
};
use crate::varint::varint_bytes;
use vstd::prelude::*;
use vstd::utf8::{decode_utf8, encode_utf8, encode_utf8_decode_utf8, encode_utf8_valid_utf8, valid_utf8};

verus! {

/// The most payload bytes a string may carry on the wire (16 MiB).
pub const MAX_STR_BYTES: usize = 16 * 1024 * 1024;

/// The most elements a sequence may carry on the wire.
pub const MAX_SEQ_LEN: u32 = 1 << 20;

/// `core::str::from_utf8`: it succeeds exactly when `bytes` is valid UTF-8,
/// and the string it then gives is those same bytes.
#[verifier::external_body]
fn str_from_utf8(bytes: &[u8]) -> (res: Option<&str>)
    ensures
        res is Some <==> valid_utf8(bytes@),
        res matches Some(s) ==> encode_utf8(s@) == bytes@,
{
    core::str::from_utf8(bytes).ok()
}

/// A string: a length of at most [`MAX_STR_BYTES`], then that many bytes of
/// valid UTF-8.
pub open spec fn spec_decode_string(s: Seq<u8>) -> Decoded<Seq<char>> {
    and_then(
        spec_read_seq_bytes(s, MAX_STR_BYTES as nat),
        s,
        |b: Seq<u8>, rest: Seq<u8>|
            if valid_utf8(b) {
                (Ok(decode_utf8(b)), 0)
            } else {
                (Err(DecodeError::Utf8), 0)
            },
    )
}

/// The length-prefixed UTF-8 bytes of `c`; a payload over `u32::MAX` bytes
/// is refused before anything is written.
pub open spec fn spec_encode_string(c: Seq<char>) -> Emitted {
    spec_encode_seq_bytes(encode_utf8(c))
}

impl Decode for String {
    open spec fn spec_decode(s: Seq<u8>) -> Decoded<Seq<char>> {
        spec_decode_string(s)
    }

    proof fn lemma_decode_within(s: Seq<u8>) {
        lemma_read_varint_within(s);
    }

    proof fn lemma_decode_local(s: Seq<u8>, t: Seq<u8>) {
        lemma_read_seq_bytes_local(s, t, MAX_STR_BYTES as nat);
    }

    open spec fn spec_need(s: Seq<u8>) -> nat {
        0
    }

    fn decode(reader: &mut Reader<'_>, budget: &mut Budget) -> (res: Result<String, DecodeError>) {
        let ghost r0 = *reader;
        let bytes = reader.read_seq_bytes(MAX_STR_BYTES)?;
        proof {
            r0.lemma_seq_bytes_in_range(MAX_STR_BYTES as nat);
        }
        match str_from_utf8(bytes) {
            Some(s) => {
                proof {
                    encode_utf8_decode_utf8(s@);
                }
                Ok(s.to_owned())
            },
            None => Err(DecodeError::Utf8),
        }
    }
}

impl Encode for String {
    open spec fn spec_encode(c: Seq<char>) -> Emitted {
        spec_encode_string(c)
    }

    fn encode(&self, writer: &mut Writer) -> (res: Result<(), EncodeError>) {
        writer.write_seq_bytes(self.as_str().as_bytes())
    }
}

impl Codec for String {
    open spec fn spec_fits(c: Seq<char>) -> bool {
        encode_utf8(c).len() <= MAX_STR_BYTES
    }

    proof fn lemma_round_trip(c: Seq<char>, tail: Seq<u8>) {
        let b = encode_utf8(c);
        let n = b.len() as u32;
        let v = varint_bytes(n as nat);
        let s = v + b + tail;
        varint_u32_round_trip(n, b + tail);
        assert(s =~= v + (b + tail));
        assert(s.skip(v.len() as int) =~= b + tail);
        assert((b + tail).take(b.len() as int) =~= b);
        encode_utf8_valid_utf8(c);
        encode_utf8_decode_utf8(c);
        assert(spec_read_seq_bytes(s, MAX_STR_BYTES as nat) == (
            Ok::<Seq<u8>, DecodeError>(b),
            v.len() + b.len(),
        ));
    }
}

/// `Option<T>`: a tag byte, `0` for `None`, `1` for `Some` followed by the
/// payload; any other tag is an invalid variant.
pub open spec fn spec_decode_option<T: Decode>(s: Seq<u8>) -> Decoded<Option<<T as DeepView>::V>> {
    let d = spec_read_u8(s);
    match d.0 {
        Ok(tag) => if tag == 0 {
            (Ok(None), d.1)
        } else if tag == 1 {
            and_then(
                d,
                s,
                |t: u8, rest: Seq<u8>|
                    {
                        let p = T::spec_decode(rest);
                        match p.0 {
                            Ok(x) => (Ok(Some(x)), p.1),
                            Err(e) => (Err(e), p.1),
                        }
                    },
            )
        } else {
            (Err(DecodeError::InvalidVariant { kind: "Option", seen: tag as u32 }), d.1)
        },
        Err(e) => (Err(e), d.1),
    }
}

impl<T: Decode> Decode for Option<T> {
    open spec fn spec_decode(s: Seq<u8>) -> Decoded<Option<<T as DeepView>::V>> {
        spec_decode_option::<T>(s)
    }

    proof fn lemma_decode_within(s: Seq<u8>) {
        if s.len() > 0 {
            T::lemma_decode_within(s.skip(1));
        }
    }

    proof fn lemma_decode_local(s: Seq<u8>, t: Seq<u8>) {
        lemma_reads_local(s, t);
        if s[0] == 1 {
            let rest = s.skip(1);
            T::lemma_decode_within(rest);
            let p = T::spec_decode(rest).1;
            let t2 = rest.take(p as int) + t;
            T::lemma_decode_local(rest, t);
            lemma_reads_local(s, t2);
            let u = s.take((1 + p) as int) + t;
            assert(u =~= s.take(1) + t2);
            assert(u.skip(1) =~= t2);
        }
    }

    open spec fn spec_need(s: Seq<u8>) -> nat {
        if s.len() > 0 && s[0] == 1 {
            T::spec_need(s.skip(1))
        } else {
            0
        }
    }

    fn decode(reader: &mut Reader<'_>, budget: &mut Budget) -> (res: Result<Option<T>, DecodeError>) {
        let ghost r0 = *reader;
        match reader.read_u8()? {
            0 => Ok(None),
            1 => {
                let ghost r1 = *reader;
                proof {
                    r0.lemma_rest_after(r1, 1);
                }
                let v = T::decode(reader, budget)?;
                Ok(Some(v))
            },
            seen => Err(DecodeError::InvalidVariant { kind: "Option", seen: seen as u32 }),
        }
    }
}

impl<T: Encode> Encode for Option<T> {
    open spec fn spec_encode(v: Option<<T as DeepView>::V>) -> Emitted {
        match v {
            None => emit(seq![0u8]),
            Some(x) => emit_then(emit(seq![1u8]), T::spec_encode(x)),
        }
    }

    fn encode(&self, writer: &mut Writer) -> (res: Result<(), EncodeError>) {
        match self {
            None => writer.write_u8(0),
            Some(v) => {
                writer.write_u8(1)?;
                v.encode(writer)
            },
        }
    }
}

/// The wire form of options: `None` is byte 0; `Some(x)` is byte 1 then
/// `x`; bytes opening with 0 read back as `None`, consuming one byte, and
/// bytes opening with 1 as `Some` of what follows.
pub proof fn lemma_option_wire<T: Encode + Decode>(x: <T as DeepView>::V, s: Seq<u8>)
    ensures
        <Option<T> as Encode>::spec_encode(None) == emit(seq![0u8]),
        <Option<T> as Encode>::spec_encode(Some(x)) == emit_then(emit(seq![1u8]), T::spec_encode(x)),
        <Option<T> as Decode>::spec_decode(seq![0u8] + s) == (
            Ok::<Option<<T as DeepView>::V>, DecodeError>(None),
            1nat,
        ),
        <Option<T> as Decode>::spec_decode(seq![1u8] + s).0 == match T::spec_decode(s).0 {
            Ok(v) => Ok::<Option<<T as DeepView>::V>, DecodeError>(Some(v)),
            Err(e) => Err(e),
        },
{
    assert((seq![1u8] + s).skip(1) =~= s);
}

impl<T: Codec> Codec for Option<T> {
    open spec fn spec_fits(v: Option<<T as DeepView>::V>) -> bool {
        match v {
            None => true,
            Some(x) => T::spec_fits(x),
        }
    }

    proof fn lemma_round_trip(v: Option<<T as DeepView>::V>, tail: Seq<u8>) {
        match v {
            None => {
                assert((seq![0u8] + tail)[0] == 0);
            },
            Some(x) => {
                T::lemma_round_trip(x, tail);
                let e = T::spec_encode(x).0;
                let s = seq![1u8] + e + tail;
                assert(s[0] == 1);
                assert(s.skip(1) =~= e + tail);
            },
        }
    }
}

/// `n` values one after the other.
pub open spec fn spec_decode_elems<T: Decode>(s: Seq<u8>, n: nat) -> Decoded<Seq<<T as DeepView>::V>>
    decreases n,
{
    if n == 0 {
        (Ok(Seq::empty()), 0)
    } else {
        and_then(
            spec_decode_elems::<T>(s, (n - 1) as nat),
            s,
            |prefix: Seq<<T as DeepView>::V>, rest: Seq<u8>|
                {
                    let p = T::spec_decode(rest);
                    match p.0 {
                        Ok(x) => (Ok(prefix.push(x)), p.1),
                        Err(e) => (Err(e), p.1),
                    }
                },
        )
    }
}

/// `Vec<T>`: a `u32` varint count of at most [`MAX_SEQ_LEN`], then the
/// elements.
pub open spec fn spec_decode_vec<T: Decode>(s: Seq<u8>) -> Decoded<Seq<<T as DeepView>::V>> {
    and_then(
        spec_read_varint_u32(s),
        s,
        |len: u32, rest: Seq<u8>|
            if len > MAX_SEQ_LEN {
                (Err(DecodeError::LengthOverflow), 0)
            } else {
                spec_decode_elems::<T>(rest, len as nat)
            },
    )
}

/// The elements' encodings one after the other, up to the first that stops.
pub open spec fn spec_encode_elems<T: Encode>(vs: Seq<<T as DeepView>::V>) -> Emitted
    decreases vs.len(),
{
    if vs.len() == 0 {
        emit(Seq::empty())
    } else {
        emit_then(spec_encode_elems::<T>(vs.drop_last()), T::spec_encode(vs.last()))
    }
}

/// The count, then the elements; a count over `u32::MAX` is refused before
/// anything is written.
pub open spec fn spec_encode_vec<T: Encode>(vs: Seq<<T as DeepView>::V>) -> Emitted {
    if vs.len() > u32::MAX {
        (Seq::empty(), false)
    } else {
        emit_then(emit(varint_bytes(vs.len())), spec_encode_elems::<T>(vs))
    }
}

/// Decoding elements stays consumed within the input.
pub proof fn lemma_decode_elems_within<T: Decode>(s: Seq<u8>, n: nat)
    ensures
        spec_decode_elems::<T>(s, n).1 <= s.len(),
    decreases n,
{
    if n > 0 {
        lemma_decode_elems_within::<T>(s, (n - 1) as nat);
        let d = spec_decode_elems::<T>(s, (n - 1) as nat);
        T::lemma_decode_within(s.skip(d.1 as int));
    }
}

/// Once an element fails, decoding more elements fails the same way.
pub proof fn lemma_decode_elems_err<T: Decode>(s: Seq<u8>, i: nat, n: nat)
    requires
        i <= n,
        spec_decode_elems::<T>(s, i).0 is Err,
    ensures
        spec_decode_elems::<T>(s, n) == spec_decode_elems::<T>(s, i),
    decreases n - i,
{
    if i < n {
        lemma_decode_elems_err::<T>(s, i, (n - 1) as nat);
    }
}

/// How many budget levels reading the first `n` elements needs: each
/// element is read one level down, and reading stops at the first that
/// fails.
pub open spec fn spec_need_elems<T: Decode>(s: Seq<u8>, n: nat) -> nat
    decreases n,
{
    if n == 0 {
        0
    } else {
        let d = spec_decode_elems::<T>(s, (n - 1) as nat);
        let prev = spec_need_elems::<T>(s, (n - 1) as nat);
        if d.0 is Ok {
            let k = 1 + T::spec_need(s.skip(d.1 as int));
            if k > prev {
                k
            } else {
                prev
            }
        } else {
            prev
        }
    }
}

/// Reading more elements never needs fewer levels.
pub proof fn lemma_need_elems_mono<T: Decode>(s: Seq<u8>, i: nat, n: nat)
    ensures
        i <= n ==> spec_need_elems::<T>(s, i) <= spec_need_elems::<T>(s, n),
    decreases n,
{
    if i < n {
        lemma_need_elems_mono::<T>(s, i, (n - 1) as nat);
    }
}

/// Once an element fails, reading more needs no more levels.
pub proof fn lemma_need_elems_err<T: Decode>(s: Seq<u8>, i: nat, n: nat)
    requires
        i <= n,
        spec_decode_elems::<T>(s, i).0 is Err,
    ensures
        spec_need_elems::<T>(s, n) == spec_need_elems::<T>(s, i),
    decreases n - i,
{
    if i < n {
        lemma_need_elems_err::<T>(s, i, (n - 1) as nat);
        lemma_decode_elems_err::<T>(s, i, (n - 1) as nat);
    }
}

/// Successfully decoded elements look at no byte past those they consume.
pub proof fn lemma_decode_elems_local<T: Decode>(s: Seq<u8>, n: nat, t: Seq<u8>)
    requires
        spec_decode_elems::<T>(s, n).0 is Ok,
    ensures
        spec_decode_elems::<T>(s.take(spec_decode_elems::<T>(s, n).1 as int) + t, n) == spec_decode_elems::<T>(s, n),
    decreases n,
{
    if n > 0 {
        let d = spec_decode_elems::<T>(s, (n - 1) as nat);
        lemma_decode_elems_within::<T>(s, (n - 1) as nat);
        let rest = s.skip(d.1 as int);
        T::lemma_decode_within(rest);
        let p = T::spec_decode(rest).1;
        let t2 = rest.take(p as int) + t;
        lemma_decode_elems_local::<T>(s, (n - 1) as nat, t2);
        T::lemma_decode_local(rest, t);
        let u = s.take((d.1 + p) as int) + t;
        assert(u =~= s.take(d.1 as int) + t2);
        assert(u.skip(d.1 as int) =~= t2);
    }
}

/// Once an element's encoding stops, encoding more elements appends nothing.
pub proof fn lemma_encode_elems_stopped<T: Encode>(vs: Seq<<T as DeepView>::V>, i: nat)
    requires
        i <= vs.len(),
        !spec_encode_elems::<T>(vs.take(i as int)).1,
    ensures
        spec_encode_elems::<T>(vs) == spec_encode_elems::<T>(vs.take(i as int)),
    decreases vs.len() - i,
{
    if i < vs.len() {
        assert(vs.take(i + 1 as int).drop_last() =~= vs.take(i as int));
        lemma_encode_elems_stopped::<T>(vs, i + 1);
    } else {
        assert(vs.take(i as int) =~= vs);
    }
}

/// Encoded elements decode back, whatever follows them.
pub proof fn lemma_elems_round_trip<T: Codec>(vs: Seq<<T as DeepView>::V>, tail: Seq<u8>)
    requires
        forall|i: int| 0 <= i < vs.len() ==> T::spec_fits(#[trigger] vs[i]),
    ensures
        spec_encode_elems::<T>(vs).1,
        spec_decode_elems::<T>(spec_encode_elems::<T>(vs).0 + tail, vs.len()) == (
            Ok::<Seq<<T as DeepView>::V>, DecodeError>(vs),
            spec_encode_elems::<T>(vs).0.len(),
        ),
    decreases vs.len(),
{
    if vs.len() > 0 {
        let init = vs.drop_last();
        let last = vs.last();
        let ei = spec_encode_elems::<T>(init).0;
        let el = T::spec_encode(last).0;
        assert(T::spec_fits(vs[vs.len() - 1]));
        assert forall|i: int| 0 <= i < init.len() implies T::spec_fits(#[trigger] init[i]) by {
            assert(init[i] == vs[i as int]);
        }
        T::lemma_round_trip(last, tail);
        lemma_elems_round_trip::<T>(init, el + tail);
        assert(spec_encode_elems::<T>(vs).0 == ei + el);
        let s = ei + el + tail;
        assert(s =~= ei + (el + tail));
        assert(s.skip(ei.len() as int) =~= el + tail);
        assert(spec_decode_elems::<T>(s, init.len()) == (
            Ok::<Seq<<T as DeepView>::V>, DecodeError>(init),
            ei.len(),
        ));
        assert(init.push(last) =~= vs);
        assert(spec_decode_elems::<T>(s, vs.len()) == (
            Ok::<Seq<<T as DeepView>::V>, DecodeError>(init.push(last)),
            ei.len() + el.len(),
        ));
    } else {
        assert(Seq::<u8>::empty() + tail =~= tail);
        assert(vs =~= Seq::<<T as DeepView>::V>::empty());
    }
}

impl<T: Decode> Decode for Vec<T> {
    open spec fn spec_decode(s: Seq<u8>) -> Decoded<Seq<<T as DeepView>::V>> {
        spec_decode_vec::<T>(s)
    }

    proof fn lemma_decode_within(s: Seq<u8>) {
        lemma_read_varint_within(s);
        let d = spec_read_varint_u32(s);
        if let Ok(len) = d.0 {
            lemma_decode_elems_within::<T>(s.skip(d.1 as int), len as nat);
        }
    }

    proof fn lemma_decode_local(s: Seq<u8>, t: Seq<u8>) {
        lemma_read_varint_within(s);
        let d = spec_read_varint_u32(s);
        let len = d.0->Ok_0;
        let rest = s.skip(d.1 as int);
        lemma_decode_elems_within::<T>(rest, len as nat);
        let e = spec_decode_elems::<T>(rest, len as nat);
        let t2 = rest.take(e.1 as int) + t;
        lemma_reads_local(s, t2);
        lemma_decode_elems_local::<T>(rest, len as nat, t);
        let u = s.take((d.1 + e.1) as int) + t;
        assert(u =~= s.take(d.1 as int) + t2);
        assert(u.skip(d.1 as int) =~= t2);
    }

    open spec fn spec_need(s: Seq<u8>) -> nat {
        match spec_read_varint_u32(s).0 {
            Ok(n) => if n > MAX_SEQ_LEN {
                0
            } else {
                spec_need_elems::<T>(s.skip(spec_read_varint_u32(s).1 as int), n as nat)
            },
            Err(_) => 0,
        }
    }

    fn decode(reader: &mut Reader<'_>, budget: &mut Budget) -> (res: Result<Vec<T>, DecodeError>) {
        let ghost r0 = *reader;
        let len = reader.read_varint_u32()?;
        if len > MAX_SEQ_LEN {
            return Err(DecodeError::LengthOverflow);
        }
        let ghost start = *reader;
        let ghost s0 = start.rest();
        proof {
            r0.lemma_rest_after(start, spec_read_varint_u32(r0.rest()).1);
        }
        let mut out: Vec<T> = Vec::new();
        let mut i: u32 = 0;
        proof {
            assert(out.deep_view() =~= Seq::<<T as DeepView>::V>::empty());
        }
        while i < len
            invariant
                i <= len,
                len <= MAX_SEQ_LEN,
                r0 == *old(reader),
                spec_read_varint_u32(r0.rest()) == (
                    Ok::<u32, DecodeError>(len),
                    spec_read_varint_u32(r0.rest()).1,
                ),
                r0.advanced_to(start, spec_read_varint_u32(r0.rest()).1),
                r0.rest().skip(spec_read_varint_u32(r0.rest()).1 as int) == s0,
                s0 == start.rest(),
                spec_decode_elems::<T>(s0, i as nat).0 == Ok::<Seq<<T as DeepView>::V>, DecodeError>(
                    out.deep_view(),
                ),
                start.advanced_to(*reader, spec_decode_elems::<T>(s0, i as nat).1),
                *budget == *old(budget),
                budget.remaining() >= spec_need_elems::<T>(s0, i as nat),
            decreases len - i,
        {
            let ghost before = *reader;
            let ghost d = spec_decode_elems::<T>(s0, i as nat);
            proof {
                start.lemma_rest_after(before, d.1);
                lemma_need_elems_mono::<T>(s0, (i + 1) as nat, len as nat);
            }
            let ghost b0 = *budget;
            budget.enter()?;
            let r = T::decode(reader, budget);
            budget.leave(Ghost(b0));
            match r {
                Ok(item) => {
                    let ghost prev = out.deep_view();
                    out.push(item);
                    proof {
                        assert(out.deep_view() =~= prev.push(item.deep_view()));
                    }
                },
                Err(e) => {
                    proof {
                        if b0.remaining() >= 1 + T::spec_need(before.rest()) {
                            let p = T::spec_decode(before.rest());
                            assert(spec_decode_elems::<T>(s0, (i + 1) as nat) == (
                                Err::<Seq<<T as DeepView>::V>, DecodeError>(e),
                                d.1 + p.1,
                            ));
                            lemma_decode_elems_err::<T>(s0, (i + 1) as nat, len as nat);
                            lemma_need_elems_err::<T>(s0, (i + 1) as nat, len as nat);
                        }
                    }
                    return Err(e);
                },
            }
            i = i + 1;
        }
        Ok(out)
    }
}

impl<T: Encode> Encode for Vec<T> {
    open spec fn spec_encode(vs: Seq<<T as DeepView>::V>) -> Emitted {
        spec_encode_vec::<T>(vs)
    }

    fn encode(&self, writer: &mut Writer) -> (res: Result<(), EncodeError>) {
        if self.len() > u32::MAX as usize {
            return Err(EncodeError::LengthOverflow);
        }
        let ghost w0 = writer.bytes();
        writer.write_varint_u32(self.len() as u32)?;
        let ghost head = writer.bytes();
        let ghost vs = self.deep_view();
        let mut i: usize = 0;
        proof {
            assert(vs.take(0) =~= Seq::<<T as DeepView>::V>::empty());
            assert(head + Seq::<u8>::empty() =~= head);
        }
        while i < self.len()
            invariant
                i <= self.len(),
                vs == self.deep_view(),
                vs.len() <= u32::MAX,
                w0 == old(writer).bytes(),
                writer.start() == old(writer).start(),
                head == w0 + varint_bytes(vs.len()),
                writer.bytes() == head + spec_encode_elems::<T>(vs.take(i as int)).0,
                spec_encode_elems::<T>(vs.take(i as int)).1,
            decreases self.len() - i,
        {
            let ghost before = writer.bytes();
            let r = self[i].encode(writer);
            proof {
                assert(vs.take(i + 1 as int).drop_last() =~= vs.take(i as int));
                assert(vs.take(i + 1 as int).last() == self[i as int].deep_view());
                assert(writer.bytes() =~= head + spec_encode_elems::<T>(vs.take(i + 1 as int)).0);
            }
            if r.is_err() {
                proof {
                    lemma_encode_elems_stopped::<T>(vs, (i + 1) as nat);
                }
                return r;
            }
            i = i + 1;
        }
        proof {
            assert(vs.take(i as int) =~= vs);
        }
        Ok(())
    }
}

impl<T: Codec> Codec for Vec<T> {
    open spec fn spec_fits(vs: Seq<<T as DeepView>::V>) -> bool {
        &&& vs.len() <= MAX_SEQ_LEN
        &&& forall|i: int| 0 <= i < vs.len() ==> T::spec_fits(#[trigger] vs[i])
    }

    proof fn lemma_round_trip(vs: Seq<<T as DeepView>::V>, tail: Seq<u8>) {
        let e = spec_encode_elems::<T>(vs).0;
        lemma_elems_round_trip::<T>(vs, tail);
        varint_u32_round_trip(vs.len() as u32, e + tail);
        let h = varint_bytes(vs.len());
        let s = h + e + tail;
        assert(s =~= h + (e + tail));
        assert(s.skip(h.len() as int) =~= e + tail);
    }
}

impl<A: Decode, B: Decode> Decode for (A, B) {
    open spec fn spec_decode(s: Seq<u8>) -> Decoded<(<A as DeepView>::V, <B as DeepView>::V)> {
        and_then(
            A::spec_decode(s),
            s,
            |a: <A as DeepView>::V, rest: Seq<u8>|
                {
                    let p = B::spec_decode(rest);
                    match p.0 {
                        Ok(b) => (Ok((a, b)), p.1),
                        Err(e) => (Err(e), p.1),
                    }
                },
        )
    }

    proof fn lemma_decode_within(s: Seq<u8>) {
        A::lemma_decode_within(s);
        B::lemma_decode_within(s.skip(A::spec_decode(s).1 as int));
    }

    proof fn lemma_decode_local(s: Seq<u8>, t: Seq<u8>) {
        A::lemma_decode_within(s);
        let da = A::spec_decode(s);
        let rest = s.skip(da.1 as int);
        B::lemma_decode_within(rest);
        let db = B::spec_decode(rest);
        let t2 = rest.take(db.1 as int) + t;
        A::lemma_decode_local(s, t2);
        B::lemma_decode_local(rest, t);
        let u = s.take((da.1 + db.1) as int) + t;
        assert(u =~= s.take(da.1 as int) + t2);
        assert(u.skip(da.1 as int) =~= t2);
    }

    open spec fn spec_need(s: Seq<u8>) -> nat {
        let a = A::spec_decode(s);
        let na = 1 + A::spec_need(s);
        if a.0 is Ok {
            let nb = 1 + B::spec_need(s.skip(a.1 as int));
            if na >= nb {
                na
            } else {
                nb
            }
        } else {
            na
        }
    }

    fn decode(reader: &mut Reader<'_>, budget: &mut Budget) -> (res: Result<(A, B), DecodeError>) {
        let ghost r0 = *reader;
        let ghost b0 = *budget;
        budget.enter()?;
        let ra = A::decode(reader, budget);
        budget.leave(Ghost(b0));
        let a = ra?;
        proof {
            r0.lemma_rest_after(*reader, A::spec_decode(r0.rest()).1);
        }
        budget.enter()?;
        let rb = B::decode(reader, budget);
        budget.leave(Ghost(b0));
        let b = rb?;
        Ok((a, b))
    }
}

impl<A: Encode, B: Encode> Encode for (A, B) {
    open spec fn spec_encode(v: (<A as DeepView>::V, <B as DeepView>::V)) -> Emitted {
        emit_then(A::spec_encode(v.0), B::spec_encode(v.1))
    }

    fn encode(&self, writer: &mut Writer) -> (res: Result<(), EncodeError>) {
        self.0.encode(writer)?;
        self.1.encode(writer)
    }
}

impl<A: Codec, B: Codec> Codec for (A, B) {
    open spec fn spec_fits(v: (<A as DeepView>::V, <B as DeepView>::V)) -> bool {
        A::spec_fits(v.0) && B::spec_fits(v.1)
    }

    proof fn lemma_round_trip(v: (<A as DeepView>::V, <B as DeepView>::V), tail: Seq<u8>) {
        let ea = A::spec_encode(v.0).0;
        let eb = B::spec_encode(v.1).0;
        B::lemma_round_trip(v.1, tail);
        A::lemma_round_trip(v.0, eb + tail);
        let s = ea + eb + tail;
        assert(s =~= ea + (eb + tail));
        assert(s.skip(ea.len() as int) =~= eb + tail);
    }
}

/// A small record of a label, an optional count and a list of flags,
/// written and read member by member.
#[derive(Debug, Clone, PartialEq, Eq)]
pub struct EncodeWrap {
    /// Free-form label.
    pub label: String,
    /// Optional count.
    pub count: Option<u32>,
    /// Flags, in order.
    pub flags: Vec<bool>,
}

impl DeepView for EncodeWrap {
    type V = (Seq<char>, (Option<u32>, Seq<bool>));

    open spec fn deep_view(&self) -> (Seq<char>, (Option<u32>, Seq<bool>)) {
        (self.label@, (self.count, self.flags.deep_view()))
    }
}

impl Encode for EncodeWrap {
    open spec fn spec_encode(v: (Seq<char>, (Option<u32>, Seq<bool>))) -> Emitted {
        <(String, (Option<u32>, Vec<bool>)) as Encode>::spec_encode(v)
    }

    fn encode(&self, writer: &mut Writer) -> (res: Result<(), EncodeError>) {
        self.label.encode(writer)?;
        self.count.encode(writer)?;
        self.flags.encode(writer)
    }
}

impl Decode for EncodeWrap {
    open spec fn spec_decode(s: Seq<u8>) -> Decoded<(Seq<char>, (Option<u32>, Seq<bool>))> {
        <(String, (Option<u32>, Vec<bool>)) as Decode>::spec_decode(s)
    }

    proof fn lemma_decode_within(s: Seq<u8>) {
        <(String, (Option<u32>, Vec<bool>)) as Decode>::lemma_decode_within(s);
    }

    proof fn lemma_decode_local(s: Seq<u8>, t: Seq<u8>) {
        <(String, (Option<u32>, Vec<bool>)) as Decode>::lemma_decode_local(s, t);
    }

    open spec fn spec_need(s: Seq<u8>) -> nat {
        <(String, (Option<u32>, Vec<bool>)) as Decode>::spec_need(s)
    }

    fn decode(reader: &mut Reader<'_>, budget: &mut Budget) -> (res: Result<EncodeWrap, DecodeError>) {
        let (label, (count, flags)) = <(String, (Option<u32>, Vec<bool>))>::decode(reader, budget)?;
        Ok(EncodeWrap { label, count, flags })
    }
}

impl Codec for EncodeWrap {
    open spec fn spec_fits(v: (Seq<char>, (Option<u32>, Seq<bool>))) -> bool {
        <(String, (Option<u32>, Vec<bool>)) as Codec>::spec_fits(v)
    }

    proof fn lemma_round_trip(v: (Seq<char>, (Option<u32>, Seq<bool>)), tail: Seq<u8>) {
        <(String, (Option<u32>, Vec<bool>)) as Codec>::lemma_round_trip(v, tail);
    }
}

} // verus!

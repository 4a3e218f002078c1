//! Validating wire decoder: a bounds-checked byte cursor.
//!
//! Every read is specified over the bytes that remain in the cursor: a spec
//! function maps those bytes to the read's outcome and to the number of bytes
//! it consumes, on success and on failure alike. Nested decodes run under a
//! [`Budget`] that bounds their depth, so hostile input cannot exhaust the
//! call stack.
use crate::digits::{decimal, decimal_string};
use crate::varint::{
    digits_value, lemma_mod_add_once, lemma_pow128_bounds, lemma_scan_varint_bytes,
    lemma_scan_varint_cases, lemma_varint_bytes_len, lemma_varint_fits, lemma_varint_bytes_shape, lemma_varint_step,
    scan_varint, varint_bytes, VarintScan,
};
use vstd::arithmetic::div_mod::*;
use vstd::arithmetic::power::*;
use vstd::prelude::*;

verus! {

broadcast use vstd::array::group_array_axioms;

/// Reasons a decoder may reject its input.
#[derive(Debug)]
pub enum DecodeError {
    /// The reader hit the end of the buffer mid-read.
    Eof {
        /// Bytes the read wanted.
        needed: usize,
        /// Bytes that remained.
        had: usize,
    },
    /// A discriminant did not match any variant of the target enum.
    InvalidVariant {
        /// Type whose discriminant was being decoded.
        kind: &'static str,
        /// Out-of-range discriminant value seen on the wire.
        seen: u32,
    },
    /// An encoded length or value exceeded what the receiver accepts.
    LengthOverflow,
    /// A byte sequence claimed to be UTF-8 was not.
    Utf8,
    /// A nested decode exhausted the [`Budget`].
    Budget(BudgetError),
    /// Payload-specific failure.
    Custom(&'static str),
}

/// Which limit of a [`Budget`] a decode ran into.
#[derive(Debug, Clone, Copy, PartialEq, Eq)]
pub enum BudgetError {
    /// Nesting went deeper than the budget allows.
    Depth,
}

/// The limits a decode runs under.
#[derive(Debug, Clone, Copy, PartialEq, Eq)]
pub struct Limits {
    /// How many nested decodes may be open at once.
    pub max_depth: u32,
}

impl Limits {
    /// Limits for a trusted host peer.
    pub fn host() -> (l: Limits)
        ensures
            l.max_depth == 256,
    {
        Limits { max_depth: 256 }
    }

    /// Tight limits for untrusted, possibly hostile input.
    pub fn fuzz() -> (l: Limits)
        ensures
            l.max_depth == 64,
    {
        Limits { max_depth: 64 }
    }
}

/// Bounds how deep a decode may nest, so that hostile input cannot exhaust
/// the call stack: each nested decode enters one level and leaves it when
/// done.
#[derive(Debug)]
pub struct Budget {
    max_depth: u32,
    depth: u32,
}

impl Budget {
    /// How many more levels may be entered.
    pub closed spec fn remaining(self) -> nat {
        if self.depth <= self.max_depth {
            (self.max_depth - self.depth) as nat
        } else {
            0
        }
    }

    /// A fresh budget under `limits`, with no level entered.
    pub fn new(limits: Limits) -> (b: Budget)
        ensures
            b.remaining() == limits.max_depth,
    {
        Budget { max_depth: limits.max_depth, depth: 0 }
    }

    /// How many more levels may be entered.
    pub fn remaining_depth(&self) -> (n: u32)
        ensures
            n == self.remaining(),
    {
        if self.depth <= self.max_depth {
            self.max_depth - self.depth
        } else {
            0
        }
    }

    /// A budget in the same state as this one, to charge without touching
    /// this one.
    pub fn snapshot(&self) -> (b: Budget)
        ensures
            b == *self,
    {
        Budget { max_depth: self.max_depth, depth: self.depth }
    }

    /// The budget after entering one more level.
    pub closed spec fn entered(self) -> Budget {
        Budget { max_depth: self.max_depth, depth: (self.depth + 1) as u32 }
    }

    /// Enter one level of nesting, or fail with a depth error when none is
    /// left (then nothing changes).
    pub fn enter(&mut self) -> (res: Result<(), DecodeError>)
        ensures
            res is Ok <==> old(self).remaining() > 0,
            res matches Err(e) ==> e == DecodeError::Budget(BudgetError::Depth),
            res is Err ==> *final(self) == *old(self),
            res is Ok ==> *final(self) == old(self).entered(),
            res is Ok ==> final(self).remaining() == old(self).remaining() - 1,
    {
        if self.depth < self.max_depth {
            self.depth = self.depth + 1;
            Ok(())
        } else {
            Err(DecodeError::Budget(BudgetError::Depth))
        }
    }

    /// Leave the level entered last, back to `outer`.
    pub(crate) fn leave(&mut self, Ghost(outer): Ghost<Budget>)
        requires
            *old(self) == outer.entered(),
            outer.remaining() > 0,
        ensures
            *final(self) == outer,
    {
        self.depth = self.depth - 1;
    }
}

impl DecodeError {
    /// A human-readable description of the error.
    pub fn message(&self) -> (m: String)
        ensures
            m@ == match self {
                DecodeError::Eof { needed, had } => "dol-wire decode: end of input (needed "@ + decimal(
                    *needed as nat,
                ) + " bytes, had "@ + decimal(*had as nat) + ")"@,
                DecodeError::InvalidVariant { kind, seen } => "dol-wire decode: invalid discriminant "@
                    + decimal(*seen as nat) + " for "@ + kind@,
                DecodeError::LengthOverflow => "dol-wire decode: length-prefix overflow"@,
                DecodeError::Utf8 => "dol-wire decode: invalid UTF-8 in str payload"@,
                DecodeError::Budget(_) => "dol-wire decode: budget exhausted: nesting too deep"@,
                DecodeError::Custom(text) => "dol-wire decode: "@ + text@,
            },
    {
        match self {
            DecodeError::Eof { needed, had } => {
                let mut m = "dol-wire decode: end of input (needed ".to_owned();
                m.append(decimal_string(*needed as u64).as_str());
                m.append(" bytes, had ");
                m.append(decimal_string(*had as u64).as_str());
                m.append(")");
                m
            },
            DecodeError::InvalidVariant { kind, seen } => {
                let mut m = "dol-wire decode: invalid discriminant ".to_owned();
                m.append(decimal_string(*seen as u64).as_str());
                m.append(" for ");
                m.append(kind);
                m
            },
            DecodeError::LengthOverflow => "dol-wire decode: length-prefix overflow".to_owned(),
            DecodeError::Utf8 => "dol-wire decode: invalid UTF-8 in str payload".to_owned(),
            DecodeError::Budget(_) => "dol-wire decode: budget exhausted: nesting too deep".to_owned(),
            DecodeError::Custom(text) => {
                let mut m = "dol-wire decode: ".to_owned();
                m.append(text);
                m
            },
        }
    }
}

/// The outcome of a decoder run on some bytes, with the number of bytes it
/// consumed.
pub type Decoded<T> = (Result<T, DecodeError>, nat);

/// Runs `next` on what `first` left unconsumed, unless `first` failed.
pub open spec fn and_then<A, B>(
    first: Decoded<A>,
    s: Seq<u8>,
    next: spec_fn(A, Seq<u8>) -> Decoded<B>,
) -> Decoded<B> {
    match first.0 {
        Ok(a) => {
            let r = next(a, s.skip(first.1 as int));
            (r.0, first.1 + r.1)
        },
        Err(e) => (Err(e), first.1),
    }
}

/// `d` with its value, if any, passed through `f`.
pub open spec fn mapped<A, B>(d: Decoded<A>, f: spec_fn(A) -> B) -> Decoded<B> {
    match d.0 {
        Ok(a) => (Ok(f(a)), d.1),
        Err(e) => (Err(e), d.1),
    }
}

/// A `u32` varint discriminant, mapped by `of` to one of a fieldless enum's
/// variants; a discriminant `of` does not map is an invalid variant of
/// `kind`.
pub open spec fn spec_decode_tag<A>(s: Seq<u8>, of: spec_fn(u32) -> Option<A>, kind: &'static str) -> Decoded<A> {
    and_then(
        spec_read_varint_u32(s),
        s,
        |t: u32, rest: Seq<u8>|
            match of(t) {
                Some(a) => (Ok(a), 0),
                None => (Err(DecodeError::InvalidVariant { kind: kind, seen: t }), 0),
            },
    )
}

/// `res` is the outcome `d` describes, with values taken by their deep view.
pub open spec fn decoded_as<T: DeepView>(res: Result<T, DecodeError>, d: Result<T::V, DecodeError>) -> bool {
    match res {
        Ok(x) => d == Ok::<T::V, DecodeError>(x.deep_view()),
        Err(e) => d == Err::<T::V, DecodeError>(e),
    }
}

/// A type that can be read from the wire.
pub trait Decode: Sized + DeepView {
    /// What decoding a value from `s` yields and how many bytes it consumes.
    spec fn spec_decode(s: Seq<u8>) -> Decoded<<Self as DeepView>::V>;

    /// A decoder never consumes more than it is given.
    proof fn lemma_decode_within(s: Seq<u8>)
        ensures
            Self::spec_decode(s).1 <= s.len(),
    ;

    /// A successful decode looks at no byte past those it consumes: the
    /// consumed bytes followed by anything decode the same way.
    proof fn lemma_decode_local(s: Seq<u8>, t: Seq<u8>)
        requires
            Self::spec_decode(s).0 is Ok,
        ensures
            Self::spec_decode(s.take(Self::spec_decode(s).1 as int) + t) == Self::spec_decode(s),
    ;

    /// How many levels of budget decoding `s` enters at its deepest before
    /// it stops.
    spec fn spec_need(s: Seq<u8>) -> nat;

    /// Read `Self` from `reader`, nesting within `budget`, which is left as
    /// it was found. With at least [`Decode::spec_need`] levels left the
    /// outcome is the one [`Decode::spec_decode`] describes; with fewer, the
    /// decode fails for want of budget.
    fn decode(reader: &mut Reader<'_>, budget: &mut Budget) -> (res: Result<Self, DecodeError>)
        ensures
            *final(budget) == *old(budget),
            old(budget).remaining() >= Self::spec_need(old(reader).rest()) ==> decoded_as(
                res,
                Self::spec_decode(old(reader).rest()).0,
            ),
            old(budget).remaining() >= Self::spec_need(old(reader).rest()) ==> old(reader).advanced_to(
                *final(reader),
                Self::spec_decode(old(reader).rest()).1,
            ),
            old(budget).remaining() < Self::spec_need(old(reader).rest()) ==> res matches Err(
                DecodeError::Budget(BudgetError::Depth),
            ),
    ;
}

/// One byte.
pub open spec fn spec_read_u8(s: Seq<u8>) -> Decoded<u8> {
    if s.len() == 0 {
        (Err(DecodeError::Eof { needed: 1, had: 0 }), 0)
    } else {
        (Ok(s[0]), 1)
    }
}

/// Exactly `n` bytes.
pub open spec fn spec_read_bytes(s: Seq<u8>, n: nat) -> Decoded<Seq<u8>> {
    if n <= s.len() {
        (Ok(s.take(n as int)), n)
    } else {
        (Err(DecodeError::Eof { needed: n as usize, had: s.len() as usize }), 0)
    }
}

/// An unsigned varint of at most `max` bytes whose value is below
/// `modulus`; a larger value is a length overflow.
pub open spec fn spec_read_varint(s: Seq<u8>, max: nat, modulus: nat) -> Decoded<nat> {
    match scan_varint(s, max) {
        VarintScan::Done(n) => if digits_value(s.take(n as int)) < modulus {
            (Ok(digits_value(s.take(n as int))), n)
        } else {
            (Err(DecodeError::LengthOverflow), n)
        },
        VarintScan::Truncated => (Err(DecodeError::Eof { needed: 1, had: 0 }), s.len()),
        VarintScan::TooLong => (Err(DecodeError::LengthOverflow), max),
    }
}

/// Exactly `n` bytes at position `pos` of a buffer, `s` being what remains
/// from there: a length overflow when the end position would pass
/// `usize::MAX`, otherwise as [`spec_read_bytes`].
pub open spec fn spec_read_bytes_at(pos: nat, s: Seq<u8>, n: nat) -> Decoded<Seq<u8>> {
    if pos + n > usize::MAX {
        (Err(DecodeError::LengthOverflow), 0)
    } else {
        spec_read_bytes(s, n)
    }
}

/// A `u32` varint length of at most `max`, then that many bytes, read at
/// position `pos` of a buffer, `s` being what remains from there.
pub open spec fn spec_read_seq_bytes_at(pos: nat, s: Seq<u8>, max: nat) -> Decoded<Seq<u8>> {
    and_then(
        spec_read_varint_u32(s),
        s,
        |len: u32, rest: Seq<u8>|
            if len > max {
                (Err(DecodeError::LengthOverflow), 0)
            } else {
                spec_read_bytes_at(pos + spec_read_varint_u32(s).1, rest, len as nat)
            },
    )
}

/// A `u32` varint length of at most `max`, then that many bytes.
pub open spec fn spec_read_seq_bytes(s: Seq<u8>, max: nat) -> Decoded<Seq<u8>> {
    and_then(
        spec_read_varint_u32(s),
        s,
        |len: u32, rest: Seq<u8>|
            if len > max {
                (Err(DecodeError::LengthOverflow), 0)
            } else {
                spec_read_bytes(rest, len as nat)
            },
    )
}

/// A varint of at most five bytes, as a `u32`.
pub open spec fn spec_read_varint_u32(s: Seq<u8>) -> Decoded<u32> {
    let r = spec_read_varint(s, 5, 0x1_0000_0000);
    match r.0 {
        Ok(v) => (Ok(v as u32), r.1),
        Err(e) => (Err(e), r.1),
    }
}

/// A varint of at most ten bytes, as a `u64`.
pub open spec fn spec_read_varint_u64(s: Seq<u8>) -> Decoded<u64> {
    let r = spec_read_varint(s, 10, 0x1_0000_0000_0000_0000);
    match r.0 {
        Ok(v) => (Ok(v as u64), r.1),
        Err(e) => (Err(e), r.1),
    }
}

/// A varint of at most nineteen bytes, as a `u128`.
pub open spec fn spec_read_varint_u128(s: Seq<u8>) -> Decoded<u128> {
    let r = spec_read_varint(s, 19, u128::MAX as nat + 1);
    match r.0 {
        Ok(v) => (Ok(v as u128), r.1),
        Err(e) => (Err(e), r.1),
    }
}

/// A discriminant below 128 is written as the single byte of its value,
/// and a byte below 128 reads back as that discriminant, consuming one
/// byte, whatever follows.
pub proof fn lemma_small_tag(t: u32, s: Seq<u8>)
    requires
        t < 128,
    ensures
        varint_bytes(t as nat) == seq![t as u8],
        spec_read_varint_u32(seq![t as u8] + s) == (Ok::<u32, DecodeError>(t), 1nat),
        (seq![t as u8] + s).skip(1) == s,
{
    assert((seq![t as u8] + s).skip(1) =~= s);
    assert(varint_bytes(t as nat) =~= seq![t as u8]);
    varint_u32_round_trip(t, s);
}

/// Reading back a written `u32` varint yields the value and consumes exactly
/// its bytes, whatever follows them.
pub proof fn varint_u32_round_trip(v: u32, tail: Seq<u8>)
    ensures
        spec_read_varint_u32(varint_bytes(v as nat) + tail) == (
            Ok::<u32, DecodeError>(v),
            varint_bytes(v as nat).len(),
        ),
{
    let b = varint_bytes(v as nat);
    lemma_pow128_bounds();
    lemma_varint_bytes_len(v as nat, 5);
    lemma_scan_varint_bytes(v as nat, tail, 5);
    lemma_varint_bytes_shape(v as nat);
    assert((b + tail).take(b.len() as int) =~= b);
    lemma_small_mod(v as nat, 0x1_0000_0000);
}

/// Reading back a written `u64` varint yields the value and consumes exactly
/// its bytes, whatever follows them.
pub proof fn varint_u64_round_trip(v: u64, tail: Seq<u8>)
    ensures
        spec_read_varint_u64(varint_bytes(v as nat) + tail) == (
            Ok::<u64, DecodeError>(v),
            varint_bytes(v as nat).len(),
        ),
{
    let b = varint_bytes(v as nat);
    lemma_pow128_bounds();
    lemma_varint_bytes_len(v as nat, 10);
    lemma_scan_varint_bytes(v as nat, tail, 10);
    lemma_varint_bytes_shape(v as nat);
    assert((b + tail).take(b.len() as int) =~= b);
    lemma_small_mod(v as nat, 0x1_0000_0000_0000_0000);
}

/// Reading back a written `u128` varint yields the value and consumes exactly
/// its bytes, whatever follows them.
pub proof fn varint_u128_round_trip(v: u128, tail: Seq<u8>)
    ensures
        spec_read_varint_u128(varint_bytes(v as nat) + tail) == (
            Ok::<u128, DecodeError>(v),
            varint_bytes(v as nat).len(),
        ),
{
    let b = varint_bytes(v as nat);
    lemma_pow128_bounds();
    lemma_varint_bytes_len(v as nat, 19);
    lemma_scan_varint_bytes(v as nat, tail, 19);
    lemma_varint_bytes_shape(v as nat);
    assert((b + tail).take(b.len() as int) =~= b);
    lemma_small_mod(v as nat, u128::MAX as nat + 1);
}

/// A successful read looks at no byte past those it consumes.
pub proof fn lemma_reads_local(s: Seq<u8>, t: Seq<u8>)
    ensures
        spec_read_u8(s).0 is Ok ==> spec_read_u8(s.take(spec_read_u8(s).1 as int) + t) == spec_read_u8(s),
        spec_read_varint_u32(s).0 is Ok ==> spec_read_varint_u32(s.take(spec_read_varint_u32(s).1 as int) + t)
            == spec_read_varint_u32(s),
        spec_read_varint_u64(s).0 is Ok ==> spec_read_varint_u64(s.take(spec_read_varint_u64(s).1 as int) + t)
            == spec_read_varint_u64(s),
        spec_read_varint_u128(s).0 is Ok ==> spec_read_varint_u128(s.take(spec_read_varint_u128(s).1 as int) + t)
            == spec_read_varint_u128(s),
{
    if s.len() > 0 {
        assert((s.take(1) + t)[0] == s[0]);
    }
    lemma_read_varint_local(s, t, 5, 0x1_0000_0000);
    lemma_read_varint_local(s, t, 10, 0x1_0000_0000_0000_0000);
    lemma_read_varint_local(s, t, 19, u128::MAX as nat + 1);
}

/// A varint read that finds an end looks at no byte past it.
proof fn lemma_read_varint_local(s: Seq<u8>, t: Seq<u8>, max: nat, modulus: nat)
    ensures
        spec_read_varint(s, max, modulus).0 is Ok ==> spec_read_varint(
            s.take(spec_read_varint(s, max, modulus).1 as int) + t,
            max,
            modulus,
        ) == spec_read_varint(s, max, modulus),
{
    if scan_varint(s, max) is Done {
        let n = scan_varint(s, max)->Done_0;
        crate::varint::lemma_scan_varint_local(s, t, max);
        crate::varint::lemma_scan_varint_done(s, max);
        assert((s.take(n as int) + t).take(n as int) =~= s.take(n as int));
    }
}

/// A successful length-prefixed read looks at no byte past those it
/// consumes.
pub proof fn lemma_read_seq_bytes_local(s: Seq<u8>, t: Seq<u8>, max: nat)
    requires
        spec_read_seq_bytes(s, max).0 is Ok,
    ensures
        spec_read_seq_bytes(s.take(spec_read_seq_bytes(s, max).1 as int) + t, max) == spec_read_seq_bytes(s, max),
{
    lemma_read_varint_within(s);
    let d = spec_read_varint_u32(s);
    let len = d.0->Ok_0;
    let rest = s.skip(d.1 as int);
    let n = d.1 + len;
    let u = s.take(n as int) + t;
    lemma_reads_local(s, rest.take(len as int) + t);
    assert(u =~= s.take(d.1 as int) + (rest.take(len as int) + t));
    assert(u.skip(d.1 as int) =~= rest.take(len as int) + t);
    assert((rest.take(len as int) + t).take(len as int) =~= rest.take(len as int));
}

/// A varint read never consumes more than it is given.
pub proof fn lemma_read_varint_within(s: Seq<u8>)
    ensures
        spec_read_varint_u32(s).1 <= s.len(),
        spec_read_varint_u64(s).1 <= s.len(),
        spec_read_varint_u128(s).1 <= s.len(),
{
    crate::varint::lemma_scan_varint_done(s, 5);
    crate::varint::lemma_scan_varint_done(s, 10);
    crate::varint::lemma_scan_varint_done(s, 19);
}

/// A byte cursor: a borrowed buffer and a position in it. Only
/// bounds-checked reads are offered; none panics on truncated input.
#[derive(Debug)]
pub struct Reader<'a> {
    buf: &'a [u8],
    pos: usize,
}

impl<'a> Reader<'a> {
    #[verifier::type_invariant]
    spec fn inv(self) -> bool {
        &&& self.pos <= self.buf@.len()
        &&& self.buf@.len() <= isize::MAX
    }

    /// The whole backing buffer.
    pub closed spec fn data(self) -> Seq<u8> {
        self.buf@
    }

    /// How many bytes have been consumed.
    pub closed spec fn position(self) -> nat {
        self.pos as nat
    }

    /// The bytes not yet consumed.
    pub open spec fn rest(self) -> Seq<u8> {
        self.data().skip(self.position() as int)
    }

    /// `after` is `self` advanced by `n` bytes over the same buffer.
    pub open spec fn advanced_to(self, after: Reader<'a>, n: nat) -> bool {
        &&& after.data() == self.data()
        &&& after.position() == self.position() + n
        &&& after.position() <= after.data().len()
        &&& after.data().len() <= isize::MAX
    }

    /// What remains after advancing is what remained, less the bytes read.
    pub proof fn lemma_rest_after(self, after: Reader<'a>, n: nat)
        requires
            self.advanced_to(after, n),
        ensures
            after.rest() == self.rest().skip(n as int),
            n <= self.rest().len(),
    {
        assert(after.rest() =~= self.rest().skip(n as int));
    }

    /// Wrap `bytes` in a fresh cursor positioned at byte 0. No slice is
    /// longer than `isize::MAX` bytes.
    pub fn new(bytes: &'a [u8]) -> (r: Self)
        requires
            bytes@.len() <= isize::MAX,
        ensures
            r.data() == bytes@,
            r.position() == 0,
            r.rest() == bytes@,
    {
        Reader { buf: bytes, pos: 0 }
    }

    /// How many bytes remain to be consumed.
    pub fn remaining(&self) -> (n: usize)
        ensures
            n == self.rest().len(),
            n == self.data().len() - self.position(),
    {
        proof {
            use_type_invariant(self);
        }
        self.buf.len() - self.pos
    }

    /// Whether every byte of the backing slice has been consumed.
    pub fn is_exhausted(&self) -> (b: bool)
        ensures
            b == (self.rest().len() == 0),
    {
        proof {
            use_type_invariant(self);
        }
        self.pos >= self.buf.len()
    }

    /// Read exactly one byte.
    pub fn read_u8(&mut self) -> (res: Result<u8, DecodeError>)
        ensures
            res == spec_read_u8(old(self).rest()).0,
            old(self).advanced_to(*final(self), spec_read_u8(old(self).rest()).1),
    {
        proof {
            use_type_invariant(&*self);
        }
        if self.pos < self.buf.len() {
            let byte = self.buf[self.pos];
            self.pos = self.pos + 1;
            Ok(byte)
        } else {
            Err(DecodeError::Eof { needed: 1, had: 0 })
        }
    }

    /// Borrow exactly `n` bytes from the cursor and advance.
    pub fn read_bytes(&mut self, n: usize) -> (res: Result<&'a [u8], DecodeError>)
        ensures
            match (res, spec_read_bytes_at(old(self).position(), old(self).rest(), n as nat).0) {
                (Ok(b), Ok(t)) => b@ == t,
                (Err(e), Err(t)) => e == t,
                _ => false,
            },
            old(self).advanced_to(*final(self), spec_read_bytes_at(old(self).position(), old(self).rest(), n as nat).1),
    {
        proof {
            use_type_invariant(&*self);
        }
        if n > usize::MAX - self.pos {
            return Err(DecodeError::LengthOverflow);
        }
        let had = self.buf.len() - self.pos;
        if n <= had {
            let end = self.pos + n;
            let slice = &self.buf[self.pos..end];
            assert(slice@ =~= old(self).rest().take(n as int));
            self.pos = end;
            Ok(slice)
        } else {
            Err(DecodeError::Eof { needed: n, had })
        }
    }

    /// Read exactly `N` bytes into an owned array.
    pub fn read_array<const N: usize>(&mut self) -> (res: Result<[u8; N], DecodeError>)
        ensures
            match (res, spec_read_bytes_at(old(self).position(), old(self).rest(), N as nat).0) {
                (Ok(a), Ok(t)) => a@ == t,
                (Err(e), Err(t)) => e == t,
                _ => false,
            },
            old(self).advanced_to(*final(self), spec_read_bytes_at(old(self).position(), old(self).rest(), N as nat).1),
    {
        let slice = self.read_bytes(N)?;
        let mut out = [0u8; N];
        let mut i: usize = 0;
        while i < N
            invariant
                i <= N,
                slice@.len() == N,
                out@.len() == N,
                forall|j: int| 0 <= j < i ==> out@[j] == slice@[j],
            decreases N - i,
        {
            out[i] = slice[i];
            i = i + 1;
        }
        assert(out@ =~= slice@);
        Ok(out)
    }

    /// Read a varint length of at most `max` and borrow that many bytes.
    pub fn read_seq_bytes(&mut self, max: usize) -> (res: Result<&'a [u8], DecodeError>)
        ensures
            match (res, spec_read_seq_bytes_at(old(self).position(), old(self).rest(), max as nat).0) {
                (Ok(b), Ok(t)) => b@ == t,
                (Err(e), Err(t)) => e == t,
                _ => false,
            },
            old(self).advanced_to(*final(self), spec_read_seq_bytes_at(old(self).position(), old(self).rest(), max as nat).1),
    {
        let ghost r0 = *self;
        let len = self.read_varint_u32()?;
        proof {
            r0.lemma_rest_after(*self, spec_read_varint_u32(r0.rest()).1);
        }
        if len as usize > max {
            return Err(DecodeError::LengthOverflow);
        }
        self.read_bytes(len as usize)
    }

    /// A length-capped read at a position within an `isize`-sized buffer
    /// never overflows, so it reads as the position-free spec says.
    pub proof fn lemma_seq_bytes_in_range(self, max: nat)
        requires
            self.position() + self.rest().len() <= isize::MAX,
            max <= isize::MAX + 1,
        ensures
            spec_read_seq_bytes_at(self.position(), self.rest(), max) == spec_read_seq_bytes(self.rest(), max),
    {
        lemma_read_varint_within(self.rest());
    }

    /// Read a postcard-style unsigned varint of at most 5 bytes (`u32`).
    pub fn read_varint_u32(&mut self) -> (res: Result<u32, DecodeError>)
        ensures
            res == spec_read_varint_u32(old(self).rest()).0,
            old(self).advanced_to(*final(self), spec_read_varint_u32(old(self).rest()).1),
    {
        let ghost s = self.rest();
        let ghost m: nat = 0x1_0000_0000;
        proof {
            use_type_invariant(&*self);
        }
        let mut result: u32 = 0;
        let mut mult: u32 = 1;
        let mut i: usize = 0;
        proof {
            assert(s.take(0) =~= Seq::<u8>::empty());
            assert(digits_value(Seq::<u8>::empty()) == 0);
            lemma_pow0(128);
        }
        while i < 5
            invariant
                i <= 5,
                s == old(self).rest(),
                i <= s.len(),
                m == 0x1_0000_0000,
                old(self).advanced_to(*self, i as nat),
                self.rest() == s.skip(i as int),
                forall|j: int| 0 <= j < i ==> s[j] >= 128,
                result as nat == digits_value(s.take(i as int)) % m,
                i < 5 ==> mult as nat == pow(128, i as nat),
            decreases 5 - i,
        {
            let byte = match self.read_u8() {
                Ok(b) => b,
                Err(e) => {
                    proof {
                        lemma_scan_varint_cases(s, 5 as nat, i as nat);
                    }
                    return Err(e);
                },
            };
            assert(byte == s[i as int]);
            assert(self.rest() =~= s.skip(i + 1));
            assert(byte & 0x7F == byte % 128) by (bit_vector);
            assert((byte & 0x80 == 0) == (byte < 128)) by (bit_vector);
            let chunk = (byte & 0x7F) as u32;
            proof {
                lemma_varint_step(s, i as nat, result as nat, mult as nat, m);
            }
            proof {
                let w = ((chunk as nat * mult as nat) % m) as nat;
                lemma_mod_add_once(result as nat, w, m);
            }
            result = result.wrapping_add(chunk.wrapping_mul(mult));
            if byte & 0x80 == 0 {
                proof {
                    lemma_scan_varint_cases(s, 5 as nat, i as nat);
                    lemma_pow128_bounds();
                    assert(pow(128, (5 - 1) as nat) == 0x1000_0000);
                    assert(m == (15 + 1) * pow(128, (5 - 1) as nat));
                    lemma_varint_fits(s, i as nat, 5, 15, m);
                }
                if i == 4 && byte > 0x0F {
                    return Err(DecodeError::LengthOverflow);
                }
                proof {
                    lemma_small_mod(digits_value(s.take(i + 1 as int)), m);
                }
                return Ok(result);
            }
            if i + 1 < 5 {
                proof {
                    lemma_pow_positive(128, i as nat);
                    lemma_pow_adds(128, i as nat, 1);
                    lemma_pow1(128);
                    lemma_pow_increases(128, (i + 1) as nat, (5 - 1) as nat);
                    lemma_pow128_bounds();
                }
                mult = mult * 128;
            }
            i = i + 1;
        }
        proof {
            lemma_scan_varint_cases(s, 5 as nat, i as nat);
        }
        Err(DecodeError::LengthOverflow)
    }

    /// Read a postcard-style unsigned varint of at most 10 bytes (`u64`).
    pub fn read_varint_u64(&mut self) -> (res: Result<u64, DecodeError>)
        ensures
            res == spec_read_varint_u64(old(self).rest()).0,
            old(self).advanced_to(*final(self), spec_read_varint_u64(old(self).rest()).1),
    {
        let ghost s = self.rest();
        let ghost m: nat = 0x1_0000_0000_0000_0000;
        proof {
            use_type_invariant(&*self);
        }
        let mut result: u64 = 0;
        let mut mult: u64 = 1;
        let mut i: usize = 0;
        proof {
            assert(s.take(0) =~= Seq::<u8>::empty());
            assert(digits_value(Seq::<u8>::empty()) == 0);
            lemma_pow0(128);
        }
        while i < 10
            invariant
                i <= 10,
                s == old(self).rest(),
                i <= s.len(),
                m == 0x1_0000_0000_0000_0000,
                old(self).advanced_to(*self, i as nat),
                self.rest() == s.skip(i as int),
                forall|j: int| 0 <= j < i ==> s[j] >= 128,
                result as nat == digits_value(s.take(i as int)) % m,
                i < 10 ==> mult as nat == pow(128, i as nat),
            decreases 10 - i,
        {
            let byte = match self.read_u8() {
                Ok(b) => b,
                Err(e) => {
                    proof {
                        lemma_scan_varint_cases(s, 10 as nat, i as nat);
                    }
                    return Err(e);
                },
            };
            assert(byte == s[i as int]);
            assert(self.rest() =~= s.skip(i + 1));
            assert(byte & 0x7F == byte % 128) by (bit_vector);
            assert((byte & 0x80 == 0) == (byte < 128)) by (bit_vector);
            let chunk = (byte & 0x7F) as u64;
            proof {
                lemma_varint_step(s, i as nat, result as nat, mult as nat, m);
            }
            proof {
                let w = ((chunk as nat * mult as nat) % m) as nat;
                lemma_mod_add_once(result as nat, w, m);
            }
            result = result.wrapping_add(chunk.wrapping_mul(mult));
            if byte & 0x80 == 0 {
                proof {
                    lemma_scan_varint_cases(s, 10 as nat, i as nat);
                    lemma_pow128_bounds();
                    assert(pow(128, (10 - 1) as nat) == 0x8000_0000_0000_0000);
                    assert(m == (1 + 1) * pow(128, (10 - 1) as nat));
                    lemma_varint_fits(s, i as nat, 10, 1, m);
                }
                if i == 9 && byte > 0x01 {
                    return Err(DecodeError::LengthOverflow);
                }
                proof {
                    lemma_small_mod(digits_value(s.take(i + 1 as int)), m);
                }
                return Ok(result);
            }
            if i + 1 < 10 {
                proof {
                    lemma_pow_positive(128, i as nat);
                    lemma_pow_adds(128, i as nat, 1);
                    lemma_pow1(128);
                    lemma_pow_increases(128, (i + 1) as nat, (10 - 1) as nat);
                    lemma_pow128_bounds();
                }
                mult = mult * 128;
            }
            i = i + 1;
        }
        proof {
            lemma_scan_varint_cases(s, 10 as nat, i as nat);
        }
        Err(DecodeError::LengthOverflow)
    }

    /// Read a postcard-style unsigned varint of at most 19 bytes (`u128`).
    pub fn read_varint_u128(&mut self) -> (res: Result<u128, DecodeError>)
        ensures
            res == spec_read_varint_u128(old(self).rest()).0,
            old(self).advanced_to(*final(self), spec_read_varint_u128(old(self).rest()).1),
    {
        let ghost s = self.rest();
        let ghost m: nat = u128::MAX as nat + 1;
        proof {
            use_type_invariant(&*self);
        }
        let mut result: u128 = 0;
        let mut mult: u128 = 1;
        let mut i: usize = 0;
        proof {
            assert(s.take(0) =~= Seq::<u8>::empty());
            assert(digits_value(Seq::<u8>::empty()) == 0);
            lemma_pow0(128);
        }
        while i < 19
            invariant
                i <= 19,
                s == old(self).rest(),
                i <= s.len(),
                m == u128::MAX as nat + 1,
                old(self).advanced_to(*self, i as nat),
                self.rest() == s.skip(i as int),
                forall|j: int| 0 <= j < i ==> s[j] >= 128,
                result as nat == digits_value(s.take(i as int)) % m,
                i < 19 ==> mult as nat == pow(128, i as nat),
            decreases 19 - i,
        {
            let byte = match self.read_u8() {
                Ok(b) => b,
                Err(e) => {
                    proof {
                        lemma_scan_varint_cases(s, 19 as nat, i as nat);
                    }
                    return Err(e);
                },
            };
            assert(byte == s[i as int]);
            assert(self.rest() =~= s.skip(i + 1));
            assert(byte & 0x7F == byte % 128) by (bit_vector);
            assert((byte & 0x80 == 0) == (byte < 128)) by (bit_vector);
            let chunk = (byte & 0x7F) as u128;
            proof {
                lemma_varint_step(s, i as nat, result as nat, mult as nat, m);
            }
            proof {
                let w = ((chunk as nat * mult as nat) % m) as nat;
                lemma_mod_add_once(result as nat, w, m);
            }
            result = result.wrapping_add(chunk.wrapping_mul(mult));
            if byte & 0x80 == 0 {
                proof {
                    lemma_scan_varint_cases(s, 19 as nat, i as nat);
                    lemma_pow128_bounds();
                    assert(pow(128, (19 - 1) as nat) == 0x4000_0000_0000_0000_0000_0000_0000_0000);
                    assert(m == (3 + 1) * pow(128, (19 - 1) as nat));
                    lemma_varint_fits(s, i as nat, 19, 3, m);
                }
                if i == 18 && byte > 0x03 {
                    return Err(DecodeError::LengthOverflow);
                }
                proof {
                    lemma_small_mod(digits_value(s.take(i + 1 as int)), m);
                }
                return Ok(result);
            }
            if i + 1 < 19 {
                proof {
                    lemma_pow_positive(128, i as nat);
                    lemma_pow_adds(128, i as nat, 1);
                    lemma_pow1(128);
                    lemma_pow_increases(128, (i + 1) as nat, (19 - 1) as nat);
                    lemma_pow128_bounds();
                }
                mult = mult * 128;
            }
            i = i + 1;
        }
        proof {
            lemma_scan_varint_cases(s, 19 as nat, i as nat);
        }
        Err(DecodeError::LengthOverflow)
    }
}

} // verus!

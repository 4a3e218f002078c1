//! Mathematical model of the postcard-style unsigned varint.
//!
//! A varint is a run of bytes, least significant group first, each byte
//! carrying seven payload bits; every byte but the last has its high bit
//! set.
use vstd::arithmetic::div_mod::*;
use vstd::arithmetic::power::*;
use vstd::prelude::*;

verus! {

/// The number a run of base-128 digits denotes: the low seven bits of each
/// byte, least significant first. High bits are ignored.
pub open spec fn digits_value(s: Seq<u8>) -> nat
    decreases s.len(),
{
    if s.len() == 0 {
        0
    } else {
        (s[0] % 128) as nat + 128 * digits_value(s.drop_first())
    }
}

/// The canonical varint of `v`: the shortest run of base-128 digits for `v`,
/// with the continuation bit set on every byte but the last.
pub open spec fn varint_bytes(v: nat) -> Seq<u8>
    decreases v,
{
    if v < 128 {
        seq![v as u8]
    } else {
        seq![((v % 128) + 128) as u8] + varint_bytes(v / 128)
    }
}

/// Outcome of scanning for the end of a varint within `max` bytes.
pub enum VarintScan {
    /// The varint ends after this many bytes (terminator included).
    Done(nat),
    /// The input ended before a byte without continuation bit.
    Truncated,
    /// `max` bytes were seen, each with its continuation bit set.
    TooLong,
}

/// Where a varint of at most `max` bytes ends in `s`.
pub open spec fn scan_varint(s: Seq<u8>, max: nat) -> VarintScan
    decreases max,
{
    if max == 0 {
        VarintScan::TooLong
    } else if s.len() == 0 {
        VarintScan::Truncated
    } else if s[0] < 128 {
        VarintScan::Done(1)
    } else {
        match scan_varint(s.drop_first(), (max - 1) as nat) {
            VarintScan::Done(n) => VarintScan::Done(n + 1),
            other => other,
        }
    }
}

/// Appending a digit adds it at the next power of 128.
pub proof fn lemma_digits_value_push(s: Seq<u8>, b: u8)
    ensures
        digits_value(s.push(b)) == digits_value(s) + (b % 128) as nat * pow(128, s.len()),
    decreases s.len(),
{
    if s.len() == 0 {
        assert(s.push(b).drop_first() =~= Seq::<u8>::empty());
        assert(digits_value(Seq::<u8>::empty()) == 0);
        assert(s.push(b)[0] == b);
        lemma_pow0(128);
    } else {
        assert(s.push(b).drop_first() =~= s.drop_first().push(b));
        assert(s.push(b)[0] == s[0]);
        lemma_digits_value_push(s.drop_first(), b);
        let c = (b % 128) as nat;
        let p1 = pow(128, (s.len() - 1) as nat);
        assert(digits_value(s.push(b)) == (s[0] % 128) as nat + 128 * (digits_value(s.drop_first()) + c * p1));
        assert(128 * (digits_value(s.drop_first()) + c * p1) == 128 * digits_value(s.drop_first()) + 128 * (c * p1)) by (nonlinear_arith);
        lemma_pow_positive(128, (s.len() - 1) as nat);
        assert(pow(128, s.len()) == 128 * pow(128, (s.len() - 1) as nat)) by {
            lemma_pow_adds(128, 1, (s.len() - 1) as nat);
            lemma_pow1(128);
        }
        assert(128 * ((b % 128) as nat * pow(128, (s.len() - 1) as nat)) == (b % 128) as nat
            * pow(128, s.len())) by (nonlinear_arith)
            requires
                pow(128, s.len()) == 128 * pow(128, (s.len() - 1) as nat),
        ;
    }
}

/// Every varint byte but the last has the continuation bit; the last has not;
/// the digits denote `v`.
pub proof fn lemma_varint_bytes_shape(v: nat)
    ensures
        varint_bytes(v).len() >= 1,
        digits_value(varint_bytes(v)) == v,
        varint_bytes(v).last() < 128,
        forall|i: int| 0 <= i < varint_bytes(v).len() - 1 ==> varint_bytes(v)[i] >= 128,
        v < pow(128, varint_bytes(v).len()),
        v >= 128 ==> v >= pow(128, (varint_bytes(v).len() - 1) as nat),
    decreases v,
{
    lemma_pow1(128);
    if v < 128 {
        assert(seq![v as u8].drop_first() =~= Seq::<u8>::empty());
        assert(digits_value(Seq::<u8>::empty()) == 0);
    } else {
        let rest = varint_bytes(v / 128);
        lemma_varint_bytes_shape(v / 128);
        let s = varint_bytes(v);
        assert(s.drop_first() =~= rest);
        assert(s =~= seq![((v % 128) + 128) as u8] + rest);
        assert(s[0] % 128 == v % 128);
        lemma_fundamental_div_mod(v as int, 128);
        assert(digits_value(s) == (s[0] % 128) as nat + 128 * digits_value(s.drop_first()));
        assert forall|i: int| 0 <= i < s.len() - 1 implies s[i] >= 128 by {
            if i > 0 {
                assert(s[i] == rest[i - 1]);
            }
        }
        lemma_pow_adds(128, 1, rest.len());
        lemma_pow_positive(128, rest.len());
        if v / 128 >= 128 {
            lemma_pow_adds(128, 1, (rest.len() - 1) as nat);
        } else {
            lemma_pow0(128);
        }
    }
}

/// Scanning a canonical varint followed by anything finds its end.
pub proof fn lemma_scan_varint_bytes(v: nat, tail: Seq<u8>, max: nat)
    requires
        varint_bytes(v).len() <= max,
    ensures
        scan_varint(varint_bytes(v) + tail, max) == VarintScan::Done(varint_bytes(v).len()),
    decreases v,
{
    let s = varint_bytes(v) + tail;
    if v < 128 {
    } else {
        lemma_scan_varint_bytes(v / 128, tail, (max - 1) as nat);
        assert(s.drop_first() =~= varint_bytes(v / 128) + tail);
    }
}

/// A scan that finds an end yields a prefix of the input whose last byte
/// alone lacks the continuation bit.
pub proof fn lemma_scan_varint_done(s: Seq<u8>, max: nat)
    ensures
        scan_varint(s, max) matches VarintScan::Done(n) ==> {
            &&& 1 <= n <= s.len()
            &&& n <= max
            &&& s[n - 1] < 128
            &&& forall|i: int| 0 <= i < n - 1 ==> s[i] >= 128
        },
        scan_varint(s, max) matches VarintScan::Truncated ==> {
            &&& s.len() < max
            &&& forall|i: int| 0 <= i < s.len() ==> s[i] >= 128
        },
        scan_varint(s, max) matches VarintScan::TooLong ==> {
            &&& max <= s.len()
            &&& forall|i: int| 0 <= i < max ==> s[i] >= 128
        },
    decreases max,
{
    if max > 0 && s.len() > 0 && s[0] >= 128 {
        lemma_scan_varint_done(s.drop_first(), (max - 1) as nat);
        assert forall|i: int| 1 <= i < s.len() implies s[i] == s.drop_first()[i - 1] by {}
    }
}

/// The scan result for a run whose first byte without continuation bit, if
/// any, is known.
pub proof fn lemma_scan_varint_cases(s: Seq<u8>, max: nat, i: nat)
    requires
        i <= s.len(),
        forall|j: int| 0 <= j < i ==> s[j] >= 128,
    ensures
        i < max && i < s.len() && s[i as int] < 128 ==> scan_varint(s, max) == VarintScan::Done(
            i + 1,
        ),
        i < max && i == s.len() ==> scan_varint(s, max) == VarintScan::Truncated,
        i == max ==> scan_varint(s, max) == VarintScan::TooLong,
{
    lemma_scan_varint_done(s, max);
    if i < max && i < s.len() && s[i as int] < 128 {
        match scan_varint(s, max) {
            VarintScan::Done(n) => {
                if n - 1 < i {
                    assert(s[n - 1] >= 128);
                }
                if n - 1 > i {
                    assert(s[i as int] >= 128);
                }
            },
            VarintScan::Truncated => {
                assert(s[i as int] >= 128);
            },
            VarintScan::TooLong => {
                assert(s[i as int] >= 128);
            },
        }
    }
    if i < max && i == s.len() {
        match scan_varint(s, max) {
            VarintScan::Done(n) => {
                assert(s[n - 1] >= 128);
            },
            VarintScan::TooLong => {},
            VarintScan::Truncated => {},
        }
    }
    if i == max {
        match scan_varint(s, max) {
            VarintScan::Done(n) => {
                assert(s[n - 1] >= 128);
            },
            VarintScan::Truncated => {},
            VarintScan::TooLong => {},
        }
    }
}

/// One more digit folded into a value kept modulo `m`.
pub proof fn lemma_varint_step(s: Seq<u8>, i: nat, r: nat, p: nat, m: nat)
    requires
        i < s.len(),
        m > 0,
        r == digits_value(s.take(i as int)) % m,
        p == pow(128, i),
    ensures
        (r + ((s[i as int] % 128) as nat * p) % m) % m == digits_value(s.take(i + 1 as int)) % m,
{
    assert(s.take(i + 1 as int) =~= s.take(i as int).push(s[i as int]));
    lemma_digits_value_push(s.take(i as int), s[i as int]);
    let d = digits_value(s.take(i as int));
    let c = (s[i as int] % 128) as nat * p;
    lemma_add_mod_noop(d as int, c as int, m as int);
    lemma_mod_twice(d as int, m as int);
    lemma_mod_twice(c as int, m as int);
}

/// A run of base-128 digits denotes less than `128^len`.
pub proof fn lemma_digits_value_bound(s: Seq<u8>)
    ensures
        digits_value(s) < pow(128, s.len()),
    decreases s.len(),
{
    if s.len() == 0 {
        lemma_pow0(128);
    } else {
        lemma_digits_value_bound(s.drop_first());
        lemma_pow_adds(128, 1, (s.len() - 1) as nat);
        lemma_pow1(128);
        let p = pow(128, (s.len() - 1) as nat);
        let d = digits_value(s.drop_first());
        assert((s[0] % 128) as nat + 128 * d < 128 * p) by (nonlinear_arith)
            requires
                d < p,
                (s[0] % 128) < 128,
        ;
    }
}

/// A varint whose terminator is byte `i`, out of at most `max`, fits
/// below `m = (last + 1) * 128^(max - 1)` exactly when it is shorter than
/// `max` bytes or its terminator is at most `last`.
pub proof fn lemma_varint_fits(s: Seq<u8>, i: nat, max: nat, last: nat, m: nat)
    requires
        i < s.len(),
        i < max,
        s[i as int] < 128,
        m == (last + 1) * pow(128, (max - 1) as nat),
    ensures
        (digits_value(s.take(i + 1 as int)) < m) <==> (i + 1 < max || s[i as int] <= last),
{
    let t = s.take(i as int);
    assert(s.take(i + 1 as int) =~= t.push(s[i as int]));
    lemma_digits_value_push(t, s[i as int]);
    lemma_digits_value_bound(t);
    let p = pow(128, i);
    let d = digits_value(t);
    let b = (s[i as int] % 128) as nat;
    assert(b == s[i as int]);
    lemma_pow_positive(128, i);
    if i + 1 < max {
        lemma_pow_increases(128, i + 1, (max - 1) as nat);
        lemma_pow_adds(128, i, 1);
        lemma_pow1(128);
        assert(d + b * p < 128 * p) by (nonlinear_arith)
            requires
                d < p,
                b < 128,
        ;
        assert(pow(128, (max - 1) as nat) <= m) by (nonlinear_arith)
            requires
                m == (last + 1) * pow(128, (max - 1) as nat),
                pow(128, (max - 1) as nat) > 0,
        ;
    } else {
        assert(i == max - 1);
        if b <= last {
            assert(d + b * p < (last + 1) * p) by (nonlinear_arith)
                requires
                    d < p,
                    b <= last,
            ;
        } else {
            assert(d + b * p >= (last + 1) * p) by (nonlinear_arith)
                requires
                    b >= last + 1,
                    p > 0,
            ;
        }
    }
}

/// The powers of 128 that bound the widest varint digits.
pub proof fn lemma_pow128_bounds()
    ensures
        pow(128, 4) == 0x1000_0000,
        pow(128, 9) == 0x8000_0000_0000_0000,
        pow(128, 18) == 0x4000_0000_0000_0000_0000_0000_0000_0000,
        pow(128, 5) == 0x8_0000_0000,
        pow(128, 10) == 0x40_0000_0000_0000_0000,
        pow(128, 19) == 128 * pow(128, 18),
{
    reveal_with_fuel(pow, 19);
}

/// Sum of two residues, reduced once.
pub proof fn lemma_mod_add_once(r: nat, w: nat, m: nat)
    requires
        r < m,
        w < m,
    ensures
        (r + w) % m == if r + w >= m {
            (r + w - m) as nat
        } else {
            r + w
        },
{
    if r + w >= m {
        lemma_small_mod((r + w - m) as nat, m);
        lemma_mod_add_multiples_vanish((r + w - m) as int, m as int);
    } else {
        lemma_small_mod(r + w, m);
    }
}

/// A value below `128^max` has a canonical varint of at most `max` bytes.
pub proof fn lemma_varint_bytes_len(v: nat, max: nat)
    requires
        v < pow(128, max),
        max >= 1,
    ensures
        varint_bytes(v).len() <= max,
{
    lemma_varint_bytes_shape(v);
    let n = varint_bytes(v).len();
    if n > max {
        if v < 128 {
            lemma_pow_increases(128, 1, max);
            lemma_pow1(128);
        } else {
            lemma_pow_increases(128, max, (n - 1) as nat);
        }
    }
}

/// A scan that finds an end looks at no byte past it.
pub proof fn lemma_scan_varint_local(s: Seq<u8>, t: Seq<u8>, max: nat)
    requires
        scan_varint(s, max) is Done,
    ensures
        scan_varint(s.take(scan_varint(s, max)->Done_0 as int) + t, max) == scan_varint(s, max),
    decreases max,
{
    lemma_scan_varint_done(s, max);
    let n = scan_varint(s, max)->Done_0;
    let u = s.take(n as int) + t;
    assert(u[0] == s[0]);
    if s[0] >= 128 {
        let s1 = s.drop_first();
        lemma_scan_varint_local(s1, t, (max - 1) as nat);
        assert(u.drop_first() =~= s1.take(n - 1) + t);
    }
}

} // verus!

//! Numeric, calendar and geometric values, with their wire form: each is
//! its fields in order, and those with a range are refused outside it.
use crate::codec::Codec;
use crate::core_types::Blob;
use crate::decoder::{and_then, Budget, Decode, DecodeError, Decoded, Reader};
use crate::encoder::{EncodeError, Emitted, Encode, Writer};
use vstd::prelude::*;

verus! {

/// The most digits a [`Decimal`] may have after the point.
pub const MAX_SCALE: u32 = 38;

/// Whether `y` is a leap year of the proleptic Gregorian calendar.
pub open spec fn is_leap_year(y: int) -> bool {
    (y % 4 == 0 && y % 100 != 0) || y % 400 == 0
}

/// A whole number of 400-year calendar cycles that lifts every `i32` year
/// above zero.
pub const YEAR_LIFT: u64 = 2_147_484_000;

/// How many days month `m` (from 1) of year `y` has.
pub open spec fn days_in_month(y: int, m: int) -> int {
    if m == 2 {
        if is_leap_year(y) {
            29
        } else {
            28
        }
    } else if m == 4 || m == 6 || m == 9 || m == 11 {
        30
    } else {
        31
    }
}

/// How many days month `m` (from 1) of year `y` has.
pub fn days_in_month_of(y: i32, m: u8) -> (d: u8)
    ensures
        d == days_in_month(y as int, m as int),
{
    if m == 2 {
        let z: u64 = (y as i64 + YEAR_LIFT as i64) as u64;
        let leap = (z % 4 == 0 && z % 100 != 0) || z % 400 == 0;
        proof {
            let yi = y as int;
            assert(z as int == 400 * 5_368_710int + yi);
            vstd::arithmetic::div_mod::lemma_mod_multiples_vanish(536_871_000int, yi, 4);
            vstd::arithmetic::div_mod::lemma_mod_multiples_vanish(21_474_840int, yi, 100);
            vstd::arithmetic::div_mod::lemma_mod_multiples_vanish(5_368_710int, yi, 400);
            assert(z as int == 4 * 536_871_000int + yi);
            assert(z as int == 100 * 21_474_840int + yi);
        }
        if leap {
            29
        } else {
            28
        }
    } else if m == 4 || m == 6 || m == 9 || m == 11 {
        30
    } else {
        31
    }
}

/// Whether the little-endian IEEE-754 `f64` bytes `b` hold a finite number:
/// its exponent bits are not all set.
pub open spec fn f64_finite(b: Seq<u8>) -> bool {
    !(b[7] % 128 == 127 && b[6] >= 240)
}

/// Whether the little-endian IEEE-754 `f64` bytes `b` hold a number below
/// zero: the sign bit is set and some other bit is too.
pub open spec fn f64_negative(b: Seq<u8>) -> bool {
    b[7] >= 128 && (b[7] != 128 || exists|i: int| 0 <= i < 7 && b[i] != 0)
}

/// Whether the little-endian IEEE-754 `f64` bytes `b` hold a finite number.
pub fn f64_bytes_finite(b: &[u8; 8]) -> (r: bool)
    ensures
        r == f64_finite(b@),
        r == f64_finite(b.deep_view()),
{
    assert(b.deep_view() =~= b@);
    !(b[7] % 128 == 127 && b[6] >= 240)
}

/// Whether the little-endian IEEE-754 `f64` bytes `b` hold a number below
/// zero.
pub fn f64_bytes_negative(b: &[u8; 8]) -> (r: bool)
    ensures
        r == f64_negative(b@),
        r == f64_negative(b.deep_view()),
{
    assert(b.deep_view() =~= b@);
    if b[7] < 128 {
        return false;
    }
    if b[7] != 128 {
        return true;
    }
    let mut i: usize = 0;
    while i < 7
        invariant
            i <= 7,
            b@.len() == 8,
            b@[7] == 128,
            b.deep_view() == b@,
            forall|j: int| 0 <= j < i ==> b@[j] == 0,
        decreases 7 - i,
    {
        if b[i] != 0 {
            assert(b@[i as int] != 0);
            return true;
        }
        i = i + 1;
    }
    false
}

/// Midnight, the first instant of a day.
pub fn midnight() -> (t: Time)
    ensures
        t.hour == 0 && t.minute == 0 && t.second == 0 && t.nanosecond == 0,
{
    Time { hour: 0, minute: 0, second: 0, nanosecond: 0 }
}

/// The offset of UTC itself.
pub fn utc() -> (o: Offset)
    ensures
        o.seconds == 0,
{
    Offset { seconds: 0 }
}

/// A fixed-point number: `unscaled / 10^scale`, with at most [`MAX_SCALE`] digits after the point.
#[derive(Debug, Clone, Copy, PartialEq, Eq)]
pub struct Decimal {
    /// The digits, as an integer.
    pub unscaled: i128,
    /// Digits after the point.
    pub scale: u32,
}

impl DeepView for Decimal {
    type V = (i128, u32);

    open spec fn deep_view(&self) -> (i128, u32) {
        (self.unscaled, self.scale)
    }
}

/// Whether the fields of a Decimal are in range.
pub open spec fn decimal_valid(v: (i128, u32)) -> bool {
    v.1 <= MAX_SCALE
}

impl Decimal {
    /// The Decimal with these fields, if they are in range.
    pub fn try_new(unscaled: i128, scale: u32) -> (r: Option<Decimal>)
        ensures
            r is Some <==> decimal_valid((unscaled.deep_view(), scale.deep_view())),
            r matches Some(made) ==> made.unscaled == unscaled,
            r matches Some(made) ==> made.scale == scale,
    {
        if scale <= MAX_SCALE {
            Some(Decimal { unscaled, scale })
        } else {
            None
        }
    }
}

impl Encode for Decimal {
    open spec fn spec_encode(v: (i128, u32)) -> Emitted {
        <(i128, u32) as Encode>::spec_encode(v)
    }

    fn encode(&self, writer: &mut Writer) -> (res: Result<(), EncodeError>) {
        (&self.unscaled, &self.scale).encode(writer)
    }
}

impl Decode for Decimal {
    open spec fn spec_decode(s: Seq<u8>) -> Decoded<(i128, u32)> {
        and_then(
            <(i128, u32) as Decode>::spec_decode(s),
            s,
            |v: (i128, u32), rest: Seq<u8>|
                if decimal_valid(v) {
                    (Ok(v), 0)
                } else {
                    (Err(DecodeError::Custom("Decimal: scale exceeds MAX_SCALE")), 0)
                },
        )
    }

    proof fn lemma_decode_within(s: Seq<u8>) {
        <(i128, u32) as Decode>::lemma_decode_within(s);
    }

    proof fn lemma_decode_local(s: Seq<u8>, t: Seq<u8>) {
        <(i128, u32) as Decode>::lemma_decode_within(s);
        <(i128, u32) as Decode>::lemma_decode_local(s, t);
    }

    open spec fn spec_need(s: Seq<u8>) -> nat {
        <(i128, u32) as Decode>::spec_need(s)
    }

    fn decode(reader: &mut Reader<'_>, budget: &mut Budget) -> (res: Result<Decimal, DecodeError>) {
        let (unscaled, scale) = <(i128, u32) as Decode>::decode(reader, budget)?;
        if !(scale <= MAX_SCALE) {
            return Err(DecodeError::Custom("Decimal: scale exceeds MAX_SCALE"));
        }
        Ok(Decimal { unscaled, scale })
    }
}

impl Codec for Decimal {
    open spec fn spec_fits(v: (i128, u32)) -> bool {
        <(i128, u32) as Codec>::spec_fits(v) && decimal_valid(v)
    }

    proof fn lemma_round_trip(v: (i128, u32), tail: Seq<u8>) {
        <(i128, u32) as Codec>::lemma_round_trip(v, tail);
    }
}

/// A day of the proleptic Gregorian calendar.
#[derive(Debug, Clone, Copy, PartialEq, Eq)]
pub struct Date {
    /// Year; year 0 is 1 BC.
    pub year: i32,
    /// Month, from 1.
    pub month: u8,
    /// Day of the month, from 1.
    pub day: u8,
}

impl DeepView for Date {
    type V = (i32, (u8, u8));

    open spec fn deep_view(&self) -> (i32, (u8, u8)) {
        (self.year, (self.month, self.day))
    }
}

/// Whether the fields of a Date are in range.
pub open spec fn date_valid(v: (i32, (u8, u8))) -> bool {
    1 <= v.1.0 <= 12 && 1 <= v.1.1 <= days_in_month(v.0 as int, v.1.0 as int)
}

impl Date {
    /// The Date with these fields, if they are in range.
    pub fn try_new(year: i32, month: u8, day: u8) -> (r: Option<Date>)
        ensures
            r is Some <==> date_valid((year.deep_view(), (month.deep_view(), day.deep_view()))),
            r matches Some(made) ==> made.year == year,
            r matches Some(made) ==> made.month == month,
            r matches Some(made) ==> made.day == day,
    {
        if 1 <= month && month <= 12 && 1 <= day && day <= days_in_month_of(year, month) {
            Some(Date { year, month, day })
        } else {
            None
        }
    }
}

impl Encode for Date {
    open spec fn spec_encode(v: (i32, (u8, u8))) -> Emitted {
        <(i32, (u8, u8)) as Encode>::spec_encode(v)
    }

    fn encode(&self, writer: &mut Writer) -> (res: Result<(), EncodeError>) {
        (&self.year, (&self.month, &self.day)).encode(writer)
    }
}

impl Decode for Date {
    open spec fn spec_decode(s: Seq<u8>) -> Decoded<(i32, (u8, u8))> {
        and_then(
            <(i32, (u8, u8)) as Decode>::spec_decode(s),
            s,
            |v: (i32, (u8, u8)), rest: Seq<u8>|
                if date_valid(v) {
                    (Ok(v), 0)
                } else {
                    (Err(DecodeError::Custom("Date: invalid calendar field")), 0)
                },
        )
    }

    proof fn lemma_decode_within(s: Seq<u8>) {
        <(i32, (u8, u8)) as Decode>::lemma_decode_within(s);
    }

    proof fn lemma_decode_local(s: Seq<u8>, t: Seq<u8>) {
        <(i32, (u8, u8)) as Decode>::lemma_decode_within(s);
        <(i32, (u8, u8)) as Decode>::lemma_decode_local(s, t);
    }

    open spec fn spec_need(s: Seq<u8>) -> nat {
        <(i32, (u8, u8)) as Decode>::spec_need(s)
    }

    fn decode(reader: &mut Reader<'_>, budget: &mut Budget) -> (res: Result<Date, DecodeError>) {
        let (year, (month, day)) = <(i32, (u8, u8)) as Decode>::decode(reader, budget)?;
        if !(1 <= month && month <= 12 && 1 <= day && day <= days_in_month_of(year, month)) {
            return Err(DecodeError::Custom("Date: invalid calendar field"));
        }
        Ok(Date { year, month, day })
    }
}

impl Codec for Date {
    open spec fn spec_fits(v: (i32, (u8, u8))) -> bool {
        <(i32, (u8, u8)) as Codec>::spec_fits(v) && date_valid(v)
    }

    proof fn lemma_round_trip(v: (i32, (u8, u8)), tail: Seq<u8>) {
        <(i32, (u8, u8)) as Codec>::lemma_round_trip(v, tail);
    }
}

/// A time of day, with a leap second allowed.
#[derive(Debug, Clone, Copy, PartialEq, Eq)]
pub struct Time {
    /// Hour, below 24.
    pub hour: u8,
    /// Minute, below 60.
    pub minute: u8,
    /// Second, at most 60.
    pub second: u8,
    /// Nanosecond, below one billion.
    pub nanosecond: u32,
}

impl DeepView for Time {
    type V = (u8, (u8, (u8, u32)));

    open spec fn deep_view(&self) -> (u8, (u8, (u8, u32))) {
        (self.hour, (self.minute, (self.second, self.nanosecond)))
    }
}

/// Whether the fields of a Time are in range.
pub open spec fn time_valid(v: (u8, (u8, (u8, u32)))) -> bool {
    v.0 < 24 && v.1.0 < 60 && v.1.1.0 <= 60 && v.1.1.1 < 1_000_000_000
}

impl Time {
    /// The Time with these fields, if they are in range.
    pub fn try_new(hour: u8, minute: u8, second: u8, nanosecond: u32) -> (r: Option<Time>)
        ensures
            r is Some <==> time_valid((hour.deep_view(), (minute.deep_view(), (second.deep_view(), nanosecond.deep_view())))),
            r matches Some(made) ==> made.hour == hour,
            r matches Some(made) ==> made.minute == minute,
            r matches Some(made) ==> made.second == second,
            r matches Some(made) ==> made.nanosecond == nanosecond,
    {
        if hour < 24 && minute < 60 && second <= 60 && nanosecond < 1_000_000_000 {
            Some(Time { hour, minute, second, nanosecond })
        } else {
            None
        }
    }
}

impl Encode for Time {
    open spec fn spec_encode(v: (u8, (u8, (u8, u32)))) -> Emitted {
        <(u8, (u8, (u8, u32))) as Encode>::spec_encode(v)
    }

    fn encode(&self, writer: &mut Writer) -> (res: Result<(), EncodeError>) {
        (&self.hour, (&self.minute, (&self.second, &self.nanosecond))).encode(writer)
    }
}

impl Decode for Time {
    open spec fn spec_decode(s: Seq<u8>) -> Decoded<(u8, (u8, (u8, u32)))> {
        and_then(
            <(u8, (u8, (u8, u32))) as Decode>::spec_decode(s),
            s,
            |v: (u8, (u8, (u8, u32))), rest: Seq<u8>|
                if time_valid(v) {
                    (Ok(v), 0)
                } else {
                    (Err(DecodeError::Custom("Time: invalid clock field")), 0)
                },
        )
    }

    proof fn lemma_decode_within(s: Seq<u8>) {
        <(u8, (u8, (u8, u32))) as Decode>::lemma_decode_within(s);
    }

    proof fn lemma_decode_local(s: Seq<u8>, t: Seq<u8>) {
        <(u8, (u8, (u8, u32))) as Decode>::lemma_decode_within(s);
        <(u8, (u8, (u8, u32))) as Decode>::lemma_decode_local(s, t);
    }

    open spec fn spec_need(s: Seq<u8>) -> nat {
        <(u8, (u8, (u8, u32))) as Decode>::spec_need(s)
    }

    fn decode(reader: &mut Reader<'_>, budget: &mut Budget) -> (res: Result<Time, DecodeError>) {
        let (hour, (minute, (second, nanosecond))) = <(u8, (u8, (u8, u32))) as Decode>::decode(reader, budget)?;
        if !(hour < 24 && minute < 60 && second <= 60 && nanosecond < 1_000_000_000) {
            return Err(DecodeError::Custom("Time: invalid clock field"));
        }
        Ok(Time { hour, minute, second, nanosecond })
    }
}

impl Codec for Time {
    open spec fn spec_fits(v: (u8, (u8, (u8, u32)))) -> bool {
        <(u8, (u8, (u8, u32))) as Codec>::spec_fits(v) && time_valid(v)
    }

    proof fn lemma_round_trip(v: (u8, (u8, (u8, u32))), tail: Seq<u8>) {
        <(u8, (u8, (u8, u32))) as Codec>::lemma_round_trip(v, tail);
    }
}

/// A date and a time of day, without offset.
#[derive(Debug, Clone, Copy, PartialEq, Eq)]
pub struct DateTime {
    /// The date.
    pub date: Date,
    /// The time of day.
    pub time: Time,
}

impl DeepView for DateTime {
    type V = (<Date as DeepView>::V, <Time as DeepView>::V);

    open spec fn deep_view(&self) -> (<Date as DeepView>::V, <Time as DeepView>::V) {
        (self.date.deep_view(), self.time.deep_view())
    }
}

impl Encode for DateTime {
    open spec fn spec_encode(v: (<Date as DeepView>::V, <Time as DeepView>::V)) -> Emitted {
        <(Date, Time) as Encode>::spec_encode(v)
    }

    fn encode(&self, writer: &mut Writer) -> (res: Result<(), EncodeError>) {
        (&self.date, &self.time).encode(writer)
    }
}

impl Decode for DateTime {
    open spec fn spec_decode(s: Seq<u8>) -> Decoded<(<Date as DeepView>::V, <Time as DeepView>::V)> {
        <(Date, Time) as Decode>::spec_decode(s)
    }

    proof fn lemma_decode_within(s: Seq<u8>) {
        <(Date, Time) as Decode>::lemma_decode_within(s);
    }

    proof fn lemma_decode_local(s: Seq<u8>, t: Seq<u8>) {
        <(Date, Time) as Decode>::lemma_decode_within(s);
        <(Date, Time) as Decode>::lemma_decode_local(s, t);
    }

    open spec fn spec_need(s: Seq<u8>) -> nat {
        <(Date, Time) as Decode>::spec_need(s)
    }

    fn decode(reader: &mut Reader<'_>, budget: &mut Budget) -> (res: Result<DateTime, DecodeError>) {
        let (date, time) = <(Date, Time) as Decode>::decode(reader, budget)?;
        Ok(DateTime { date, time })
    }
}

impl Codec for DateTime {
    open spec fn spec_fits(v: (<Date as DeepView>::V, <Time as DeepView>::V)) -> bool {
        <(Date, Time) as Codec>::spec_fits(v)
    }

    proof fn lemma_round_trip(v: (<Date as DeepView>::V, <Time as DeepView>::V), tail: Seq<u8>) {
        <(Date, Time) as Codec>::lemma_round_trip(v, tail);
    }
}

/// An offset from UTC, in seconds, less than a day either way.
#[derive(Debug, Clone, Copy, PartialEq, Eq)]
pub struct Offset {
    /// Seconds east of UTC.
    pub seconds: i32,
}

impl DeepView for Offset {
    type V = i32;

    open spec fn deep_view(&self) -> i32 {
        self.seconds
    }
}

/// Whether the fields of a Offset are in range.
pub open spec fn offset_valid(v: i32) -> bool {
    -86_399 <= v <= 86_399
}

impl Offset {
    /// The Offset with these fields, if they are in range.
    pub fn try_new(seconds: i32) -> (r: Option<Offset>)
        ensures
            r is Some <==> offset_valid(seconds.deep_view()),
            r matches Some(made) ==> made.seconds == seconds,
    {
        if -86_399 <= seconds && seconds <= 86_399 {
            Some(Offset { seconds })
        } else {
            None
        }
    }
}

impl Encode for Offset {
    open spec fn spec_encode(v: i32) -> Emitted {
        <i32 as Encode>::spec_encode(v)
    }

    fn encode(&self, writer: &mut Writer) -> (res: Result<(), EncodeError>) {
        self.seconds.encode(writer)
    }
}

impl Decode for Offset {
    open spec fn spec_decode(s: Seq<u8>) -> Decoded<i32> {
        and_then(
            <i32 as Decode>::spec_decode(s),
            s,
            |v: i32, rest: Seq<u8>|
                if offset_valid(v) {
                    (Ok(v), 0)
                } else {
                    (Err(DecodeError::Custom("Offset: out of range")), 0)
                },
        )
    }

    proof fn lemma_decode_within(s: Seq<u8>) {
        <i32 as Decode>::lemma_decode_within(s);
    }

    proof fn lemma_decode_local(s: Seq<u8>, t: Seq<u8>) {
        <i32 as Decode>::lemma_decode_within(s);
        <i32 as Decode>::lemma_decode_local(s, t);
    }

    open spec fn spec_need(s: Seq<u8>) -> nat {
        <i32 as Decode>::spec_need(s)
    }

    fn decode(reader: &mut Reader<'_>, budget: &mut Budget) -> (res: Result<Offset, DecodeError>) {
        let seconds = <i32 as Decode>::decode(reader, budget)?;
        if !(-86_399 <= seconds && seconds <= 86_399) {
            return Err(DecodeError::Custom("Offset: out of range"));
        }
        Ok(Offset { seconds })
    }
}

impl Codec for Offset {
    open spec fn spec_fits(v: i32) -> bool {
        <i32 as Codec>::spec_fits(v) && offset_valid(v)
    }

    proof fn lemma_round_trip(v: i32, tail: Seq<u8>) {
        <i32 as Codec>::lemma_round_trip(v, tail);
    }
}

/// A date and time with its UTC offset.
#[derive(Debug, Clone, Copy, PartialEq, Eq)]
pub struct TimestampTz {
    /// The local date and time.
    pub datetime: DateTime,
    /// Its offset from UTC.
    pub offset: Offset,
}

impl DeepView for TimestampTz {
    type V = (<DateTime as DeepView>::V, <Offset as DeepView>::V);

    open spec fn deep_view(&self) -> (<DateTime as DeepView>::V, <Offset as DeepView>::V) {
        (self.datetime.deep_view(), self.offset.deep_view())
    }
}

impl Encode for TimestampTz {
    open spec fn spec_encode(v: (<DateTime as DeepView>::V, <Offset as DeepView>::V)) -> Emitted {
        <(DateTime, Offset) as Encode>::spec_encode(v)
    }

    fn encode(&self, writer: &mut Writer) -> (res: Result<(), EncodeError>) {
        (&self.datetime, &self.offset).encode(writer)
    }
}

impl Decode for TimestampTz {
    open spec fn spec_decode(s: Seq<u8>) -> Decoded<(<DateTime as DeepView>::V, <Offset as DeepView>::V)> {
        <(DateTime, Offset) as Decode>::spec_decode(s)
    }

    proof fn lemma_decode_within(s: Seq<u8>) {
        <(DateTime, Offset) as Decode>::lemma_decode_within(s);
    }

    proof fn lemma_decode_local(s: Seq<u8>, t: Seq<u8>) {
        <(DateTime, Offset) as Decode>::lemma_decode_within(s);
        <(DateTime, Offset) as Decode>::lemma_decode_local(s, t);
    }

    open spec fn spec_need(s: Seq<u8>) -> nat {
        <(DateTime, Offset) as Decode>::spec_need(s)
    }

    fn decode(reader: &mut Reader<'_>, budget: &mut Budget) -> (res: Result<TimestampTz, DecodeError>) {
        let (datetime, offset) = <(DateTime, Offset) as Decode>::decode(reader, budget)?;
        Ok(TimestampTz { datetime, offset })
    }
}

impl Codec for TimestampTz {
    open spec fn spec_fits(v: (<DateTime as DeepView>::V, <Offset as DeepView>::V)) -> bool {
        <(DateTime, Offset) as Codec>::spec_fits(v)
    }

    proof fn lemma_round_trip(v: (<DateTime as DeepView>::V, <Offset as DeepView>::V), tail: Seq<u8>) {
        <(DateTime, Offset) as Codec>::lemma_round_trip(v, tail);
    }
}

/// A point of the plane; coordinates as little-endian IEEE-754 `f64` bytes, both finite.
#[derive(Debug, Clone, Copy, PartialEq, Eq)]
pub struct Point {
    /// Abscissa.
    pub x: [u8; 8],
    /// Ordinate.
    pub y: [u8; 8],
}

impl DeepView for Point {
    type V = (Seq<u8>, Seq<u8>);

    open spec fn deep_view(&self) -> (Seq<u8>, Seq<u8>) {
        (self.x.deep_view(), self.y.deep_view())
    }
}

/// Whether the fields of a Point are in range.
pub open spec fn point_valid(v: (Seq<u8>, Seq<u8>)) -> bool {
    f64_finite(v.0) && f64_finite(v.1)
}

impl Point {
    /// The Point with these fields, if they are in range.
    pub fn try_new(x: [u8; 8], y: [u8; 8]) -> (r: Option<Point>)
        ensures
            r is Some <==> point_valid((x.deep_view(), y.deep_view())),
            r matches Some(made) ==> made.x == x,
            r matches Some(made) ==> made.y == y,
    {
        if f64_bytes_finite(&x) && f64_bytes_finite(&y) {
            Some(Point { x, y })
        } else {
            None
        }
    }
}

impl Encode for Point {
    open spec fn spec_encode(v: (Seq<u8>, Seq<u8>)) -> Emitted {
        <([u8; 8], [u8; 8]) as Encode>::spec_encode(v)
    }

    fn encode(&self, writer: &mut Writer) -> (res: Result<(), EncodeError>) {
        (&self.x, &self.y).encode(writer)
    }
}

impl Decode for Point {
    open spec fn spec_decode(s: Seq<u8>) -> Decoded<(Seq<u8>, Seq<u8>)> {
        and_then(
            <([u8; 8], [u8; 8]) as Decode>::spec_decode(s),
            s,
            |v: (Seq<u8>, Seq<u8>), rest: Seq<u8>|
                if point_valid(v) {
                    (Ok(v), 0)
                } else {
                    (Err(DecodeError::Custom("Point: non-finite coordinate")), 0)
                },
        )
    }

    proof fn lemma_decode_within(s: Seq<u8>) {
        <([u8; 8], [u8; 8]) as Decode>::lemma_decode_within(s);
    }

    proof fn lemma_decode_local(s: Seq<u8>, t: Seq<u8>) {
        <([u8; 8], [u8; 8]) as Decode>::lemma_decode_within(s);
        <([u8; 8], [u8; 8]) as Decode>::lemma_decode_local(s, t);
    }

    open spec fn spec_need(s: Seq<u8>) -> nat {
        <([u8; 8], [u8; 8]) as Decode>::spec_need(s)
    }

    fn decode(reader: &mut Reader<'_>, budget: &mut Budget) -> (res: Result<Point, DecodeError>) {
        let (x, y) = <([u8; 8], [u8; 8]) as Decode>::decode(reader, budget)?;
        if !(f64_bytes_finite(&x) && f64_bytes_finite(&y)) {
            return Err(DecodeError::Custom("Point: non-finite coordinate"));
        }
        Ok(Point { x, y })
    }
}

impl Codec for Point {
    open spec fn spec_fits(v: (Seq<u8>, Seq<u8>)) -> bool {
        <([u8; 8], [u8; 8]) as Codec>::spec_fits(v) && point_valid(v)
    }

    proof fn lemma_round_trip(v: (Seq<u8>, Seq<u8>), tail: Seq<u8>) {
        <([u8; 8], [u8; 8]) as Codec>::lemma_round_trip(v, tail);
    }
}

/// The line `a·x + b·y + c = 0`; coefficients as little-endian IEEE-754 `f64` bytes, all finite.
#[derive(Debug, Clone, Copy, PartialEq, Eq)]
pub struct Line {
    /// Coefficient of x.
    pub a: [u8; 8],
    /// Coefficient of y.
    pub b: [u8; 8],
    /// Constant term.
    pub c: [u8; 8],
}

impl DeepView for Line {
    type V = (Seq<u8>, (Seq<u8>, Seq<u8>));

    open spec fn deep_view(&self) -> (Seq<u8>, (Seq<u8>, Seq<u8>)) {
        (self.a.deep_view(), (self.b.deep_view(), self.c.deep_view()))
    }
}

/// Whether the fields of a Line are in range.
pub open spec fn line_valid(v: (Seq<u8>, (Seq<u8>, Seq<u8>))) -> bool {
    f64_finite(v.0) && f64_finite(v.1.0) && f64_finite(v.1.1)
}

impl Line {
    /// The Line with these fields, if they are in range.
    pub fn try_new(a: [u8; 8], b: [u8; 8], c: [u8; 8]) -> (r: Option<Line>)
        ensures
            r is Some <==> line_valid((a.deep_view(), (b.deep_view(), c.deep_view()))),
            r matches Some(made) ==> made.a == a,
            r matches Some(made) ==> made.b == b,
            r matches Some(made) ==> made.c == c,
    {
        if f64_bytes_finite(&a) && f64_bytes_finite(&b) && f64_bytes_finite(&c) {
            Some(Line { a, b, c })
        } else {
            None
        }
    }
}

impl Encode for Line {
    open spec fn spec_encode(v: (Seq<u8>, (Seq<u8>, Seq<u8>))) -> Emitted {
        <([u8; 8], ([u8; 8], [u8; 8])) as Encode>::spec_encode(v)
    }

    fn encode(&self, writer: &mut Writer) -> (res: Result<(), EncodeError>) {
        (&self.a, (&self.b, &self.c)).encode(writer)
    }
}

impl Decode for Line {
    open spec fn spec_decode(s: Seq<u8>) -> Decoded<(Seq<u8>, (Seq<u8>, Seq<u8>))> {
        and_then(
            <([u8; 8], ([u8; 8], [u8; 8])) as Decode>::spec_decode(s),
            s,
            |v: (Seq<u8>, (Seq<u8>, Seq<u8>)), rest: Seq<u8>|
                if line_valid(v) {
                    (Ok(v), 0)
                } else {
                    (Err(DecodeError::Custom("Line: non-finite coefficient")), 0)
                },
        )
    }

    proof fn lemma_decode_within(s: Seq<u8>) {
        <([u8; 8], ([u8; 8], [u8; 8])) as Decode>::lemma_decode_within(s);
    }

    proof fn lemma_decode_local(s: Seq<u8>, t: Seq<u8>) {
        <([u8; 8], ([u8; 8], [u8; 8])) as Decode>::lemma_decode_within(s);
        <([u8; 8], ([u8; 8], [u8; 8])) as Decode>::lemma_decode_local(s, t);
    }

    open spec fn spec_need(s: Seq<u8>) -> nat {
        <([u8; 8], ([u8; 8], [u8; 8])) as Decode>::spec_need(s)
    }

    fn decode(reader: &mut Reader<'_>, budget: &mut Budget) -> (res: Result<Line, DecodeError>) {
        let (a, (b, c)) = <([u8; 8], ([u8; 8], [u8; 8])) as Decode>::decode(reader, budget)?;
        if !(f64_bytes_finite(&a) && f64_bytes_finite(&b) && f64_bytes_finite(&c)) {
            return Err(DecodeError::Custom("Line: non-finite coefficient"));
        }
        Ok(Line { a, b, c })
    }
}

impl Codec for Line {
    open spec fn spec_fits(v: (Seq<u8>, (Seq<u8>, Seq<u8>))) -> bool {
        <([u8; 8], ([u8; 8], [u8; 8])) as Codec>::spec_fits(v) && line_valid(v)
    }

    proof fn lemma_round_trip(v: (Seq<u8>, (Seq<u8>, Seq<u8>)), tail: Seq<u8>) {
        <([u8; 8], ([u8; 8], [u8; 8])) as Codec>::lemma_round_trip(v, tail);
    }
}

/// A line segment between two points.
#[derive(Debug, Clone, Copy, PartialEq, Eq)]
pub struct Segment {
    /// One end.
    pub start: Point,
    /// The other end.
    pub end: Point,
}

impl DeepView for Segment {
    type V = (<Point as DeepView>::V, <Point as DeepView>::V);

    open spec fn deep_view(&self) -> (<Point as DeepView>::V, <Point as DeepView>::V) {
        (self.start.deep_view(), self.end.deep_view())
    }
}

impl Encode for Segment {
    open spec fn spec_encode(v: (<Point as DeepView>::V, <Point as DeepView>::V)) -> Emitted {
        <(Point, Point) as Encode>::spec_encode(v)
    }

    fn encode(&self, writer: &mut Writer) -> (res: Result<(), EncodeError>) {
        (&self.start, &self.end).encode(writer)
    }
}

impl Decode for Segment {
    open spec fn spec_decode(s: Seq<u8>) -> Decoded<(<Point as DeepView>::V, <Point as DeepView>::V)> {
        <(Point, Point) as Decode>::spec_decode(s)
    }

    proof fn lemma_decode_within(s: Seq<u8>) {
        <(Point, Point) as Decode>::lemma_decode_within(s);
    }

    proof fn lemma_decode_local(s: Seq<u8>, t: Seq<u8>) {
        <(Point, Point) as Decode>::lemma_decode_within(s);
        <(Point, Point) as Decode>::lemma_decode_local(s, t);
    }

    open spec fn spec_need(s: Seq<u8>) -> nat {
        <(Point, Point) as Decode>::spec_need(s)
    }

    fn decode(reader: &mut Reader<'_>, budget: &mut Budget) -> (res: Result<Segment, DecodeError>) {
        let (start, end) = <(Point, Point) as Decode>::decode(reader, budget)?;
        Ok(Segment { start, end })
    }
}

impl Codec for Segment {
    open spec fn spec_fits(v: (<Point as DeepView>::V, <Point as DeepView>::V)) -> bool {
        <(Point, Point) as Codec>::spec_fits(v)
    }

    proof fn lemma_round_trip(v: (<Point as DeepView>::V, <Point as DeepView>::V), tail: Seq<u8>) {
        <(Point, Point) as Codec>::lemma_round_trip(v, tail);
    }
}

/// A rectangle given by two opposite corners.
#[derive(Debug, Clone, Copy, PartialEq, Eq)]
pub struct Rect {
    /// One corner.
    pub low: Point,
    /// The opposite corner.
    pub high: Point,
}

impl DeepView for Rect {
    type V = (<Point as DeepView>::V, <Point as DeepView>::V);

    open spec fn deep_view(&self) -> (<Point as DeepView>::V, <Point as DeepView>::V) {
        (self.low.deep_view(), self.high.deep_view())
    }
}

impl Encode for Rect {
    open spec fn spec_encode(v: (<Point as DeepView>::V, <Point as DeepView>::V)) -> Emitted {
        <(Point, Point) as Encode>::spec_encode(v)
    }

    fn encode(&self, writer: &mut Writer) -> (res: Result<(), EncodeError>) {
        (&self.low, &self.high).encode(writer)
    }
}

impl Decode for Rect {
    open spec fn spec_decode(s: Seq<u8>) -> Decoded<(<Point as DeepView>::V, <Point as DeepView>::V)> {
        <(Point, Point) as Decode>::spec_decode(s)
    }

    proof fn lemma_decode_within(s: Seq<u8>) {
        <(Point, Point) as Decode>::lemma_decode_within(s);
    }

    proof fn lemma_decode_local(s: Seq<u8>, t: Seq<u8>) {
        <(Point, Point) as Decode>::lemma_decode_within(s);
        <(Point, Point) as Decode>::lemma_decode_local(s, t);
    }

    open spec fn spec_need(s: Seq<u8>) -> nat {
        <(Point, Point) as Decode>::spec_need(s)
    }

    fn decode(reader: &mut Reader<'_>, budget: &mut Budget) -> (res: Result<Rect, DecodeError>) {
        let (low, high) = <(Point, Point) as Decode>::decode(reader, budget)?;
        Ok(Rect { low, high })
    }
}

impl Codec for Rect {
    open spec fn spec_fits(v: (<Point as DeepView>::V, <Point as DeepView>::V)) -> bool {
        <(Point, Point) as Codec>::spec_fits(v)
    }

    proof fn lemma_round_trip(v: (<Point as DeepView>::V, <Point as DeepView>::V), tail: Seq<u8>) {
        <(Point, Point) as Codec>::lemma_round_trip(v, tail);
    }
}

/// A circle; its radius as little-endian IEEE-754 `f64` bytes, finite and not negative.
#[derive(Debug, Clone, Copy, PartialEq, Eq)]
pub struct Circle {
    /// Centre.
    pub center: Point,
    /// Radius.
    pub radius: [u8; 8],
}

impl DeepView for Circle {
    type V = (<Point as DeepView>::V, Seq<u8>);

    open spec fn deep_view(&self) -> (<Point as DeepView>::V, Seq<u8>) {
        (self.center.deep_view(), self.radius.deep_view())
    }
}

/// Whether the fields of a Circle are in range.
pub open spec fn circle_valid(v: (<Point as DeepView>::V, Seq<u8>)) -> bool {
    f64_finite(v.1) && !f64_negative(v.1)
}

impl Circle {
    /// The Circle with these fields, if they are in range.
    pub fn try_new(center: Point, radius: [u8; 8]) -> (r: Option<Circle>)
        ensures
            r is Some <==> circle_valid((center.deep_view(), radius.deep_view())),
            r matches Some(made) ==> made.center == center,
            r matches Some(made) ==> made.radius == radius,
    {
        if f64_bytes_finite(&radius) && !f64_bytes_negative(&radius) {
            Some(Circle { center, radius })
        } else {
            None
        }
    }
}

impl Encode for Circle {
    open spec fn spec_encode(v: (<Point as DeepView>::V, Seq<u8>)) -> Emitted {
        <(Point, [u8; 8]) as Encode>::spec_encode(v)
    }

    fn encode(&self, writer: &mut Writer) -> (res: Result<(), EncodeError>) {
        (&self.center, &self.radius).encode(writer)
    }
}

impl Decode for Circle {
    open spec fn spec_decode(s: Seq<u8>) -> Decoded<(<Point as DeepView>::V, Seq<u8>)> {
        and_then(
            <(Point, [u8; 8]) as Decode>::spec_decode(s),
            s,
            |v: (<Point as DeepView>::V, Seq<u8>), rest: Seq<u8>|
                if circle_valid(v) {
                    (Ok(v), 0)
                } else {
                    (Err(DecodeError::Custom("Circle: non-finite or negative radius")), 0)
                },
        )
    }

    proof fn lemma_decode_within(s: Seq<u8>) {
        <(Point, [u8; 8]) as Decode>::lemma_decode_within(s);
    }

    proof fn lemma_decode_local(s: Seq<u8>, t: Seq<u8>) {
        <(Point, [u8; 8]) as Decode>::lemma_decode_within(s);
        <(Point, [u8; 8]) as Decode>::lemma_decode_local(s, t);
    }

    open spec fn spec_need(s: Seq<u8>) -> nat {
        <(Point, [u8; 8]) as Decode>::spec_need(s)
    }

    fn decode(reader: &mut Reader<'_>, budget: &mut Budget) -> (res: Result<Circle, DecodeError>) {
        let (center, radius) = <(Point, [u8; 8]) as Decode>::decode(reader, budget)?;
        if !(f64_bytes_finite(&radius) && !f64_bytes_negative(&radius)) {
            return Err(DecodeError::Custom("Circle: non-finite or negative radius"));
        }
        Ok(Circle { center, radius })
    }
}

impl Codec for Circle {
    open spec fn spec_fits(v: (<Point as DeepView>::V, Seq<u8>)) -> bool {
        <(Point, [u8; 8]) as Codec>::spec_fits(v) && circle_valid(v)
    }

    proof fn lemma_round_trip(v: (<Point as DeepView>::V, Seq<u8>), tail: Seq<u8>) {
        <(Point, [u8; 8]) as Codec>::lemma_round_trip(v, tail);
    }
}

/// A run of points, open or closed.
#[derive(Debug, Clone, PartialEq, Eq)]
pub struct Path {
    /// Whether the last point joins the first.
    pub closed: bool,
    /// The points, in order.
    pub points: Vec<Point>,
}

impl DeepView for Path {
    type V = (bool, Seq<<Point as DeepView>::V>);

    open spec fn deep_view(&self) -> (bool, Seq<<Point as DeepView>::V>) {
        (self.closed, self.points.deep_view())
    }
}

impl Encode for Path {
    open spec fn spec_encode(v: (bool, Seq<<Point as DeepView>::V>)) -> Emitted {
        <(bool, Vec<Point>) as Encode>::spec_encode(v)
    }

    fn encode(&self, writer: &mut Writer) -> (res: Result<(), EncodeError>) {
        (&self.closed, &self.points).encode(writer)
    }
}

impl Decode for Path {
    open spec fn spec_decode(s: Seq<u8>) -> Decoded<(bool, Seq<<Point as DeepView>::V>)> {
        <(bool, Vec<Point>) as Decode>::spec_decode(s)
    }

    proof fn lemma_decode_within(s: Seq<u8>) {
        <(bool, Vec<Point>) as Decode>::lemma_decode_within(s);
    }

    proof fn lemma_decode_local(s: Seq<u8>, t: Seq<u8>) {
        <(bool, Vec<Point>) as Decode>::lemma_decode_within(s);
        <(bool, Vec<Point>) as Decode>::lemma_decode_local(s, t);
    }

    open spec fn spec_need(s: Seq<u8>) -> nat {
        <(bool, Vec<Point>) as Decode>::spec_need(s)
    }

    fn decode(reader: &mut Reader<'_>, budget: &mut Budget) -> (res: Result<Path, DecodeError>) {
        let (closed, points) = <(bool, Vec<Point>) as Decode>::decode(reader, budget)?;
        Ok(Path { closed, points })
    }
}

impl Codec for Path {
    open spec fn spec_fits(v: (bool, Seq<<Point as DeepView>::V>)) -> bool {
        <(bool, Vec<Point>) as Codec>::spec_fits(v)
    }

    proof fn lemma_round_trip(v: (bool, Seq<<Point as DeepView>::V>), tail: Seq<u8>) {
        <(bool, Vec<Point>) as Codec>::lemma_round_trip(v, tail);
    }
}

/// A value of an extension type: the type's name and its encoded payload.
#[derive(Debug, Clone, PartialEq, Eq)]
pub struct ExtensionPayload {
    /// Name of the extension type.
    pub name: String,
    /// The payload, as the extension encodes it.
    pub data: Blob,
}

impl DeepView for ExtensionPayload {
    type V = (Seq<char>, Seq<u8>);

    open spec fn deep_view(&self) -> (Seq<char>, Seq<u8>) {
        (self.name.deep_view(), self.data.deep_view())
    }
}

impl Encode for ExtensionPayload {
    open spec fn spec_encode(v: (Seq<char>, Seq<u8>)) -> Emitted {
        <(String, Blob) as Encode>::spec_encode(v)
    }

    fn encode(&self, writer: &mut Writer) -> (res: Result<(), EncodeError>) {
        (&self.name, &self.data).encode(writer)
    }
}

impl Decode for ExtensionPayload {
    open spec fn spec_decode(s: Seq<u8>) -> Decoded<(Seq<char>, Seq<u8>)> {
        <(String, Blob) as Decode>::spec_decode(s)
    }

    proof fn lemma_decode_within(s: Seq<u8>) {
        <(String, Blob) as Decode>::lemma_decode_within(s);
    }

    proof fn lemma_decode_local(s: Seq<u8>, t: Seq<u8>) {
        <(String, Blob) as Decode>::lemma_decode_within(s);
        <(String, Blob) as Decode>::lemma_decode_local(s, t);
    }

    open spec fn spec_need(s: Seq<u8>) -> nat {
        <(String, Blob) as Decode>::spec_need(s)
    }

    fn decode(reader: &mut Reader<'_>, budget: &mut Budget) -> (res: Result<ExtensionPayload, DecodeError>) {
        let (name, data) = <(String, Blob) as Decode>::decode(reader, budget)?;
        Ok(ExtensionPayload { name, data })
    }
}

impl Codec for ExtensionPayload {
    open spec fn spec_fits(v: (Seq<char>, Seq<u8>)) -> bool {
        <(String, Blob) as Codec>::spec_fits(v)
    }

    proof fn lemma_round_trip(v: (Seq<char>, Seq<u8>), tail: Seq<u8>) {
        <(String, Blob) as Codec>::lemma_round_trip(v, tail);
    }
}

/// A closed polygon given by its vertices.
#[derive(Debug, Clone, PartialEq, Eq)]
pub struct Polygon {
    /// The vertices, in order.
    pub points: Vec<Point>,
}

impl DeepView for Polygon {
    type V = Seq<<Point as DeepView>::V>;

    open spec fn deep_view(&self) -> Seq<<Point as DeepView>::V> {
        self.points.deep_view()
    }
}

impl Encode for Polygon {
    open spec fn spec_encode(v: Seq<<Point as DeepView>::V>) -> Emitted {
        <Vec<Point> as Encode>::spec_encode(v)
    }

    fn encode(&self, writer: &mut Writer) -> (res: Result<(), EncodeError>) {
        self.points.encode(writer)
    }
}

impl Decode for Polygon {
    open spec fn spec_decode(s: Seq<u8>) -> Decoded<Seq<<Point as DeepView>::V>> {
        <Vec<Point> as Decode>::spec_decode(s)
    }

    proof fn lemma_decode_within(s: Seq<u8>) {
        <Vec<Point> as Decode>::lemma_decode_within(s);
    }

    proof fn lemma_decode_local(s: Seq<u8>, t: Seq<u8>) {
        <Vec<Point> as Decode>::lemma_decode_within(s);
        <Vec<Point> as Decode>::lemma_decode_local(s, t);
    }

    open spec fn spec_need(s: Seq<u8>) -> nat {
        <Vec<Point> as Decode>::spec_need(s)
    }

    fn decode(reader: &mut Reader<'_>, budget: &mut Budget) -> (res: Result<Polygon, DecodeError>) {
        let points = <Vec<Point> as Decode>::decode(reader, budget)?;
        Ok(Polygon { points })
    }
}

impl Codec for Polygon {
    open spec fn spec_fits(v: Seq<<Point as DeepView>::V>) -> bool {
        <Vec<Point> as Codec>::spec_fits(v)
    }

    proof fn lemma_round_trip(v: Seq<<Point as DeepView>::V>, tail: Seq<u8>) {
        <Vec<Point> as Codec>::lemma_round_trip(v, tail);
    }
}

} // verus!

//! Timestamps of the form hours:minutes:seconds,milliseconds, with the
//! arithmetic that carries from each field into the next higher one.

use crate::error::ParsingError;
use crate::number::{
    all_digits, is_digit, lemma_padded, padded, parse_digits, parse_number, push_padded, IntError,
};
use crate::text::{chars_of, cut, cut_at, lemma_cut_after, push_char};
use std::cmp::Ordering;
use vstd::arithmetic::div_mod::lemma_fundamental_div_mod_converse;
use vstd::prelude::*;

verus! {

/// The four fields of a timestamp as mathematical integers.
pub struct Time {
    pub hours: int,
    pub minutes: int,
    pub seconds: int,
    pub milliseconds: int,
}

impl Time {
    /// Whether the hours are within what a timestamp can hold.
    pub open spec fn hours_fit(self) -> bool {
        0 <= self.hours <= 255
    }

    /// Whether each field is within what a timestamp can hold.
    pub open spec fn representable(self) -> bool {
        &&& 0 <= self.hours <= 255
        &&& 0 <= self.minutes <= 255
        &&& 0 <= self.seconds <= 255
        &&& 0 <= self.milliseconds <= 65535
    }

    /// Whether minutes, seconds and milliseconds are within their units.
    pub open spec fn normalized(self) -> bool {
        &&& 0 <= self.minutes < 60
        &&& 0 <= self.seconds < 60
        &&& 0 <= self.milliseconds < 1000
    }

    /// The whole time in milliseconds.
    pub open spec fn total_milliseconds(self) -> int {
        ((self.hours * 60 + self.minutes) * 60 + self.seconds) * 1000 + self.milliseconds
    }

    /// The time moved by `n` hours.
    pub open spec fn plus_hours(self, n: int) -> Time {
        Time { hours: self.hours + n, ..self }
    }

    /// The time moved by `n` minutes: the minutes are reduced into 0..60 and
    /// the whole hours they amount to are carried.
    pub open spec fn plus_minutes(self, n: int) -> Time {
        let total = self.minutes + n;
        Time { minutes: total % 60, ..self.plus_hours(total / 60) }
    }

    /// The time moved by `n` seconds: the seconds are reduced into 0..60 and
    /// the whole minutes they amount to are carried.
    pub open spec fn plus_seconds(self, n: int) -> Time {
        let total = self.seconds + n;
        Time { seconds: total % 60, ..self.plus_minutes(total / 60) }
    }

    /// The time moved by `n` milliseconds: the milliseconds are reduced into
    /// 0..1000 and the whole seconds they amount to are carried.
    pub open spec fn plus_milliseconds(self, n: int) -> Time {
        let total = self.milliseconds + n;
        Time { milliseconds: total % 1000, ..self.plus_seconds(total / 1000) }
    }

    /// The time moved forward by each field of `delta`, the hours first.
    pub open spec fn plus(self, delta: Time) -> Time {
        self.plus_hours(delta.hours).plus_minutes(delta.minutes).plus_seconds(
            delta.seconds,
        ).plus_milliseconds(delta.milliseconds)
    }

    /// The time moved backward by each field of `delta`, the milliseconds
    /// first.
    pub open spec fn minus(self, delta: Time) -> Time {
        self.plus_milliseconds(-delta.milliseconds).plus_seconds(-delta.seconds).plus_minutes(
            -delta.minutes,
        ).plus_hours(-delta.hours)
    }

    /// Whether the hours stay within bounds at each of the four steps of
    /// `plus`.
    pub open spec fn can_plus(self, delta: Time) -> bool {
        let first = self.plus_hours(delta.hours);
        let second = first.plus_minutes(delta.minutes);
        let third = second.plus_seconds(delta.seconds);
        first.hours_fit() && second.hours_fit() && third.hours_fit() && self.plus(
            delta,
        ).hours_fit()
    }

    /// Whether the hours stay within bounds at each of the four steps of
    /// `minus`.
    pub open spec fn can_minus(self, delta: Time) -> bool {
        let first = self.plus_milliseconds(-delta.milliseconds);
        let second = first.plus_seconds(-delta.seconds);
        let third = second.plus_minutes(-delta.minutes);
        first.hours_fit() && second.hours_fit() && third.hours_fit() && self.minus(
            delta,
        ).hours_fit()
    }

    /// The text of the time: the fields in decimal, hours, minutes and
    /// seconds at least two digits wide and milliseconds at least three,
    /// with colons between the first three and a comma before the last.
    pub open spec fn rendered(self) -> Seq<char>
        recommends
            self.representable(),
    {
        padded(self.hours as nat, 2) + seq![':'] + padded(self.minutes as nat, 2) + seq![':']
            + padded(self.seconds as nat, 2) + seq![','] + padded(self.milliseconds as nat, 3)
    }

    /// Whether `self` comes before `other`: by the hours, then the minutes,
    /// then the seconds, then the milliseconds.
    pub open spec fn before(self, other: Time) -> bool {
        ||| self.hours < other.hours
        ||| self.hours == other.hours && self.minutes < other.minutes
        ||| self.hours == other.hours && self.minutes == other.minutes && self.seconds
            < other.seconds
        ||| self.hours == other.hours && self.minutes == other.minutes && self.seconds
            == other.seconds && self.milliseconds < other.milliseconds
    }
}

/// The time that `s` stands for, or the reason why it stands for none.
///
/// `s` is cut at its first colon, what follows at its first colon again, and
/// what follows that at its first comma. The four parts are the hours, the
/// minutes, the seconds and the milliseconds. Each is read as a number when
/// its turn comes, the hours, minutes and seconds within 255 and the
/// milliseconds within 65535; a part that is missing when its turn comes
/// makes the timestamp malformed.
pub open spec fn parse_time(s: Seq<char>) -> Result<Time, ParsingError> {
    let (hours_text, after_hours) = cut(s, seq![':']);
    match parse_number(hours_text, 255) {
        Err(e) => Err(ParsingError::ParseIntError(e)),
        Ok(hours) => match after_hours {
            None => Err(ParsingError::MalformedTimestamp),
            Some(after_hours) => {
                let (minutes_text, after_minutes) = cut(after_hours, seq![':']);
                match parse_number(minutes_text, 255) {
                    Err(e) => Err(ParsingError::ParseIntError(e)),
                    Ok(minutes) => match after_minutes {
                        None => Err(ParsingError::MalformedTimestamp),
                        Some(after_minutes) => {
                            let (seconds_text, after_seconds) = cut(after_minutes, seq![',']);
                            match parse_number(seconds_text, 255) {
                                Err(e) => Err(ParsingError::ParseIntError(e)),
                                Ok(seconds) => match after_seconds {
                                    None => Err(ParsingError::MalformedTimestamp),
                                    Some(milliseconds_text) => match parse_number(
                                        milliseconds_text,
                                        65535,
                                    ) {
                                        Err(e) => Err(ParsingError::ParseIntError(e)),
                                        Ok(milliseconds) => Ok(
                                            Time {
                                                hours: hours as int,
                                                minutes: minutes as int,
                                                seconds: seconds as int,
                                                milliseconds: milliseconds as int,
                                            },
                                        ),
                                    },
                                },
                            }
                        },
                    },
                }
            },
        },
    }
}

/// A timestamp: hours, minutes, seconds and milliseconds.
///
/// The greatest timestamp is 255:59:59,999. Minutes and seconds are meant to
/// stay under 60 and milliseconds under 1000; `new`, `set` and `parse` do
/// not enforce it, and every `add_*` restores it for the field it is given
/// and the fields it carries into.
#[derive(Debug, PartialEq, Eq, PartialOrd, Ord, Clone, Copy, Hash, Structural)]
pub struct Timestamp {
    hours: u8,
    minutes: u8,
    seconds: u8,
    milliseconds: u16,
}

impl View for Timestamp {
    type V = Time;

    closed spec fn view(&self) -> Time {
        Time {
            hours: self.hours as int,
            minutes: self.minutes as int,
            seconds: self.seconds as int,
            milliseconds: self.milliseconds as int,
        }
    }
}

/// The quotient and the remainder of `total` by `unit`, both rounded toward
/// minus infinity, so that the remainder is never negative.
fn carry_of(total: i64, unit: i64) -> (r: (i64, i64))
    requires
        0 < unit <= 1000,
        -0x1_0000_0000 <= total <= 0x1_0000_0000,
    ensures
        r.0 == total / unit,
        r.1 == total % unit,
{
    if total >= 0 {
        (total / unit, total % unit)
    } else {
        let back: i64 = -total;
        let steps: i64 = (back + unit - 1) / unit;
        assert(0 <= steps * unit - back < unit && steps <= back) by (nonlinear_arith)
            requires
                steps == (back + unit - 1) / (unit as int),
                back > 0,
                unit > 0,
        ;
        let rest: i64 = steps * unit - back;
        proof {
            assert(total == (-steps) * unit + rest) by (nonlinear_arith)
                requires
                    rest == steps * unit - back,
                    total == -back,
            ;
            lemma_fundamental_div_mod_converse(total as int, unit as int, -steps as int, rest as int);
        }
        (-steps, rest)
    }
}

/// A run of digits holds neither a colon, a comma, a space nor a line feed.
pub proof fn lemma_digits_hold_no_separator(s: Seq<char>)
    requires
        all_digits(s),
    ensures
        !s.contains(':'),
        !s.contains(','),
        !s.contains(' '),
        !s.contains('\n'),
        !s.contains('\r'),
{
    assert forall|c: char| !is_digit(c) implies !s.contains(c) by {
        if s.contains(c) {
            let i = choose|i: int| 0 <= i < s.len() && s[i] == c;
            assert(is_digit(s[i]));
        }
    }
}

/// Parsing the text of a time gives the time back.
pub proof fn lemma_parse_rendered(t: Time)
    requires
        t.representable(),
    ensures
        parse_time(t.rendered()) == Ok::<Time, ParsingError>(t),
{
    let h = padded(t.hours as nat, 2);
    let m = padded(t.minutes as nat, 2);
    let s = padded(t.seconds as nat, 2);
    let l = padded(t.milliseconds as nat, 3);
    lemma_padded(t.hours as nat, 2);
    lemma_padded(t.minutes as nat, 2);
    lemma_padded(t.seconds as nat, 2);
    lemma_padded(t.milliseconds as nat, 3);
    lemma_digits_hold_no_separator(h);
    lemma_digits_hold_no_separator(m);
    lemma_digits_hold_no_separator(s);
    lemma_digits_hold_no_separator(l);
    let colon = seq![':'];
    let comma = seq![','];
    let after_hours = m + colon + s + comma + l;
    let after_minutes = s + comma + l;
    assert(t.rendered() =~= h + colon + after_hours);
    lemma_cut_after(h, colon, after_hours);
    assert(after_hours =~= m + colon + after_minutes);
    lemma_cut_after(m, colon, after_minutes);
    lemma_cut_after(s, comma, l);
    assert(parse_number(h, 255) == Ok::<nat, IntError>(t.hours as nat));
    assert(parse_number(m, 255) == Ok::<nat, IntError>(t.minutes as nat));
    assert(parse_number(s, 255) == Ok::<nat, IntError>(t.seconds as nat));
    assert(parse_number(l, 65535) == Ok::<nat, IntError>(t.milliseconds as nat));
}

/// A time that was parsed has fields that a timestamp can hold.
pub proof fn lemma_parsed_time_is_representable(s: Seq<char>)
    requires
        parse_time(s) is Ok,
    ensures
        parse_time(s)->Ok_0.representable(),
{
}

/// The text of a time holds digits, two colons and a comma, and so neither
/// a space nor a line break.
pub proof fn lemma_rendered_chars(t: Time)
    requires
        t.representable(),
    ensures
        t.rendered().len() >= 12,
        forall|i: int|
            0 <= i < t.rendered().len() ==> is_digit(#[trigger] t.rendered()[i]) || t.rendered()[i]
                == ':' || t.rendered()[i] == ',',
        is_digit(t.rendered()[0]),
{
    lemma_padded(t.hours as nat, 2);
    lemma_padded(t.minutes as nat, 2);
    lemma_padded(t.seconds as nat, 2);
    lemma_padded(t.milliseconds as nat, 3);
}

/// Moving by hours, minutes, seconds or milliseconds changes the whole time
/// by just that much, and leaves the field that was moved, and those it
/// carried into, within their units.
pub proof fn lemma_plus_totals(t: Time, n: int)
    ensures
        t.plus_hours(n).total_milliseconds() == t.total_milliseconds() + n * 3_600_000,
        t.plus_minutes(n).total_milliseconds() == t.total_milliseconds() + n * 60_000,
        t.plus_seconds(n).total_milliseconds() == t.total_milliseconds() + n * 1000,
        t.plus_milliseconds(n).total_milliseconds() == t.total_milliseconds() + n,
        0 <= t.plus_minutes(n).minutes < 60,
        0 <= t.plus_seconds(n).minutes < 60 && 0 <= t.plus_seconds(n).seconds < 60,
        t.plus_milliseconds(n).normalized(),
{
}

/// Two normalized times that amount to the same number of milliseconds are
/// the same time.
pub proof fn lemma_normalized_unique(a: Time, b: Time)
    requires
        a.normalized(),
        b.normalized(),
        a.total_milliseconds() == b.total_milliseconds(),
    ensures
        a == b,
{
}

/// Among normalized times, the one that comes before the other amounts to
/// fewer milliseconds.
pub proof fn lemma_before_is_less(a: Time, b: Time)
    requires
        a.normalized(),
        b.normalized(),
    ensures
        a.before(b) <==> a.total_milliseconds() < b.total_milliseconds(),
{
}

/// Adding a time gives a normalized time that amounts to the sum of both,
/// and subtracting one gives a normalized time that amounts to the
/// difference.
pub proof fn lemma_plus_minus_totals(t: Time, delta: Time)
    ensures
        t.plus(delta).normalized(),
        t.plus(delta).total_milliseconds() == t.total_milliseconds() + delta.total_milliseconds(),
        t.minus(delta).normalized(),
        t.minus(delta).total_milliseconds() == t.total_milliseconds() - delta.total_milliseconds(),
{
    let a = t.plus_hours(delta.hours);
    let b = a.plus_minutes(delta.minutes);
    let c = b.plus_seconds(delta.seconds);
    lemma_plus_totals(t, delta.hours);
    lemma_plus_totals(a, delta.minutes);
    lemma_plus_totals(b, delta.seconds);
    lemma_plus_totals(c, delta.milliseconds);
    let x = t.plus_milliseconds(-delta.milliseconds);
    let y = x.plus_seconds(-delta.seconds);
    let z = y.plus_minutes(-delta.minutes);
    lemma_plus_totals(t, -delta.milliseconds);
    lemma_plus_totals(x, -delta.seconds);
    lemma_plus_totals(y, -delta.minutes);
    lemma_plus_totals(z, -delta.hours);
}

/// Subtracting from a normalized time what was added to it gives it back.
pub proof fn lemma_minus_undoes_plus(t: Time, delta: Time)
    requires
        t.normalized(),
    ensures
        t.plus(delta).minus(delta) == t,
{
    lemma_plus_minus_totals(t, delta);
    lemma_plus_minus_totals(t.plus(delta), delta);
    lemma_normalized_unique(t.plus(delta).minus(delta), t);
}

/// Moving a time by a number of hours, minutes, seconds or milliseconds and
/// then by the opposite number gives the time back, if the fields that are
/// carried through were within their units.
pub proof fn lemma_opposite_moves_cancel(t: Time, n: int)
    ensures
        t.plus_hours(n).plus_hours(-n) == t,
        0 <= t.minutes < 60 ==> t.plus_minutes(n).plus_minutes(-n) == t,
        0 <= t.minutes < 60 && 0 <= t.seconds < 60 ==> t.plus_seconds(n).plus_seconds(-n) == t,
        t.normalized() ==> t.plus_milliseconds(n).plus_milliseconds(-n) == t,
{
    if 0 <= t.minutes < 60 {
        let there = t.plus_minutes(n);
        let back = there.plus_minutes(-n);
        lemma_plus_totals(t, n);
        lemma_plus_totals(there, -n);
        lemma_normalized_unique(
            Time { seconds: 0, milliseconds: 0, ..back },
            Time { seconds: 0, milliseconds: 0, ..t },
        );
    }
    if 0 <= t.minutes < 60 && 0 <= t.seconds < 60 {
        let there = t.plus_seconds(n);
        let back = there.plus_seconds(-n);
        lemma_plus_totals(t, n);
        lemma_plus_totals(there, -n);
        lemma_normalized_unique(Time { milliseconds: 0, ..back }, Time { milliseconds: 0, ..t });
    }
    if t.normalized() {
        let there = t.plus_milliseconds(n);
        let back = there.plus_milliseconds(-n);
        lemma_plus_totals(t, n);
        lemma_plus_totals(there, -n);
        lemma_normalized_unique(back, t);
    }
}

/// While the fields of one timestamp are added to another the hours only
/// grow, so that each step stays within bounds if the last one does.
pub proof fn lemma_can_plus(t: Time, delta: Time)
    requires
        t.representable(),
        delta.representable(),
    ensures
        t.can_plus(delta) <==> t.plus(delta).hours <= 255,
{
}

impl Timestamp {
    /// A timestamp with the given fields, taken as they are.
    pub fn new(hours: u8, minutes: u8, seconds: u8, milliseconds: u16) -> (t: Timestamp)
        ensures
            t@ == (Time {
                hours: hours as int,
                minutes: minutes as int,
                seconds: seconds as int,
                milliseconds: milliseconds as int,
            }),
    {
        Timestamp { hours, minutes, seconds, milliseconds }
    }

    /// The four fields: hours, minutes, seconds, milliseconds.
    pub fn get(&self) -> (fields: (u8, u8, u8, u16))
        ensures
            fields.0 == self@.hours,
            fields.1 == self@.minutes,
            fields.2 == self@.seconds,
            fields.3 == self@.milliseconds,
    {
        (self.hours, self.minutes, self.seconds, self.milliseconds)
    }

    /// Replaces the four fields, taken as they are.
    pub fn set(&mut self, hours: u8, minutes: u8, seconds: u8, milliseconds: u16)
        ensures
            final(self)@ == (Time {
                hours: hours as int,
                minutes: minutes as int,
                seconds: seconds as int,
                milliseconds: milliseconds as int,
            }),
    {
        self.hours = hours;
        self.minutes = minutes;
        self.seconds = seconds;
        self.milliseconds = milliseconds;
    }

    /// Every timestamp holds fields within their integer types.
    pub proof fn lemma_representable(self)
        ensures
            self@.representable(),
    {
    }

    /// Two timestamps with the same fields are the same timestamp.
    pub proof fn lemma_view_injective(self, other: Timestamp)
        requires
            self@ == other@,
        ensures
            self == other,
    {
    }

    /// Parsing the text of a timestamp gives the timestamp back, and no
    /// other.
    pub proof fn lemma_round_trip(self, parsed: Timestamp)
        ensures
            parse_time(self@.rendered()) == Ok::<Time, ParsingError>(self@),
            parse_time(self@.rendered()) == Ok::<Time, ParsingError>(parsed@) ==> parsed == self,
    {
        self.lemma_representable();
        lemma_parse_rendered(self@);
        if parse_time(self@.rendered()) == Ok::<Time, ParsingError>(parsed@) {
            self.lemma_view_injective(parsed);
        }
    }

    /// Whether the timestamp can be moved by `n` hours.
    pub fn can_add_hours(&self, n: i32) -> (b: bool)
        ensures
            b == self@.plus_hours(n as int).hours_fit(),
    {
        let hours: i64 = self.hours as i64 + n as i64;
        0 <= hours && hours <= 255
    }

    /// Whether the timestamp can be moved by `n` minutes.
    pub fn can_add_minutes(&self, n: i32) -> (b: bool)
        ensures
            b == self@.plus_minutes(n as int).hours_fit(),
    {
        let (carry, _) = carry_of(self.minutes as i64 + n as i64, 60);
        let hours: i64 = self.hours as i64 + carry;
        0 <= hours && hours <= 255
    }

    /// Whether the timestamp can be moved by `n` seconds.
    pub fn can_add_seconds(&self, n: i32) -> (b: bool)
        ensures
            b == self@.plus_seconds(n as int).hours_fit(),
    {
        let (carry, _) = carry_of(self.seconds as i64 + n as i64, 60);
        let (carry, _) = carry_of(self.minutes as i64 + carry, 60);
        let hours: i64 = self.hours as i64 + carry;
        0 <= hours && hours <= 255
    }

    /// Whether the timestamp can be moved by `n` milliseconds.
    pub fn can_add_milliseconds(&self, n: i32) -> (b: bool)
        ensures
            b == self@.plus_milliseconds(n as int).hours_fit(),
    {
        let (carry, _) = carry_of(self.milliseconds as i64 + n as i64, 1000);
        let (carry, _) = carry_of(self.seconds as i64 + carry, 60);
        let (carry, _) = carry_of(self.minutes as i64 + carry, 60);
        let hours: i64 = self.hours as i64 + carry;
        0 <= hours && hours <= 255
    }

    /// Moves the timestamp by `n` hours, backward where `n` is negative.
    ///
    /// There is no field above the hours to carry into, so the hours must
    /// stay within 0 and 255.
    pub fn add_hours(&mut self, n: i32)
        requires
            old(self)@.plus_hours(n as int).hours_fit(),
        ensures
            final(self)@ == old(self)@.plus_hours(n as int),
    {
        self.hours = (self.hours as i32 + n) as u8;
    }

    /// Moves the timestamp by `n` minutes, backward where `n` is negative,
    /// and carries whole hours.
    pub fn add_minutes(&mut self, n: i32)
        requires
            old(self)@.plus_minutes(n as int).hours_fit(),
        ensures
            final(self)@ == old(self)@.plus_minutes(n as int),
    {
        let (carry, rest) = carry_of(self.minutes as i64 + n as i64, 60);
        self.add_hours(carry as i32);
        self.minutes = rest as u8;
    }

    /// Moves the timestamp by `n` seconds, backward where `n` is negative,
    /// and carries whole minutes.
    pub fn add_seconds(&mut self, n: i32)
        requires
            old(self)@.plus_seconds(n as int).hours_fit(),
        ensures
            final(self)@ == old(self)@.plus_seconds(n as int),
    {
        let (carry, rest) = carry_of(self.seconds as i64 + n as i64, 60);
        self.add_minutes(carry as i32);
        self.seconds = rest as u8;
    }

    /// Moves the timestamp by `n` milliseconds, backward where `n` is
    /// negative, and carries whole seconds.
    pub fn add_milliseconds(&mut self, n: i32)
        requires
            old(self)@.plus_milliseconds(n as int).hours_fit(),
        ensures
            final(self)@ == old(self)@.plus_milliseconds(n as int),
    {
        let (carry, rest) = carry_of(self.milliseconds as i64 + n as i64, 1000);
        self.add_seconds(carry as i32);
        self.milliseconds = rest as u16;
    }
    /// Whether `delta` can be added: whether the hours stay within bounds
    /// after each of its four fields.
    pub fn can_add(&self, delta: &Timestamp) -> (b: bool)
        ensures
            b == self@.can_plus(delta@),
    {
        let mut t = *self;
        if !t.can_add_hours(delta.hours as i32) {
            return false;
        }
        t.add_hours(delta.hours as i32);
        if !t.can_add_minutes(delta.minutes as i32) {
            return false;
        }
        t.add_minutes(delta.minutes as i32);
        if !t.can_add_seconds(delta.seconds as i32) {
            return false;
        }
        t.add_seconds(delta.seconds as i32);
        t.can_add_milliseconds(delta.milliseconds as i32)
    }

    /// Whether `delta` can be subtracted: whether the hours stay within
    /// bounds after each of its four fields.
    pub fn can_sub(&self, delta: &Timestamp) -> (b: bool)
        ensures
            b == self@.can_minus(delta@),
    {
        let mut t = *self;
        if !t.can_add_milliseconds(-(delta.milliseconds as i32)) {
            return false;
        }
        t.add_milliseconds(-(delta.milliseconds as i32));
        if !t.can_add_seconds(-(delta.seconds as i32)) {
            return false;
        }
        t.add_seconds(-(delta.seconds as i32));
        if !t.can_add_minutes(-(delta.minutes as i32)) {
            return false;
        }
        t.add_minutes(-(delta.minutes as i32));
        t.can_add_hours(-(delta.hours as i32))
    }

    /// Moves the timestamp forward by the fields of `timestamp`: its hours,
    /// then its minutes, its seconds and its milliseconds.
    pub fn add(&mut self, timestamp: &Timestamp)
        requires
            old(self)@.can_plus(timestamp@),
        ensures
            final(self)@ == old(self)@.plus(timestamp@),
    {
        self.add_hours(timestamp.hours as i32);
        self.add_minutes(timestamp.minutes as i32);
        self.add_seconds(timestamp.seconds as i32);
        self.add_milliseconds(timestamp.milliseconds as i32);
    }

    /// Moves the timestamp backward by the fields of `timestamp`: its
    /// milliseconds, then its seconds, its minutes and its hours.
    pub fn sub(&mut self, timestamp: &Timestamp)
        requires
            old(self)@.can_minus(timestamp@),
        ensures
            final(self)@ == old(self)@.minus(timestamp@),
    {
        self.add_milliseconds(-(timestamp.milliseconds as i32));
        self.add_seconds(-(timestamp.seconds as i32));
        self.add_minutes(-(timestamp.minutes as i32));
        self.add_hours(-(timestamp.hours as i32));
    }

    /// How the timestamp stands to `other`: by the hours, then the minutes,
    /// then the seconds, then the milliseconds.
    pub fn compare(&self, other: &Timestamp) -> (o: Ordering)
        ensures
            o == Ordering::Less <==> self@.before(other@),
            o == Ordering::Greater <==> other@.before(self@),
            o == Ordering::Equal <==> self@ == other@,
    {
        if self.hours != other.hours {
            if self.hours < other.hours {
                Ordering::Less
            } else {
                Ordering::Greater
            }
        } else if self.minutes != other.minutes {
            if self.minutes < other.minutes {
                Ordering::Less
            } else {
                Ordering::Greater
            }
        } else if self.seconds != other.seconds {
            if self.seconds < other.seconds {
                Ordering::Less
            } else {
                Ordering::Greater
            }
        } else if self.milliseconds != other.milliseconds {
            if self.milliseconds < other.milliseconds {
                Ordering::Less
            } else {
                Ordering::Greater
            }
        } else {
            Ordering::Equal
        }
    }

    /// Whether the timestamp comes before `other`.
    pub fn is_before(&self, other: &Timestamp) -> (b: bool)
        ensures
            b == self@.before(other@),
    {
        self.hours < other.hours || (self.hours == other.hours && (self.minutes < other.minutes
            || (self.minutes == other.minutes && (self.seconds < other.seconds || (self.seconds
            == other.seconds && self.milliseconds < other.milliseconds)))))
    }

    /// Appends the text of the timestamp to `out`.
    pub fn render_into(&self, out: &mut String)
        ensures
            final(out)@ == old(out)@ + self@.rendered(),
    {
        push_padded(out, self.hours as u64, 2);
        push_char(out, ':');
        push_padded(out, self.minutes as u64, 2);
        push_char(out, ':');
        push_padded(out, self.seconds as u64, 2);
        push_char(out, ',');
        push_padded(out, self.milliseconds as u64, 3);
        assert(out@ =~= old(out)@ + self@.rendered());
    }

    /// The text of the timestamp, as in `01:02:03,004`.
    pub fn to_string(&self) -> (text: String)
        ensures
            text@ == self@.rendered(),
    {
        let mut text = String::new();
        self.render_into(&mut text);
        assert(text@ =~= self@.rendered());
        text
    }

    /// Parses a timestamp from its characters.
    pub fn parse_chars(s: &[char]) -> (r: Result<Timestamp, ParsingError>)
        ensures
            match r {
                Ok(t) => parse_time(s@) == Ok::<Time, ParsingError>(t@),
                Err(e) => parse_time(s@) == Err::<Time, ParsingError>(e),
            },
    {
        let colon: [char; 1] = [':'];
        let comma: [char; 1] = [','];
        assert(colon@ =~= seq![':']);
        assert(comma@ =~= seq![',']);
        let (hours_text, after_hours) = cut_at(s, colon.as_slice());
        let hours = match parse_digits(hours_text, 255) {
            Ok(n) => n as u8,
            Err(e) => return Err(ParsingError::ParseIntError(e)),
        };
        let after_hours = match after_hours {
            Some(rest) => rest,
            None => return Err(ParsingError::MalformedTimestamp),
        };
        let (minutes_text, after_minutes) = cut_at(after_hours, colon.as_slice());
        let minutes = match parse_digits(minutes_text, 255) {
            Ok(n) => n as u8,
            Err(e) => return Err(ParsingError::ParseIntError(e)),
        };
        let after_minutes = match after_minutes {
            Some(rest) => rest,
            None => return Err(ParsingError::MalformedTimestamp),
        };
        let (seconds_text, after_seconds) = cut_at(after_minutes, comma.as_slice());
        let seconds = match parse_digits(seconds_text, 255) {
            Ok(n) => n as u8,
            Err(e) => return Err(ParsingError::ParseIntError(e)),
        };
        let milliseconds_text = match after_seconds {
            Some(rest) => rest,
            None => return Err(ParsingError::MalformedTimestamp),
        };
        let milliseconds = match parse_digits(milliseconds_text, 65535) {
            Ok(n) => n as u16,
            Err(e) => return Err(ParsingError::ParseIntError(e)),
        };
        Ok(Timestamp { hours, minutes, seconds, milliseconds })
    }

    /// Parses a timestamp of the form `hours:minutes:seconds,milliseconds`.
    ///
    /// Each field is a run of decimal digits of any length whose value fits
    /// the field: hours, minutes and seconds up to 255, milliseconds up to
    /// 65535. Values of 60 minutes or seconds and of 1000 milliseconds and
    /// more are taken as they stand.
    pub fn parse(s: &str) -> (r: Result<Timestamp, ParsingError>)
        ensures
            match r {
                Ok(t) => parse_time(s@) == Ok::<Time, ParsingError>(t@),
                Err(e) => parse_time(s@) == Err::<Time, ParsingError>(e),
            },
    {
        let chars = chars_of(s);
        Timestamp::parse_chars(chars.as_slice())
    }
}

} // verus!

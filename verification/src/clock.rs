//! Moments in local time, and what the calendar makes of them.

use chrono::{DateTime, FixedOffset};
use vstd::prelude::*;

use crate::text::{
    all_digits, decimal, law_numbers_read_back, law_two_digits_read_back, number_in, to_decimal,
    to_two_digits, two_digits,
};

verus! {

/// The first second that the calendar can hold: the year -262143 begins.
pub const FIRST_SECOND: i64 = -8_334_601_228_800;

/// The last second that the calendar can hold: the year 262142 ends.
pub const LAST_SECOND: i64 = 8_210_266_876_799;

/// Whether the calendar holds a moment, given in seconds since 1970 in UTC and
/// nanoseconds within the second.
pub open spec fn on_calendar(secs: int, nanos: int) -> bool {
    FIRST_SECOND <= secs <= LAST_SECOND && 0 <= nanos < 1_000_000_000
}

/// Whether local time may be this many seconds ahead of UTC.
pub open spec fn is_offset(offset: int) -> bool {
    -86_400 < offset < 86_400
}

/// A moment, with how far local time was ahead of UTC.
#[derive(Clone, Copy, Debug)]
pub struct Stamp {
    secs: i64,
    nanos: u32,
    offset: i32,
}

impl Stamp {
    #[verifier::type_invariant]
    spec fn inv(self) -> bool {
        on_calendar(self.secs as int, self.nanos as int) && is_offset(self.offset as int)
    }

    /// Seconds since 1970 in UTC.
    pub closed spec fn secs(self) -> i64 {
        self.secs
    }

    /// Nanoseconds within the second.
    pub closed spec fn nanos(self) -> u32 {
        self.nanos
    }

    /// Seconds by which local time was ahead of UTC.
    pub closed spec fn offset(self) -> i32 {
        self.offset
    }

    /// Nanoseconds since 1970 in UTC.
    pub open spec fn instant(self) -> int {
        self.secs() * 1_000_000_000 + self.nanos()
    }

    /// The moment with these parts, where the calendar holds it.
    pub fn new(secs: i64, nanos: u32, offset: i32) -> (r: Option<Stamp>)
        ensures
            r is Some <==> on_calendar(secs as int, nanos as int) && is_offset(offset as int),
            r matches Some(s) ==> s.secs() == secs && s.nanos() == nanos && s.offset() == offset,
    {
        if FIRST_SECOND <= secs && secs <= LAST_SECOND && nanos < 1_000_000_000 && -86_400 < offset
            && offset < 86_400 {
            Some(Stamp { secs, nanos, offset })
        } else {
            None
        }
    }

    /// The date and time to the minute, as in the name of a file.
    pub fn file_text(&self) -> (r: String)
        ensures
            r@ == file_date(*self),
    {
        proof {
            use_type_invariant(self);
        }
        format_local(self.secs, self.nanos, self.offset, "%Y-%m-%d_%H-%M")
    }

    /// The date and time to the minute.
    pub fn minute_text(&self) -> (r: String)
        ensures
            r@ == minute_date(*self),
    {
        proof {
            use_type_invariant(self);
        }
        format_local(self.secs, self.nanos, self.offset, "%Y-%m-%d %H:%M")
    }

    /// The date and time to the second.
    pub fn second_text(&self) -> (r: String)
        ensures
            r@ == second_date(*self),
    {
        proof {
            use_type_invariant(self);
        }
        format_local(self.secs, self.nanos, self.offset, "%Y-%m-%d %H:%M:%S")
    }

    /// The date and time to the millisecond, with how far local time was ahead of UTC.
    pub fn iso_text(&self) -> (r: String)
        ensures
            r@ == iso_date(*self),
    {
        proof {
            use_type_invariant(self);
        }
        let mut r = format_local(self.secs, self.nanos, self.offset, "%Y-%m-%dT%H:%M:%S");
        let millis: u64 = (self.nanos / 1_000_000) as u64;
        r.append(".");
        r.append(to_decimal(millis / 100).as_str());
        r.append(to_two_digits(millis % 100).as_str());
        let ahead: u64 = if self.offset < 0 {
            r.append("-");
            (-self.offset) as u64
        } else {
            r.append("+");
            self.offset as u64
        };
        r.append(to_two_digits(ahead / 3600).as_str());
        r.append(":");
        r.append(to_two_digits(ahead / 60 % 60).as_str());
        r
    }

    /// The moment some milliseconds later, where the calendar holds it.
    pub fn later(&self, ms: u64) -> (r: Option<Stamp>)
        ensures
            r is Some <==> self.instant() + ms * 1_000_000 < (LAST_SECOND + 1) * 1_000_000_000,
            r matches Some(s) ==> s.instant() == self.instant() + ms * 1_000_000 && s.offset()
                == self.offset(),
    {
        proof {
            use_type_invariant(self);
        }
        let nanos: u64 = self.nanos as u64 + ms % 1000 * 1_000_000;
        let secs: i64 = self.secs + (ms / 1000) as i64 + (nanos / 1_000_000_000) as i64;
        let r = Stamp::new(secs, (nanos % 1_000_000_000) as u32, self.offset);
        assert(self.instant() + ms * 1_000_000 == secs * 1_000_000_000 + nanos % 1_000_000_000);
        r
    }

    /// Whole minutes from this moment to a later one, zero where it is earlier.
    pub fn minutes_until(&self, end: &Stamp) -> (r: u64)
        ensures
            r == elapsed(*self, *end) / 60_000_000_000,
    {
        proof {
            use_type_invariant(self);
            use_type_invariant(end);
        }
        let n = whole_minutes(self.secs, self.nanos, end.secs, end.nanos);
        if n < 0 {
            0
        } else {
            n as u64
        }
    }

    /// Whole seconds from this moment to a later one, zero where it is earlier.
    pub fn seconds_until(&self, end: &Stamp) -> (r: u64)
        ensures
            r == elapsed(*self, *end) / 1_000_000_000,
    {
        proof {
            use_type_invariant(self);
            use_type_invariant(end);
        }
        let n = whole_seconds(self.secs, self.nanos, end.secs, end.nanos);
        if n < 0 {
            0
        } else {
            n as u64
        }
    }

    /// Whole milliseconds from this moment to a later one, zero where it is
    /// earlier.
    pub fn millis_until(&self, end: &Stamp) -> (r: u64)
        ensures
            r == elapsed(*self, *end) / 1_000_000,
    {
        proof {
            use_type_invariant(self);
            use_type_invariant(end);
        }
        let n = whole_milliseconds(self.secs, self.nanos, end.secs, end.nanos);
        if n < 0 {
            0
        } else {
            n as u64
        }
    }
}

/// Nanoseconds from one moment to a later one, zero where it is earlier.
pub open spec fn elapsed(from: Stamp, to: Stamp) -> int {
    if to.instant() < from.instant() {
        0
    } else {
        to.instant() - from.instant()
    }
}

/// The day on which a moment falls in local time, counted from 1970.
pub open spec fn local_day(secs: i64, offset: i32) -> int {
    (secs + offset) / 86_400
}

/// The second of that day.
pub open spec fn second_of_day(secs: i64, offset: i32) -> nat {
    ((secs + offset) % 86_400) as nat
}

/// A day, counted from 1970, as the calendar writes it: year, month and day with
/// dashes between them.
pub uninterp spec fn calendar_date(day: int) -> Seq<char>;

/// The hour of a moment in local time, in two digits.
pub open spec fn hour_text(secs: i64, offset: i32) -> Seq<char> {
    two_digits(second_of_day(secs, offset) / 3600)
}

/// The minute of a moment in local time, in two digits.
pub open spec fn minutes_text(secs: i64, offset: i32) -> Seq<char> {
    two_digits(second_of_day(secs, offset) / 60 % 60)
}

/// The second of a moment in local time, in two digits.
pub open spec fn seconds_text(secs: i64, offset: i32) -> Seq<char> {
    two_digits(second_of_day(secs, offset) % 60)
}

/// The date and time to the minute, as in the name of a file.
pub open spec fn file_date(s: Stamp) -> Seq<char> {
    calendar_date(local_day(s.secs(), s.offset())) + "_"@ + hour_text(s.secs(), s.offset()) + "-"@
        + minutes_text(s.secs(), s.offset())
}

/// The date and time to the minute.
pub open spec fn minute_date(s: Stamp) -> Seq<char> {
    calendar_date(local_day(s.secs(), s.offset())) + " "@ + hour_text(s.secs(), s.offset()) + ":"@
        + minutes_text(s.secs(), s.offset())
}

/// The date and time to the second.
pub open spec fn second_date(s: Stamp) -> Seq<char> {
    minute_date(s) + ":"@ + seconds_text(s.secs(), s.offset())
}

/// How far local time is ahead of UTC: a sign, and hours and minutes.
pub open spec fn offset_text(offset: i32) -> Seq<char> {
    let ahead = (if offset < 0 {
        -offset
    } else {
        offset as int
    }) as nat;
    (if offset < 0 {
        "-"@
    } else {
        "+"@
    }) + two_digits(ahead / 3600) + ":"@ + two_digits(ahead / 60 % 60)
}

/// The date and time to the millisecond, with how far local time was ahead of UTC.
pub open spec fn iso_date(s: Stamp) -> Seq<char> {
    let millis = s.nanos() as nat / 1_000_000;
    calendar_date(local_day(s.secs(), s.offset())) + "T"@ + hour_text(s.secs(), s.offset()) + ":"@
        + minutes_text(s.secs(), s.offset()) + ":"@ + seconds_text(s.secs(), s.offset()) + "."@
        + decimal(millis / 100) + two_digits(millis % 100) + offset_text(s.offset())
}

/// `chrono::DateTime::format` writes a moment, seen from an offset, under one of
/// the patterns used here: the date, and then the hour, the minute and the second
/// in two digits each with what the pattern puts between them. Of the date nothing
/// is claimed but that it depends on the local day alone.
#[verifier::external_body]
fn format_local(secs: i64, nanos: u32, offset: i32, pattern: &str) -> (r: String)
    requires
        on_calendar(secs as int, nanos as int),
        is_offset(offset as int),
        pattern@ == "%Y-%m-%d_%H-%M"@ || pattern@ == "%Y-%m-%d %H:%M"@ || pattern@
            == "%Y-%m-%d %H:%M:%S"@ || pattern@ == "%Y-%m-%dT%H:%M:%S"@,
    ensures
        pattern@ == "%Y-%m-%d_%H-%M"@ ==> r@ == calendar_date(local_day(secs, offset)) + "_"@
            + hour_text(secs, offset) + "-"@ + minutes_text(secs, offset),
        pattern@ == "%Y-%m-%d %H:%M"@ ==> r@ == calendar_date(local_day(secs, offset)) + " "@
            + hour_text(secs, offset) + ":"@ + minutes_text(secs, offset),
        pattern@ == "%Y-%m-%d %H:%M:%S"@ ==> r@ == calendar_date(local_day(secs, offset)) + " "@
            + hour_text(secs, offset) + ":"@ + minutes_text(secs, offset) + ":"@ + seconds_text(
            secs,
            offset,
        ),
        pattern@ == "%Y-%m-%dT%H:%M:%S"@ ==> r@ == calendar_date(local_day(secs, offset)) + "T"@
            + hour_text(secs, offset) + ":"@ + minutes_text(secs, offset) + ":"@ + seconds_text(
            secs,
            offset,
        ),
{
    let zone = FixedOffset::east_opt(offset).unwrap();
    DateTime::from_timestamp(secs, nanos).unwrap().with_timezone(&zone).format(pattern).to_string()
}

/// `n / d` without its fraction.
pub open spec fn toward_zero(n: int, d: int) -> int {
    if n >= 0 {
        n / d
    } else {
        -((-n) / d)
    }
}

/// Nanoseconds from one moment to another.
pub open spec fn nanos_between(
    from_secs: i64,
    from_nanos: u32,
    to_secs: i64,
    to_nanos: u32,
) -> int {
    (to_secs - from_secs) * 1_000_000_000 + (to_nanos - from_nanos)
}

/// `chrono::DateTime::signed_duration_since` and `TimeDelta::num_minutes` count
/// the whole minutes from one moment to another, which are negative where the
/// second is earlier.
#[verifier::external_body]
fn whole_minutes(from_secs: i64, from_nanos: u32, to_secs: i64, to_nanos: u32) -> (r: i64)
    requires
        on_calendar(from_secs as int, from_nanos as int),
        on_calendar(to_secs as int, to_nanos as int),
    ensures
        r == toward_zero(
            nanos_between(from_secs, from_nanos, to_secs, to_nanos),
            60_000_000_000,
        ),
{
    let from = DateTime::from_timestamp(from_secs, from_nanos).unwrap();
    let to = DateTime::from_timestamp(to_secs, to_nanos).unwrap();
    to.signed_duration_since(from).num_minutes()
}

/// `chrono::DateTime::signed_duration_since` and `TimeDelta::num_seconds` count
/// the whole seconds from one moment to another.
#[verifier::external_body]
fn whole_seconds(from_secs: i64, from_nanos: u32, to_secs: i64, to_nanos: u32) -> (r: i64)
    requires
        on_calendar(from_secs as int, from_nanos as int),
        on_calendar(to_secs as int, to_nanos as int),
    ensures
        r == toward_zero(
            nanos_between(from_secs, from_nanos, to_secs, to_nanos),
            1_000_000_000,
        ),
{
    let from = DateTime::from_timestamp(from_secs, from_nanos).unwrap();
    let to = DateTime::from_timestamp(to_secs, to_nanos).unwrap();
    to.signed_duration_since(from).num_seconds()
}

/// `chrono::DateTime::signed_duration_since` and `TimeDelta::num_milliseconds`
/// count the whole milliseconds from one moment to another.
#[verifier::external_body]
fn whole_milliseconds(from_secs: i64, from_nanos: u32, to_secs: i64, to_nanos: u32) -> (r: i64)
    requires
        on_calendar(from_secs as int, from_nanos as int),
        on_calendar(to_secs as int, to_nanos as int),
    ensures
        r == toward_zero(nanos_between(from_secs, from_nanos, to_secs, to_nanos), 1_000_000),
{
    let from = DateTime::from_timestamp(from_secs, from_nanos).unwrap();
    let to = DateTime::from_timestamp(to_secs, to_nanos).unwrap();
    to.signed_duration_since(from).num_milliseconds()
}

// ---------------------------------------------------------------------------
// Laws
// ---------------------------------------------------------------------------


/// Local time is the time that the offset makes of it: the day and the second of the day
/// count the seconds since 1970 in local time.
pub proof fn law_local_time_counts_the_seconds(secs: i64, offset: i32)
    ensures
        local_day(secs, offset) * 86_400 + second_of_day(secs, offset) == secs + offset,
        second_of_day(secs, offset) < 86_400,
{
}

/// The hour, the minute and the second read back as the second of the day, in two digits
/// each.
pub proof fn law_times_read_back(secs: i64, offset: i32)
    ensures
        ({
            let h = hour_text(secs, offset);
            let m = minutes_text(secs, offset);
            let s = seconds_text(secs, offset);
            &&& h.len() == 2 && m.len() == 2 && s.len() == 2
            &&& all_digits(h) && all_digits(m) && all_digits(s)
            &&& number_in(h) < 24 && number_in(m) < 60 && number_in(s) < 60
            &&& number_in(h) * 3600 + number_in(m) * 60 + number_in(s) == second_of_day(
                secs,
                offset,
            )
        }),
{
    let n = second_of_day(secs, offset);
    law_two_digits_read_back(n / 3600);
    law_two_digits_read_back(n / 60 % 60);
    law_two_digits_read_back(n % 60);
}

/// A moment is written with the local day in front, and then the hour, the minute and the
/// second, as far as it goes.
pub proof fn law_moments_are_written_in_order(s: Stamp)
    ensures
        ({
            let day = calendar_date(local_day(s.secs(), s.offset()));
            let h = hour_text(s.secs(), s.offset());
            let m = minutes_text(s.secs(), s.offset());
            let t = seconds_text(s.secs(), s.offset());
            &&& file_date(s) == day + seq!['_'] + h + seq!['-'] + m
            &&& minute_date(s) == day + seq![' '] + h + seq![':'] + m
            &&& second_date(s) == day + seq![' '] + h + seq![':'] + m + seq![':'] + t
        }),
{
    reveal_strlit("_");
    reveal_strlit("-");
    reveal_strlit(" ");
    reveal_strlit(":");
    assert("_"@ =~= seq!['_']);
    assert("-"@ =~= seq!['-']);
    assert(" "@ =~= seq![' ']);
    assert(":"@ =~= seq![':']);
}

/// How far local time is ahead reads back: the sign tells the direction, and the hours and
/// minutes tell how far, cut to whole minutes.
pub proof fn law_offsets_read_back(offset: i32)
    requires
        is_offset(offset as int),
    ensures
        exists|hours: Seq<char>, minutes: Seq<char>|
            {
                let total = number_in(hours) * 3600 + number_in(minutes) * 60;
                let ahead = if offset < 0 {
                    -offset
                } else {
                    offset as int
                };
                &&& offset_text(offset) == seq![
                    if offset < 0 {
                        '-'
                    } else {
                        '+'
                    },
                ] + hours + seq![':'] + minutes
                &&& #[trigger] all_digits(hours) && #[trigger] all_digits(minutes)
                &&& hours.len() == 2 && minutes.len() == 2 && number_in(minutes) < 60
                &&& total <= ahead < total + 60
            },
{
    let ahead = (if offset < 0 {
        -offset
    } else {
        offset as int
    }) as nat;
    let h = two_digits(ahead / 3600);
    let m = two_digits(ahead / 60 % 60);
    law_two_digits_read_back(ahead / 3600);
    law_two_digits_read_back(ahead / 60 % 60);
    reveal_strlit("-");
    reveal_strlit("+");
    reveal_strlit(":");
    assert("-"@ =~= seq!['-']);
    assert("+"@ =~= seq!['+']);
    assert(":"@ =~= seq![':']);
    let sign = seq![
        if offset < 0 {
            '-'
        } else {
            '+'
        },
    ];
    assert(offset_text(offset) == sign + h + seq![':'] + m);
}

/// A moment to the millisecond goes on where one to the second ends: a dot, three digits
/// that read back as the milliseconds, and how far local time is ahead.
pub proof fn law_milliseconds_read_back(s: Stamp)
    requires
        s.nanos() < 1_000_000_000,
    ensures
        exists|millis: Seq<char>|
            {
                &&& millis.len() == 3
                &&& #[trigger] all_digits(millis)
                &&& number_in(millis) * 1_000_000 <= s.nanos() < (number_in(millis) + 1) * 1_000_000
                &&& iso_date(s) == calendar_date(local_day(s.secs(), s.offset())) + seq!['T']
                    + hour_text(s.secs(), s.offset()) + seq![':'] + minutes_text(
                    s.secs(),
                    s.offset(),
                ) + seq![':'] + seconds_text(s.secs(), s.offset()) + seq!['.'] + millis
                    + offset_text(s.offset())
            },
{
    let n = s.nanos() as nat / 1_000_000;
    let a = decimal(n / 100);
    let b = two_digits(n % 100);
    let millis = a + b;
    law_numbers_read_back(n / 100);
    law_two_digits_read_back(n % 100);
    assert(a.len() == 1);
    assert(number_in(millis) == n) by {
        assert(millis.drop_last() =~= a.push(b[0]));
        assert(a.push(b[0]).drop_last() =~= a);
        assert(b.drop_last() =~= seq![b[0]]);
        assert(seq![b[0]].drop_last() =~= Seq::<char>::empty());
        reveal_with_fuel(number_in, 3);
    }
    assert forall|i: int| 0 <= i < millis.len() implies '0' <= #[trigger] millis[i] && millis[i]
        <= '9' by {
        if i < a.len() {
            assert(millis[i] == a[i]);
        } else {
            assert(millis[i] == b[i - a.len()]);
        }
    }
    reveal_strlit("T");
    reveal_strlit(":");
    reveal_strlit(".");
    assert("T"@ =~= seq!['T']);
    assert(":"@ =~= seq![':']);
    assert("."@ =~= seq!['.']);
    let head = calendar_date(local_day(s.secs(), s.offset())) + seq!['T'] + hour_text(
        s.secs(),
        s.offset(),
    ) + seq![':'] + minutes_text(s.secs(), s.offset()) + seq![':'] + seconds_text(
        s.secs(),
        s.offset(),
    ) + seq!['.'];
    assert(head + a + b =~= head + millis);
    assert(iso_date(s) == head + a + b + offset_text(s.offset()));
    assert(millis.len() == 3 && all_digits(millis));
    assert(number_in(millis) * 1_000_000 <= s.nanos() < (number_in(millis) + 1) * 1_000_000);
    assert(iso_date(s) == head + millis + offset_text(s.offset()));
}

/// Time passes: what passed between moments in order adds up, and nothing passed where
/// the second is not later.
pub proof fn law_elapsed_times_add_up(a: Stamp, b: Stamp, c: Stamp)
    ensures
        elapsed(a, b) >= 0,
        elapsed(a, b) > 0 <==> a.instant() < b.instant(),
        a.instant() <= b.instant() <= c.instant() ==> elapsed(a, c) == elapsed(a, b) + elapsed(
            b,
            c,
        ),
        a.instant() <= b.instant() ==> a.instant() + elapsed(a, b) == b.instant(),
{
}

/// How many days the calendar counts from the start of 1970 to the start of a year.
pub open spec fn days_before_year(year: int) -> int {
    let y = year - 1;
    365 * y + y / 4 - y / 100 + y / 400 - 719_162
}

/// The calendar goes from the start of the year -262143 to the end of the year 262142, and
/// local time is less than a day from UTC.
pub proof fn law_the_calendar_holds_whole_years(secs: int, nanos: int, offset: int)
    ensures
        on_calendar(secs, nanos) <==> days_before_year(-262_143) * 86_400 <= secs
            < days_before_year(262_143) * 86_400 && 0 <= nanos < 1_000_000_000,
        is_offset(offset) <==> -86_400 < offset && offset < 86_400,
        days_before_year(1970) == 0,
{
}

} // verus!

//! Timestamps in Bangkok time.
use crate::text::digit;
use vstd::prelude::*;

verus! {

/// Bangkok's distance from UTC, in seconds.
pub const BANGKOK_OFFSET_SECS: i64 = 25_200;

/// The RFC 3339 text, in Bangkok time, of the instant `secs` seconds and `nanos` nanoseconds after
/// the start of 1970 in UTC, if the calendar reaches it.
pub uninterp spec fn bangkok_rfc3339(secs: i64, nanos: u32) -> Option<Seq<char>>;

/// The instant lies between the start of 1970 in UTC and the end of 9999 in Bangkok, and is no
/// leap second.
pub open spec fn is_ordinary(secs: i64, nanos: u32) -> bool {
    0 <= secs < 253_402_300_800 - BANGKOK_OFFSET_SECS && nanos < 1_000_000_000
}

/// Two digits.
pub open spec fn pair(n: int) -> Seq<char> {
    seq![digit((n / 10) as nat), digit((n % 10) as nat)]
}

/// The time of day in Bangkok, as hours, minutes and seconds.
pub open spec fn time_of_day(secs: i64) -> Seq<char> {
    let t = (secs + BANGKOK_OFFSET_SECS) % 86_400;
    pair(t / 3600) + seq![':'] + pair((t / 60) % 60) + seq![':'] + pair(t % 60)
}

/// The last `count` decimal digits of `n`.
pub open spec fn last_digits(n: nat, count: nat) -> Seq<char>
    decreases count,
{
    if count == 0 {
        Seq::empty()
    } else {
        last_digits(n / 10, (count - 1) as nat).push(digit(n % 10))
    }
}

/// A fraction of a second, in as few groups of three digits as show it in full.
pub open spec fn fraction(nanos: u32) -> Seq<char> {
    if nanos == 0 {
        Seq::empty()
    } else if nanos % 1_000_000 == 0 {
        seq!['.'] + last_digits((nanos / 1_000_000) as nat, 3)
    } else if nanos % 1_000 == 0 {
        seq!['.'] + last_digits((nanos / 1_000) as nat, 6)
    } else {
        seq!['.'] + last_digits(nanos as nat, 9)
    }
}

pub open spec fn is_leap_year(year: int) -> bool {
    year % 4 == 0 && (year % 100 != 0 || year % 400 == 0)
}

pub open spec fn days_in_month(year: int, month: int) -> int {
    if month == 2 {
        if is_leap_year(year) {
            29
        } else {
            28
        }
    } else if month == 4 || month == 6 || month == 9 || month == 11 {
        30
    } else {
        31
    }
}

/// How many days of its year come before a month.
pub open spec fn days_before_month(year: int, month: int) -> int
    decreases month,
{
    if month <= 1 {
        0
    } else {
        days_before_month(year, month - 1) + days_in_month(year, month - 1)
    }
}

/// How many days lie between the start of 1970 and that of a year: 365 for each, and one for each
/// leap year.
pub open spec fn days_before_year(year: int) -> int {
    365 * (year - 1970) + ((year - 1) / 4 - (year - 1) / 100 + (year - 1) / 400) - (1969int / 4
        - 1969int / 100 + 1969int / 400)
}

/// The date is a day of the Gregorian calendar, the given number of days after 1 January 1970.
pub open spec fn is_date(year: int, month: int, day: int, number: int) -> bool {
    &&& 1 <= month <= 12
    &&& 1 <= day <= days_in_month(year, month)
    &&& days_before_year(year) + days_before_month(year, month) + day - 1 == number
}

/// A date, with the year in four digits.
pub open spec fn date(year: int, month: int, day: int) -> Seq<char> {
    pair(year / 100) + pair(year % 100) + seq!['-'] + pair(month) + seq!['-'] + pair(day)
}

/// `text` is the RFC 3339 text of an instant in Bangkok time.
pub open spec fn is_bangkok_text(text: Seq<char>, secs: i64, nanos: u32) -> bool {
    exists|year: int, month: int, day: int|
        #![trigger date(year, month, day)]
        is_date(year, month, day, (secs + BANGKOK_OFFSET_SECS) / 86_400) && text == date(
            year,
            month,
            day,
        ) + seq!['T'] + time_of_day(secs) + fraction(nanos) + "+07:00"@
}

/// Calls `chrono::DateTime::from_timestamp`, then `chrono::DateTime::with_timezone` with
/// `chrono_tz::Asia::Bangkok` and `chrono::DateTime::to_rfc3339`.
///
/// The contract names the text, and claims that every ordinary instant has one and that it is the
/// one which `is_bangkok_text` describes. Of other instants it claims only that the text, or its
/// absence, depends on nothing but the instant.
#[verifier::external_body]
fn format_bangkok(secs: i64, nanos: u32) -> (r: Option<String>)
    ensures
        match r {
            Some(text) => bangkok_rfc3339(secs, nanos) == Some(text@),
            None => bangkok_rfc3339(secs, nanos) is None,
        },
        is_ordinary(secs, nanos) ==> r is Some && is_bangkok_text(r->0@, secs, nanos),
{
    let instant = chrono::DateTime::from_timestamp(secs, nanos)?;
    Some(instant.with_timezone(&chrono_tz::Asia::Bangkok).to_rfc3339())
}

/// The timestamp of a snapshot fetched at the given instant; nothing where the calendar does not
/// reach it.
pub fn captured_at(secs: i64, nanos: u32) -> (r: Option<String>)
    ensures
        match r {
            Some(text) => bangkok_rfc3339(secs, nanos) == Some(text@),
            None => bangkok_rfc3339(secs, nanos) is None,
        },
        is_ordinary(secs, nanos) ==> r is Some && is_bangkok_text(r->0@, secs, nanos),
{
    format_bangkok(secs, nanos)
}

proof fn lemma_time_part(day: Seq<char>, time: Seq<char>, part: Seq<char>, zone: Seq<char>)
    requires
        day.len() == 10,
        time.len() == 8,
    ensures
        (day + seq!['T'] + time + part + zone).subrange(10, 19) == seq!['T'] + time,
{
    let start = day + seq!['T'] + time;
    assert(start + part + zone =~= start + (part + zone));
    assert((start + (part + zone)).subrange(10, 19) =~= start.subrange(10, 19));
    assert(start.subrange(10, 19) =~= seq!['T'] + time);
}

/// A run at 11:00 or 13:00 UTC, on whichever day, is stamped 18:00 or 20:00.
pub proof fn law_runs_are_stamped_in_the_evening(secs: i64, nanos: u32, text: Seq<char>)
    requires
        is_ordinary(secs, nanos),
        is_bangkok_text(text, secs, nanos),
    ensures
        secs % 86_400 == 11 * 3600 ==> text.subrange(10, 19) == "T18:00:00"@,
        secs % 86_400 == 13 * 3600 ==> text.subrange(10, 19) == "T20:00:00"@,
{
    reveal_strlit("T18:00:00");
    reveal_strlit("T20:00:00");
    let (year, month, day) = choose|year: int, month: int, day: int|
        #![trigger date(year, month, day)]
        is_date(year, month, day, (secs + BANGKOK_OFFSET_SECS) / 86_400) && text == date(
            year,
            month,
            day,
        ) + seq!['T'] + time_of_day(secs) + fraction(nanos) + "+07:00"@;
    lemma_time_part(date(year, month, day), time_of_day(secs), fraction(nanos), "+07:00"@);
    let t = (secs + BANGKOK_OFFSET_SECS) % 86_400;
    assert(secs % 86_400 == 11 * 3600 ==> t == 18 * 3600);
    assert(secs % 86_400 == 13 * 3600 ==> t == 20 * 3600);
    if t == 18 * 3600 {
        assert(seq!['T'] + time_of_day(secs) =~= "T18:00:00"@);
    }
    if t == 20 * 3600 {
        assert(seq!['T'] + time_of_day(secs) =~= "T20:00:00"@);
    }
}

/// A year has as many days as its months.
proof fn lemma_year_length(year: int)
    ensures
        days_before_year(year + 1) == days_before_year(year) + days_before_month(year, 13),
        days_before_month(year, 13) == if is_leap_year(year) {
            366int
        } else {
            365
        },
{
    reveal_with_fuel(days_before_month, 14);
}

/// Months do not overlap.
proof fn lemma_months_apart(year: int, early: int, late: int)
    requires
        1 <= early < late <= 13,
    ensures
        days_before_month(year, early) + days_in_month(year, early) <= days_before_month(
            year,
            late,
        ),
    decreases late,
{
    if early + 1 < late {
        lemma_months_apart(year, early, late - 1);
    }
}

/// Years do not overlap.
proof fn lemma_years_apart(early: int, late: int)
    requires
        early < late,
    ensures
        days_before_year(early + 1) <= days_before_year(late),
    decreases late - early,
{
    if early + 1 < late {
        lemma_years_apart(early, late - 1);
        lemma_year_length(late - 1);
    }
}

/// A date lies within its year.
proof fn lemma_date_in_year(year: int, month: int, day: int, number: int)
    requires
        is_date(year, month, day, number),
    ensures
        days_before_year(year) <= number < days_before_year(year + 1),
{
    lemma_year_length(year);
    lemma_months_apart(year, month, 13);
    if month > 1 {
        lemma_months_apart(year, 1, month);
    }
}

/// A day has no more than one date.
proof fn lemma_one_date(a: (int, int, int), b: (int, int, int), number: int)
    requires
        is_date(a.0, a.1, a.2, number),
        is_date(b.0, b.1, b.2, number),
    ensures
        a == b,
{
    lemma_date_in_year(a.0, a.1, a.2, number);
    lemma_date_in_year(b.0, b.1, b.2, number);
    if a.0 < b.0 {
        lemma_years_apart(a.0, b.0);
    } else if b.0 < a.0 {
        lemma_years_apart(b.0, a.0);
    } else if a.1 < b.1 {
        lemma_months_apart(a.0, a.1, b.1);
    } else if b.1 < a.1 {
        lemma_months_apart(a.0, b.1, a.1);
    }
}

/// Every day from the start of 1970 on has a date.
pub proof fn law_every_day_has_a_date(number: int) -> (r: (int, int, int))
    requires
        number >= 0,
    ensures
        is_date(r.0, r.1, r.2, number),
    decreases number,
{
    if number == 0 {
        (1970, 1, 1)
    } else {
        let (year, month, day) = law_every_day_has_a_date(number - 1);
        if day < days_in_month(year, month) {
            (year, month, day + 1)
        } else if month < 12 {
            (year, month + 1, 1)
        } else {
            lemma_year_length(year);
            (year + 1, 1, 1)
        }
    }
}

/// An instant has no more than one timestamp.
pub proof fn law_one_timestamp(a: Seq<char>, b: Seq<char>, secs: i64, nanos: u32)
    requires
        is_bangkok_text(a, secs, nanos),
        is_bangkok_text(b, secs, nanos),
    ensures
        a == b,
{
    let number = (secs + BANGKOK_OFFSET_SECS) / 86_400;
    let end = time_of_day(secs);
    let (y, m, d) = choose|year: int, month: int, day: int|
        #![trigger date(year, month, day)]
        is_date(year, month, day, number) && a == date(year, month, day) + seq!['T'] + end
            + fraction(nanos) + "+07:00"@;
    let (v, w, x) = choose|year: int, month: int, day: int|
        #![trigger date(year, month, day)]
        is_date(year, month, day, number) && b == date(year, month, day) + seq!['T'] + end
            + fraction(nanos) + "+07:00"@;
    lemma_one_date((y, m, d), (v, w, x), number);
}

} // verus!

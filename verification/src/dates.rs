use vstd::prelude::*;
use crate::text::{decimal, push_char, push_decimal};

verus! {

broadcast use vstd::string::group_string_axioms;

/// The earliest Unix timestamp a date can have: -9999-01-01 00:00:00 UTC.
pub open spec fn min_timestamp() -> int {
    -377705116800
}

/// The latest Unix timestamp a date can have: 9999-12-31 23:59:59 UTC.
pub open spec fn max_timestamp() -> int {
    253402300799
}

/// Whether `ts` is the timestamp of a representable date.
pub open spec fn timestamp_in_range(ts: i64) -> bool {
    min_timestamp() <= ts <= max_timestamp()
}

/// The (year, month, day) of the UTC calendar date of the Unix timestamp
/// `ts`, as `time::UtcDateTime::from_unix_timestamp` computes it.
pub uninterp spec fn utc_calendar_date(ts: i64) -> (i32, u8, u8);

/// The hour of the day of the timestamp `ts`.
pub open spec fn hour_of(ts: i64) -> int {
    (ts as int % 86400) / 3600
}

/// The minute within the hour of the timestamp `ts`.
pub open spec fn minute_of(ts: i64) -> int {
    ((ts as int % 86400) % 3600) / 60
}

/// Trusted: calls `time::UtcDateTime::from_unix_timestamp` and reads the
/// year, month (as 1 to 12), day, hour and minute of the result. Built
/// without its `large-dates` feature, the crate accepts exactly the timestamps
/// from -9999-01-01 to 9999-12-31 UTC; the hour and minute come from the
/// seconds within the day (taken with Euclidean remainder). The year lies in
/// -9999..=9999, the month in 1..=12 and the day in 1..=31. How the calendar
/// date is computed is not stated: it is named `utc_calendar_date`.
#[verifier::external_body]
fn utc_fields(ts: i64) -> (r: Option<(i32, u8, u8, u8, u8)>)
    ensures
        r is Some <==> timestamp_in_range(ts),
        r matches Some(f) ==> {
            &&& (f.0, f.1, f.2) == utc_calendar_date(ts)
            &&& f.3 == hour_of(ts)
            &&& f.4 == minute_of(ts)
            &&& -9999 <= f.0 <= 9999
            &&& 1 <= f.1 <= 12
            &&& 1 <= f.2 <= 31
        },
{
    match time::UtcDateTime::from_unix_timestamp(ts) {
        Ok(t) => Some((t.year(), t.month().into(), t.day(), t.hour(), t.minute())),
        Err(_) => None,
    }
}

/// The Unix timestamp, in whole seconds, of a time given in nanoseconds
/// since the epoch, or `None` where that time lies after 9999-12-31 UTC.
pub fn timestamp_from_nanos(nanos: u128) -> (r: Option<i64>)
    ensures
        match r {
            Some(ts) => ts == nanos / 1_000_000_000 && timestamp_in_range(ts),
            None => nanos / 1_000_000_000 > max_timestamp(),
        },
{
    let secs = nanos / 1_000_000_000;
    if secs <= 253402300799 {
        Some(secs as i64)
    } else {
        None
    }
}

/// `n` zeros.
pub open spec fn zeros(n: int) -> Seq<char> {
    Seq::new(if n > 0 { n as nat } else { 0 }, |i: int| '0')
}

/// The decimal text of `n`, padded with zeros on the left to `width`.
pub open spec fn zero_padded(n: nat, width: int) -> Seq<char> {
    zeros(width - decimal(n).len()) + decimal(n)
}

/// A year as `{:04}` writes it: four digits at least, the sign counting
/// toward the width.
pub open spec fn year_text(year: int) -> Seq<char> {
    if year >= 0 {
        zero_padded(year as nat, 4)
    } else {
        seq!['-'] + zero_padded((-year) as nat, 3)
    }
}

/// The text `YYYY-MM-DD hh:mm` of the given date and time.
pub open spec fn date_time_text(year: int, month: nat, day: nat, hour: nat, minute: nat) -> Seq<char> {
    year_text(year) + seq!['-'] + zero_padded(month, 2) + seq!['-'] + zero_padded(day, 2)
        + seq![' '] + zero_padded(hour, 2) + seq![':'] + zero_padded(minute, 2)
}

/// Appends the decimal text of `n`, padded with zeros to `width`.
fn push_zero_padded(s: &mut String, n: u128, width: usize)
    ensures
        final(s)@ == old(s)@ + zero_padded(n as nat, width as int),
{
    let mut digits = String::new();
    push_decimal(&mut digits, n);
    let l = digits.as_str().unicode_len();
    let mut k: usize = l;
    let ghost start = s@;
    while k < width
        invariant
            l <= k <= width || (k == l && l >= width),
            l == decimal(n as nat).len(),
            s@ == start + zeros(k - l),
        decreases width - k,
    {
        push_char(s, '0');
        k = k + 1;
        assert(s@ =~= start + zeros(k - l));
    }
    assert(zeros(k - l) =~= zeros(width - decimal(n as nat).len()));
    s.append(digits.as_str());
    assert(s@ =~= old(s)@ + zero_padded(n as nat, width as int));
}

/// Formats a date and time as `YYYY-MM-DD hh:mm`.
pub fn format_date_time(year: i32, month: u8, day: u8, hour: u8, minute: u8) -> (r: String)
    ensures
        r@ == date_time_text(year as int, month as nat, day as nat, hour as nat, minute as nat),
{
    let mut s = String::new();
    if year >= 0 {
        push_zero_padded(&mut s, year as u128, 4);
    } else {
        push_char(&mut s, '-');
        let mag: u128 = (-(year as i64)) as u128;
        push_zero_padded(&mut s, mag, 3);
    }
    push_char(&mut s, '-');
    push_zero_padded(&mut s, month as u128, 2);
    push_char(&mut s, '-');
    push_zero_padded(&mut s, day as u128, 2);
    push_char(&mut s, ' ');
    push_zero_padded(&mut s, hour as u128, 2);
    push_char(&mut s, ':');
    push_zero_padded(&mut s, minute as u128, 2);
    assert(s@ =~= date_time_text(year as int, month as nat, day as nat, hour as nat, minute as nat));
    s
}

/// Decimal lengths of numbers below 10000.
proof fn lemma_decimal_len(n: nat)
    ensures
        n < 10 ==> decimal(n).len() == 1,
        10 <= n < 100 ==> decimal(n).len() == 2,
        100 <= n < 1000 ==> decimal(n).len() == 3,
        1000 <= n < 10000 ==> decimal(n).len() == 4,
    decreases n,
{
    if n >= 10 {
        lemma_decimal_len(n / 10);
    }
}

/// A number fitting in `width` digits pads to exactly `width` characters.
proof fn lemma_zero_padded_len(n: nat, width: int)
    requires
        decimal(n).len() <= width,
    ensures
        zero_padded(n, width).len() == width,
{
}

/// The date text is 16 characters long, or 17 for years before -999.
pub proof fn lemma_date_text_len(year: int, month: nat, day: nat, hour: nat, minute: nat)
    requires
        -9999 <= year <= 9999,
        month < 100,
        day < 100,
        hour < 100,
        minute < 100,
    ensures
        -1000 < year ==> date_time_text(year, month, day, hour, minute).len() == 16,
        year <= -1000 ==> date_time_text(year, month, day, hour, minute).len() == 17,
{
    lemma_decimal_len(month);
    lemma_decimal_len(day);
    lemma_decimal_len(hour);
    lemma_decimal_len(minute);
    lemma_zero_padded_len(month, 2);
    lemma_zero_padded_len(day, 2);
    lemma_zero_padded_len(hour, 2);
    lemma_zero_padded_len(minute, 2);
    if year >= 0 {
        lemma_decimal_len(year as nat);
        lemma_zero_padded_len(year as nat, 4);
    } else {
        lemma_decimal_len((-year) as nat);
        if year > -1000 {
            lemma_zero_padded_len((-year) as nat, 3);
        } else {
            assert(zero_padded((-year) as nat, 3).len() == 4);
        }
    }
}

/// The text `YYYY-MM-DD hh:mm` of the UTC time of the timestamp `ts`.
pub open spec fn timestamp_text(ts: i64) -> Seq<char> {
    let (y, mo, d) = utc_calendar_date(ts);
    date_time_text(y as int, mo as nat, d as nat, hour_of(ts) as nat, minute_of(ts) as nat)
}

/// Formats the UTC time of a Unix timestamp as `YYYY-MM-DD hh:mm`.
pub fn format_date(ts: i64) -> (r: String)
    requires
        timestamp_in_range(ts),
    ensures
        r@ == timestamp_text(ts),
        -1000 < utc_calendar_date(ts).0 ==> r@.len() == 16,
        utc_calendar_date(ts).0 <= -1000 ==> r@.len() == 17,
{
    match utc_fields(ts) {
        Some((year, month, day, hour, minute)) => {
            proof {
                lemma_date_text_len(year as int, month as nat, day as nat, hour_of(ts) as nat, minute_of(ts) as nat);
            }
            format_date_time(year, month, day, hour, minute)
        },
        None => {
            assert(false);
            String::new()
        },
    }
}

} // verus!

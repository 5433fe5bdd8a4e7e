//! The date and time shown in the top bar and given as a quick answer.
use crate::text::{push_char, push_decimal, same, to_ascii_lowercase, trim};
#[allow(unused_imports)]
use crate::text::{ascii_lowered, decimal, digit, trimmed};
use vstd::prelude::*;
use vstd::string::*;

verus! {

/// A local time, in the parts that are shown.
#[derive(Debug, Clone, Copy, PartialEq, Eq, Structural)]
pub struct LocalTime {
    /// 0 is Sunday.
    pub day_of_week: u16,
    /// 1 is January.
    pub month: u16,
    pub day: u16,
    /// 0 to 23.
    pub hour: u16,
    pub minute: u16,
}

/// A number with at least two digits.
pub open spec fn two_digits(n: nat) -> Seq<char> {
    if n < 10 {
        seq!['0'] + decimal(n)
    } else {
        decimal(n)
    }
}

/// The hour on a twelve-hour clock.
pub open spec fn hour12(hour: nat) -> nat {
    if hour % 12 == 0 {
        12
    } else {
        hour % 12
    }
}

/// The time on a twelve-hour clock, e.g. "3:04 PM".
pub open spec fn clock_text(t: LocalTime) -> Seq<char> {
    decimal(hour12(t.hour as nat)) + seq![':'] + two_digits(t.minute as nat) + seq![' '] + if t.hour
        >= 12 {
        "PM"@
    } else {
        "AM"@
    }
}

pub open spec fn weekday_text(d: u16) -> Seq<char> {
    if d == 0 {
        "Sun"@
    } else if d == 1 {
        "Mon"@
    } else if d == 2 {
        "Tue"@
    } else if d == 3 {
        "Wed"@
    } else if d == 4 {
        "Thu"@
    } else if d == 5 {
        "Fri"@
    } else if d == 6 {
        "Sat"@
    } else {
        ""@
    }
}

/// The name of a month; month 0 counts as the first.
pub open spec fn month_text(m: u16) -> Seq<char> {
    if m <= 1 {
        "Jan"@
    } else if m == 2 {
        "Feb"@
    } else if m == 3 {
        "Mar"@
    } else if m == 4 {
        "Apr"@
    } else if m == 5 {
        "May"@
    } else if m == 6 {
        "Jun"@
    } else if m == 7 {
        "Jul"@
    } else if m == 8 {
        "Aug"@
    } else if m == 9 {
        "Sep"@
    } else if m == 10 {
        "Oct"@
    } else if m == 11 {
        "Nov"@
    } else if m == 12 {
        "Dec"@
    } else {
        ""@
    }
}

/// The date, e.g. "Sat 27 Jun".
pub open spec fn date_text(t: LocalTime) -> Seq<char> {
    weekday_text(t.day_of_week) + seq![' '] + decimal(t.day as nat) + seq![' '] + month_text(t.month)
}

/// The input asks for the time.
pub open spec fn asks_for_time(s: Seq<char>) -> bool {
    let q = ascii_lowered(trimmed(s));
    q == "time"@ || q == "now"@ || q == "current time"@
}

/// What the time answer is for an input, at time `t`.
pub open spec fn time_answer(s: Seq<char>, t: LocalTime) -> Option<Seq<char>> {
    if asks_for_time(s) {
        Some(clock_text(t))
    } else {
        None
    }
}

fn weekday(d: u16) -> (r: &'static str)
    ensures
        r@ == weekday_text(d),
{
    match d {
        0 => "Sun",
        1 => "Mon",
        2 => "Tue",
        3 => "Wed",
        4 => "Thu",
        5 => "Fri",
        6 => "Sat",
        _ => "",
    }
}

fn month(m: u16) -> (r: &'static str)
    ensures
        r@ == month_text(m),
{
    match m {
        0 => "Jan",
        1 => "Jan",
        2 => "Feb",
        3 => "Mar",
        4 => "Apr",
        5 => "May",
        6 => "Jun",
        7 => "Jul",
        8 => "Aug",
        9 => "Sep",
        10 => "Oct",
        11 => "Nov",
        12 => "Dec",
        _ => "",
    }
}

/// The answer to a time query at time `now`, or `None` if `input` is none: trimmed and
/// without regard to case, a time query is "time", "now" or "current time".
pub fn eval(input: &str, now: LocalTime) -> (r: Option<String>)
    ensures
        r is Some <==> asks_for_time(input@),
        r matches Some(s) ==> s@ == clock_text(now),
{
    let q = to_ascii_lowercase(trim(input).as_str());
    if same(q.as_str(), "time") || same(q.as_str(), "now") || same(q.as_str(), "current time") {
        Some(bar_time(now))
    } else {
        None
    }
}

/// Short date for the top bar, e.g. "Sat 27 Jun".
pub fn bar_date(t: LocalTime) -> (r: String)
    ensures
        r@ == date_text(t),
{
    let mut s: String = weekday(t.day_of_week).to_owned();
    push_char(&mut s, ' ');
    push_decimal(&mut s, t.day as u64);
    push_char(&mut s, ' ');
    s.append(month(t.month));
    assert(s@ =~= date_text(t));
    s
}

/// Clock for the top bar, e.g. "3:04 PM".
pub fn bar_time(t: LocalTime) -> (r: String)
    ensures
        r@ == clock_text(t),
{
    let mut s: String = String::new();
    let h: u16 = t.hour % 12;
    push_decimal(
        &mut s,
        if h == 0 {
            12
        } else {
            h as u64
        },
    );
    push_char(&mut s, ':');
    if t.minute < 10 {
        push_char(&mut s, '0');
    }
    push_decimal(&mut s, t.minute as u64);
    push_char(&mut s, ' ');
    s.append(
        if t.hour >= 12 {
            "PM"
        } else {
            "AM"
        },
    );
    assert(s@ =~= clock_text(t));
    s
}

/// The clock shows an hour from 1 to 12 that differs from the hour of the day by a multiple of
/// 12, then two digits of the minute, then "AM" before noon and "PM" from noon on.
pub proof fn clock_has_twelve_hours(t: LocalTime) -> (h: nat)
    ensures
        1 <= h <= 12,
        (t.hour - h) % 12 == 0,
        t.minute < 60 ==> clock_text(t) == decimal(h) + seq![
            ':',
            digit(t.minute as int / 10),
            digit(t.minute as int % 10),
            ' ',
            if t.hour < 12 {
                'A'
            } else {
                'P'
            },
            'M',
        ],
{
    let h = hour12(t.hour as nat);
    reveal_strlit("AM");
    reveal_strlit("PM");
    let n = t.minute as nat;
    if n < 10 {
        assert(decimal(n) =~= seq![digit(n as int)]);
    } else if n < 60 {
        assert(decimal(n / 10) =~= seq![digit(n as int / 10)]);
        assert(decimal(n) =~= decimal(n / 10).push(digit(n as int % 10)));
    }
    if n < 60 {
        assert(two_digits(n) =~= seq![digit(n as int / 10), digit(n as int % 10)]);
        assert(clock_text(t) =~= decimal(h) + seq![
            ':',
            digit(n as int / 10),
            digit(n as int % 10),
            ' ',
            if t.hour < 12 {
                'A'
            } else {
                'P'
            },
            'M',
        ]);
    }
    h
}

/// The names of the days, from Sunday, and of the months, from January; others have none.
pub proof fn days_and_months(d: u16, m: u16)
    ensures
        d < 7 ==> weekday_text(d) == seq![
            "Sun"@,
            "Mon"@,
            "Tue"@,
            "Wed"@,
            "Thu"@,
            "Fri"@,
            "Sat"@,
        ][d as int],
        d >= 7 ==> weekday_text(d) == ""@,
        1 <= m <= 12 ==> month_text(m) == seq![
            "Jan"@,
            "Feb"@,
            "Mar"@,
            "Apr"@,
            "May"@,
            "Jun"@,
            "Jul"@,
            "Aug"@,
            "Sep"@,
            "Oct"@,
            "Nov"@,
            "Dec"@,
        ][m - 1],
        m > 12 ==> month_text(m) == ""@,
{
}

/// The date is the day's name, its number and the month's name, a space between each.
pub proof fn date_has_three_parts(t: LocalTime)
    ensures
        date_text(t) == weekday_text(t.day_of_week) + seq![' '] + decimal(t.day as nat) + seq![' ']
            + month_text(t.month),
{
}
} // verus!

//! Days of the Gregorian calendar: going back from one, and writing one so that
//! the order of the texts is that of the days.

use crate::extract;
use crate::text;
use chrono::Datelike;
use vstd::prelude::*;
use vstd::string::*;

verus! {

/// A day by its year, its month and its day of the month.
pub struct Day {
    pub year: int,
    pub month: int,
    pub day: int,
}

/// The year has a 29th of February.
pub open spec fn is_leap(year: int) -> bool {
    year % 4 == 0 && (year % 100 != 0 || year % 400 == 0)
}

/// How many days a month has.
pub open spec fn days_in(year: int, month: int) -> int {
    if month == 2 {
        if is_leap(year) {
            29
        } else {
            28
        }
    } else if month == 4 || month == 6 || month == 9 || month == 11 {
        30
    } else {
        31
    }
}

/// The calendar has the day.
pub open spec fn is_day(d: Day) -> bool {
    1 <= d.month <= 12 && 1 <= d.day <= days_in(d.year, d.month)
}

/// The day before.
pub open spec fn previous_day(d: Day) -> Day {
    if d.day > 1 {
        Day { day: d.day - 1, ..d }
    } else if d.month > 1 {
        Day { year: d.year, month: d.month - 1, day: days_in(d.year, d.month - 1) }
    } else {
        Day { year: d.year - 1, month: 12, day: 31 }
    }
}

/// The day after.
pub open spec fn next_day(d: Day) -> Day {
    if d.day < days_in(d.year, d.month) {
        Day { day: d.day + 1, ..d }
    } else if d.month < 12 {
        Day { year: d.year, month: d.month + 1, day: 1 }
    } else {
        Day { year: d.year + 1, month: 1, day: 1 }
    }
}

/// The day `days` days before; with a negative number, as many days after.
pub open spec fn days_before(d: Day, days: int) -> Day
    decreases (if days < 0 { -days } else { days }),
{
    if days > 0 {
        previous_day(days_before(d, days - 1))
    } else if days < 0 {
        next_day(days_before(d, days + 1))
    } else {
        d
    }
}

/// The years that `chrono` has dates of.
pub open spec fn is_known_year(year: int) -> bool {
    -262143 <= year <= 262142
}

/// The day `days` days before `d`; nothing where the calendar has no day `d` or
/// either year is not known.
pub open spec fn day_reached(d: Day, days: int) -> Option<Day> {
    if is_day(d) && is_known_year(d.year) && is_known_year(days_before(d, days).year) {
        Some(days_before(d, days))
    } else {
        None
    }
}

/// The day that three numbers name.
pub open spec fn day_of(ymd: (i32, u32, u32)) -> Day {
    Day { year: ymd.0 as int, month: ymd.1 as int, day: ymd.2 as int }
}

/// Calls `NaiveDate::checked_sub_signed` of `chrono` on the date that
/// `NaiveDate::from_ymd_opt` makes of the numbers, and reads year, month and day of
/// the result. The date is made only where the calendar has the day and `chrono`
/// the year; the subtraction counts days of the calendar and fails only where it
/// leaves the years that `chrono` has. `TimeDelta::days` accepts every number of
/// days that fits in 33 bits.
#[verifier::external_body]
pub(crate) fn subtract_days(year: i32, month: u32, day: u32, days: i64) -> (r: Option<
    (i32, u32, u32),
>)
    requires
        -1 <= days <= u32::MAX,
    ensures
        match r {
            Some(ymd) => day_reached(day_of((year, month, day)), days as int) == Some(day_of(ymd)),
            None => day_reached(day_of((year, month, day)), days as int) is None,
        },
{
    chrono::NaiveDate::from_ymd_opt(year, month, day)
        .and_then(|d| d.checked_sub_signed(chrono::TimeDelta::days(days)))
        .map(|d| (d.year(), d.month(), d.day()))
}

// ── writing ─────────────────────────────────────────────────────────────────
/// The decimal digit for `n`.
pub open spec fn digit(n: int) -> char {
    if n == 0 {
        '0'
    } else if n == 1 {
        '1'
    } else if n == 2 {
        '2'
    } else if n == 3 {
        '3'
    } else if n == 4 {
        '4'
    } else if n == 5 {
        '5'
    } else if n == 6 {
        '6'
    } else if n == 7 {
        '7'
    } else if n == 8 {
        '8'
    } else {
        '9'
    }
}

/// The last two decimal digits of `n`.
pub open spec fn two_digits(n: int) -> Seq<char> {
    seq![digit(n / 10 % 10), digit(n % 10)]
}

/// `n` in decimal digits, four at least.
pub open spec fn four_digits(n: int) -> Seq<char>
    decreases n,
{
    if n < 10000 {
        two_digits(n / 100) + two_digits(n)
    } else {
        four_digits(n / 10).push(digit(n % 10))
    }
}

/// A year: four digits, and a sign and as many digits as it takes where four do not
/// do.
pub open spec fn year_text(year: int) -> Seq<char> {
    if year < 0 {
        seq!['-'] + four_digits(-year)
    } else if year > 9999 {
        seq!['+'] + four_digits(year)
    } else {
        four_digits(year)
    }
}

/// A day as in `2026-06-16`.
pub open spec fn date_text_of(d: Day) -> Seq<char> {
    year_text(d.year) + seq!['-'] + two_digits(d.month) + seq!['-'] + two_digits(d.day)
}

fn push_digit(out: &mut String, n: u32)
    requires
        n < 10,
    ensures
        final(out)@ == old(out)@.push(digit(n as int)),
{
    out.push(
        match n {
            0 => '0',
            1 => '1',
            2 => '2',
            3 => '3',
            4 => '4',
            5 => '5',
            6 => '6',
            7 => '7',
            8 => '8',
            _ => '9',
        },
    );
}

fn push_two_digits(out: &mut String, n: u32)
    ensures
        final(out)@ == old(out)@ + two_digits(n as int),
{
    let ghost before = out@;
    push_digit(out, n / 10 % 10);
    push_digit(out, n % 10);
    assert(out@ =~= before + two_digits(n as int));
}

fn push_four_digits(out: &mut String, n: u32)
    ensures
        final(out)@ == old(out)@ + four_digits(n as int),
    decreases n,
{
    let ghost before = out@;
    if n < 10000 {
        push_two_digits(out, n / 100);
        push_two_digits(out, n);
        assert(out@ =~= before + four_digits(n as int));
    } else {
        push_four_digits(out, n / 10);
        push_digit(out, n % 10);
        assert(out@ =~= before + four_digits(n as int));
    }
}

/// Writes a day as in `2026-06-16`.
pub fn date_text(year: i32, month: u32, day: u32) -> (r: String)
    ensures
        r@ == date_text_of(day_of((year, month, day))),
{
    let mut out: String = String::new();
    if year < 0 {
        out.push('-');
        let above: u32 = (-(year as i64)) as u32;
        push_four_digits(&mut out, above);
    } else {
        if year > 9999 {
            out.push('+');
        }
        push_four_digits(&mut out, year as u32);
    }
    assert(out@ =~= year_text(year as int));
    out.push('-');
    push_two_digits(&mut out, month);
    out.push('-');
    push_two_digits(&mut out, day);
    assert(out@ =~= date_text_of(day_of((year, month, day))));
    out
}

// ── laws ────────────────────────────────────────────────────────────────────
/// The day `a` lies before the day `b`.
pub open spec fn lies_before(a: Day, b: Day) -> bool {
    ||| a.year < b.year
    ||| a.year == b.year && a.month < b.month
    ||| a.year == b.year && a.month == b.month && a.day < b.day
}

/// The day before and the day after undo each other.
pub proof fn law_next_day_undoes_previous(d: Day)
    requires
        is_day(d),
    ensures
        next_day(previous_day(d)) == d,
        previous_day(next_day(d)) == d,
{
}

/// Going back yields days of the calendar, each earlier than where one came from,
/// and crosses at most one new year a day.
pub proof fn law_days_before_lie_before(d: Day, days: int)
    requires
        is_day(d),
        0 <= days,
    ensures
        is_day(days_before(d, days)),
        days > 0 ==> lies_before(days_before(d, days), d),
        d.year - days <= days_before(d, days).year <= d.year,
    decreases days,
{
    if days > 0 {
        law_days_before_lie_before(d, days - 1);
    }
}

/// Days of the years 0 to 9999 are written in ten characters, as the portal writes
/// the dates of its notices.
pub proof fn law_date_text_reads_like_a_date(d: Day)
    requires
        0 <= d.year <= 9999,
    ensures
        extract::is_date_like(date_text_of(d)),
{
    let s = date_text_of(d);
    assert(four_digits(d.year) =~= two_digits(d.year / 100) + two_digits(d.year));
    assert forall|i: int| 0 <= i < s.len() && i != 4 && i != 7 implies extract::is_digit(
        #[trigger] s[i],
    ) by {}
}

proof fn lemma_first_difference(a: Seq<char>, b: Seq<char>, k: int)
    requires
        0 <= k < a.len(),
        k < b.len(),
        forall|i: int| 0 <= i < k ==> a[i] == b[i],
        a[k] < b[k],
    ensures
        text::precedes(a, b),
    decreases k,
{
    if k > 0 {
        assert(a[0] == b[0]);
        let x = a.drop_first();
        let y = b.drop_first();
        assert forall|i: int| 0 <= i < k - 1 implies x[i] == y[i] by {
            assert(a[i + 1] == b[i + 1]);
        }
        lemma_first_difference(x, y, k - 1);
    }
}

proof fn lemma_digits_keep_the_order(m: int, n: int)
    requires
        0 <= m < n <= 9,
    ensures
        digit(m) < digit(n),
{
}

proof fn lemma_year_digits(year: int)
    requires
        0 <= year <= 9999,
    ensures
        year == 1000 * (year / 1000) + 100 * (year / 100 % 10) + 10 * (year / 10 % 10) + year % 10,
        0 <= year / 1000 <= 9,
        0 <= year / 100 % 10 <= 9,
        0 <= year / 10 % 10 <= 9,
        0 <= year % 10 <= 9,
{
    assert(year / 10 / 10 == year / 100);
    assert(year / 100 / 10 == year / 1000);
}

proof fn lemma_years_keep_the_order(a: Day, b: Day)
    requires
        is_day(a),
        is_day(b),
        0 <= a.year < b.year <= 9999,
    ensures
        text::precedes(date_text_of(a), date_text_of(b)),
{
    let s = date_text_of(a);
    let t = date_text_of(b);
    lemma_places(a);
    lemma_places(b);
    lemma_year_digits(a.year);
    lemma_year_digits(b.year);
    let (a0, a1, a2, a3) = (a.year / 1000, a.year / 100 % 10, a.year / 10 % 10, a.year % 10);
    let (b0, b1, b2, b3) = (b.year / 1000, b.year / 100 % 10, b.year / 10 % 10, b.year % 10);
    if a0 < b0 {
        lemma_digits_keep_the_order(a0, b0);
        lemma_first_difference(s, t, 0);
    } else if a1 < b1 {
        lemma_digits_keep_the_order(a1, b1);
        lemma_first_difference(s, t, 1);
    } else if a2 < b2 {
        lemma_digits_keep_the_order(a2, b2);
        lemma_first_difference(s, t, 2);
    } else {
        lemma_digits_keep_the_order(a3, b3);
        lemma_first_difference(s, t, 3);
    }
}

proof fn lemma_months_keep_the_order(a: Day, b: Day)
    requires
        is_day(a),
        is_day(b),
        0 <= a.year <= 9999,
        a.year == b.year,
        a.month < b.month,
    ensures
        text::precedes(date_text_of(a), date_text_of(b)),
{
    let s = date_text_of(a);
    let t = date_text_of(b);
    lemma_places(a);
    lemma_places(b);
    if a.month / 10 < b.month / 10 {
        lemma_digits_keep_the_order(a.month / 10, b.month / 10);
        lemma_first_difference(s, t, 5);
    } else {
        lemma_digits_keep_the_order(a.month % 10, b.month % 10);
        lemma_first_difference(s, t, 6);
    }
}

/// The order of the texts is that of the days, for days of the years 0 to 9999.
pub proof fn law_date_texts_keep_the_order(a: Day, b: Day)
    requires
        is_day(a),
        is_day(b),
        0 <= a.year <= 9999,
        0 <= b.year <= 9999,
        lies_before(a, b),
    ensures
        text::precedes(date_text_of(a), date_text_of(b)),
{
    if a.year < b.year {
        lemma_years_keep_the_order(a, b);
    } else if a.month < b.month {
        lemma_months_keep_the_order(a, b);
    } else {
        let s = date_text_of(a);
        let t = date_text_of(b);
        lemma_places(a);
        lemma_places(b);
        if a.day / 10 < b.day / 10 {
            lemma_digits_keep_the_order(a.day / 10, b.day / 10);
            lemma_first_difference(s, t, 8);
        } else {
            lemma_digits_keep_the_order(a.day % 10, b.day % 10);
            lemma_first_difference(s, t, 9);
        }
    }
}

proof fn lemma_places(d: Day)
    requires
        is_day(d),
        0 <= d.year <= 9999,
    ensures
        date_text_of(d) == seq![
            digit(d.year / 1000),
            digit(d.year / 100 % 10),
            digit(d.year / 10 % 10),
            digit(d.year % 10),
            '-',
            digit(d.month / 10),
            digit(d.month % 10),
            '-',
            digit(d.day / 10),
            digit(d.day % 10),
        ],
{
    assert(d.year / 100 / 10 % 10 == d.year / 1000);
    assert(d.month / 10 % 10 == d.month / 10);
    assert(d.day / 10 % 10 == d.day / 10);
    assert(four_digits(d.year) =~= two_digits(d.year / 100) + two_digits(d.year));
    assert(date_text_of(d) =~= seq![
        digit(d.year / 1000),
        digit(d.year / 100 % 10),
        digit(d.year / 10 % 10),
        digit(d.year % 10),
        '-',
        digit(d.month / 10),
        digit(d.month % 10),
        '-',
        digit(d.day / 10),
        digit(d.day % 10),
    ]);
}

/// One day back is the day before, and one day on the day after; no day back is the
/// day itself.
pub proof fn law_days_before_goes_day_by_day(d: Day, days: int)
    ensures
        days_before(d, 0) == d,
        days >= 0 ==> days_before(d, days + 1) == previous_day(days_before(d, days)),
        days <= 0 ==> days_before(d, days - 1) == next_day(days_before(d, days)),
{
}

proof fn lemma_one_more_forward(d: Day, days: int)
    requires
        days >= 0,
    ensures
        days_before(next_day(d), -days) == days_before(d, -days - 1),
    decreases days,
{
    if days > 0 {
        lemma_one_more_forward(d, days - 1);
    } else {
        assert(days_before(d, 0) == d);
        assert(days_before(d, -1) == next_day(days_before(d, 0)));
    }
}

/// Going back some days and then as many days on leads to where one came from.
pub proof fn law_going_back_and_forth(d: Day, days: int)
    requires
        is_day(d),
        days >= 0,
    ensures
        days_before(days_before(d, days), -days) == d,
    decreases days,
{
    if days > 0 {
        let before = days_before(d, days - 1);
        law_going_back_and_forth(d, days - 1);
        law_days_before_lie_before(d, days - 1);
        law_next_day_undoes_previous(before);
        lemma_one_more_forward(previous_day(before), days - 1);
    }
}

/// A year has twelve months, and 365 days, or 366 where it is a multiple of four
/// that is no multiple of a hundred, or is one of four hundred. The day after is a
/// day of the calendar, and no day lies between the two.
pub proof fn law_next_day_is_next(d: Day, other: Day)
    requires
        is_day(d),
        is_day(other),
    ensures
        is_day(next_day(d)),
        lies_before(d, next_day(d)),
        lies_before(d, other) ==> other == next_day(d) || lies_before(next_day(d), other),
        days_in(d.year, 1) + days_in(d.year, 2) + days_in(d.year, 3) + days_in(d.year, 4) + days_in(
            d.year,
            5,
        ) + days_in(d.year, 6) + days_in(d.year, 7) + days_in(d.year, 8) + days_in(d.year, 9)
            + days_in(d.year, 10) + days_in(d.year, 11) + days_in(d.year, 12) == (if d.year % 400
            == 0 || (d.year % 4 == 0 && d.year % 100 != 0) {
            366int
        } else {
            365
        }),
{
}

/// The number that a decimal digit stands for.
pub open spec fn digit_value(c: char) -> int {
    c as int - '0' as int
}

/// A day of the years 0 to 9999 is written with its year, its month and its day of
/// the month in decimal digits, and reads back.
pub proof fn law_date_text_reads_back(d: Day)
    requires
        is_day(d),
        0 <= d.year <= 9999,
    ensures
        date_text_of(d).len() == 10,
        date_text_of(d)[4] == '-',
        date_text_of(d)[7] == '-',
        1000 * digit_value(date_text_of(d)[0]) + 100 * digit_value(date_text_of(d)[1]) + 10
            * digit_value(date_text_of(d)[2]) + digit_value(date_text_of(d)[3]) == d.year,
        10 * digit_value(date_text_of(d)[5]) + digit_value(date_text_of(d)[6]) == d.month,
        10 * digit_value(date_text_of(d)[8]) + digit_value(date_text_of(d)[9]) == d.day,
        forall|i: int|
            0 <= i < 10 && i != 4 && i != 7 ==> '0' <= #[trigger] date_text_of(d)[i] <= '9',
{
    let s = date_text_of(d);
    let y = d.year;
    assert(four_digits(y) =~= two_digits(y / 100) + two_digits(y));
    lemma_digit_value(y / 100 / 10 % 10);
    lemma_digit_value(y / 100 % 10);
    lemma_digit_value(y / 10 % 10);
    lemma_digit_value(y % 10);
    lemma_digit_value(d.month / 10 % 10);
    lemma_digit_value(d.month % 10);
    lemma_digit_value(d.day / 10 % 10);
    lemma_digit_value(d.day % 10);
    assert(s[0] == digit(y / 100 / 10 % 10));
    assert(s[1] == digit(y / 100 % 10));
    assert(s[2] == digit(y / 10 % 10));
    assert(s[3] == digit(y % 10));
    assert(s[5] == digit(d.month / 10 % 10));
    assert(s[6] == digit(d.month % 10));
    assert(s[8] == digit(d.day / 10 % 10));
    assert(s[9] == digit(d.day % 10));
}

proof fn lemma_digit_value(n: int)
    requires
        0 <= n <= 9,
    ensures
        digit_value(digit(n)) == n,
        '0' <= digit(n) <= '9',
{
}

/// A year of more than four digits, or before the year 0, is written with its sign
/// in front; the rest is written as for other years.
pub proof fn law_far_years_have_a_sign(d: Day)
    ensures
        date_text_of(d).len() >= 10,
        d.year > 9999 ==> date_text_of(d)[0] == '+',
        d.year < 0 ==> date_text_of(d)[0] == '-' && date_text_of(d).skip(1) == date_text_of(
            (Day { year: -d.year, ..d }),
        ).skip(
            if -d.year > 9999 {
                1int
            } else {
                0
            },
        ),
        date_text_of(d).skip(date_text_of(d).len() - 6) == seq!['-'] + two_digits(d.month) + seq![
            '-',
        ] + two_digits(d.day),
{
    let s = date_text_of(d);
    let tail = seq!['-'] + two_digits(d.month) + seq!['-'] + two_digits(d.day);
    let y = if d.year < 0 {
        -d.year
    } else {
        d.year
    };
    lemma_four_digits_len(y);
    assert(s.skip(s.len() - 6) =~= tail);
    if d.year < 0 {
        let other = Day { year: -d.year, ..d };
        let o = date_text_of(other);
        if -d.year > 9999 {
            assert(o.skip(1) =~= four_digits(y) + tail);
        } else {
            assert(o.skip(0) =~= four_digits(y) + tail);
        }
        assert(s.skip(1) =~= four_digits(y) + tail);
    }
}

proof fn lemma_four_digits_len(n: int)
    requires
        n >= 0,
    ensures
        four_digits(n).len() >= 4,
    decreases n,
{
    if n >= 10000 {
        lemma_four_digits_len(n / 10);
    }
}

/// A year of more than four digits is written digit by digit: the last digit stands
/// last, and in front of it stand those of the tenth part.
pub proof fn law_far_years_go_digit_by_digit(d: Day)
    requires
        d.year > 9999,
    ensures
        ({
            let s = date_text_of(d);
            let tenth = date_text_of((Day { year: d.year / 10, ..d }));
            let sign = if d.year / 10 > 9999 {
                1int
            } else {
                0
            };
            &&& digit_value(s[s.len() - 7]) == d.year % 10
            &&& s.subrange(1, s.len() - 7) == tenth.subrange(sign, tenth.len() - 6)
        }),
{
    let s = date_text_of(d);
    let other = Day { year: d.year / 10, ..d };
    let tenth = date_text_of(other);
    lemma_four_digits_len(d.year);
    lemma_four_digits_len(d.year / 10);
    lemma_digit_value(d.year % 10);
    assert(s[s.len() - 7] == digit(d.year % 10));
    assert(s.subrange(1, s.len() - 7) =~= four_digits(d.year / 10));
    let sign = if d.year / 10 > 9999 {
        1int
    } else {
        0
    };
    assert(tenth.subrange(sign, tenth.len() - 6) =~= four_digits(d.year / 10));
}

/// The day that three numbers name is the one with these numbers, and it is reached
/// exactly where the calendar has it and the years lie within the known ones.
pub proof fn law_days_that_are_reached(year: i32, month: u32, day: u32, days: int)
    ensures
        ({
            let d = day_of((year, month, day));
            &&& d.year == year && d.month == month && d.day == day
            &&& day_reached(d, days) is Some <==> 1 <= month <= 12 && 1 <= day <= days_in(
                year as int,
                month as int,
            ) && -262143 <= year <= 262142 && -262143 <= days_before(d, days).year <= 262142
            &&& day_reached(d, days) is Some ==> day_reached(d, days) == Some(days_before(d, days))
        }),
{
}

} // verus!

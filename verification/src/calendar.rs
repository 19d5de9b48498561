//! Days of the Gregorian calendar, and how a time is written out.

use vstd::prelude::*;

use crate::text;

verus! {

/// Whether a year has a leap day.
pub open spec fn leap(y: int) -> bool {
    y % 4 == 0 && (y % 100 != 0 || y % 400 == 0)
}

/// The number of days of a month.
pub open spec fn month_days(y: int, m: int) -> int {
    if m == 2 {
        if leap(y) {
            29
        } else {
            28
        }
    } else if m == 4 || m == 6 || m == 9 || m == 11 {
        30
    } else {
        31
    }
}

/// Whether there is such a date.
pub open spec fn is_date(y: int, m: int, d: int) -> bool {
    1 <= m <= 12 && 1 <= d <= month_days(y, m)
}

/// The number of days from the first day of the year 1970 to the first day
/// of a year.
pub open spec fn year_start(y: int) -> int {
    365 * (y - 1970) + ((y - 1) / 4 - (y - 1) / 100 + (y - 1) / 400) - 477
}

/// The number of days of a year ahead of a month.
pub open spec fn month_start(y: int, m: int) -> int
    decreases m,
{
    if m <= 1 {
        0
    } else {
        month_start(y, m - 1) + month_days(y, m - 1)
    }
}

/// The number of days from the first day of the year 1970 to a date.
pub open spec fn day_number(y: int, m: int, d: int) -> int {
    year_start(y) + month_start(y, m) + d - 1
}

/// The year that day `n` after the first of March of a year of four hundred
/// is in, counted from that March, and the day in it.
pub open spec fn march_year(n: int) -> (int, int) {
    let century = if n / 36524 < 4 {
        n / 36524
    } else {
        3
    };
    let a = n - 36524 * century;
    let b = a % 1461;
    let year = if b / 365 < 4 {
        b / 365
    } else {
        3
    };
    (100 * century + 4 * (a / 1461) + year, b - 365 * year)
}

/// The date of the day `n` days after the first day of the year 1970: its
/// year, month and day.
pub open spec fn date_of(n: int) -> (int, int, int) {
    let z = n + 719468;
    let (year, day) = march_year(z % 146097);
    let march = (5 * day + 2) / 153;
    let d = day - (153 * march + 2) / 5 + 1;
    if march < 10 {
        (400 * (z / 146097) + year, march + 3, d)
    } else {
        (400 * (z / 146097) + year + 1, march - 9, d)
    }
}

/// The name of a month, in three letters.
pub open spec fn month_name(m: int) -> Seq<char> {
    if m == 1 {
        "Jan"@
    } else if m == 2 {
        "Feb"@
    } else if m == 3 {
        "Mar"@
    } else if m == 4 {
        "Apr"@
    } else if m == 5 {
        "May"@
    } else if m == 6 {
        "Jun"@
    } else if m == 7 {
        "Jul"@
    } else if m == 8 {
        "Aug"@
    } else if m == 9 {
        "Sep"@
    } else if m == 10 {
        "Oct"@
    } else if m == 11 {
        "Nov"@
    } else {
        "Dec"@
    }
}

/// A number below ten thousand, or any other, in at least four digits.
pub open spec fn four_digits(n: nat) -> Seq<char> {
    if n < 10 {
        "000"@ + text::decimal(n)
    } else if n < 100 {
        "00"@ + text::decimal(n)
    } else if n < 1000 {
        "0"@ + text::decimal(n)
    } else {
        text::decimal(n)
    }
}

/// A year in at least four digits, with a sign where it has more or is
/// negative.
pub open spec fn year_text(y: int) -> Seq<char> {
    if y < 0 {
        "-"@ + four_digits((-y) as nat)
    } else if y > 9999 {
        "+"@ + four_digits(y as nat)
    } else {
        four_digits(y as nat)
    }
}

/// A number below a hundred in two digits.
pub open spec fn two_digits(n: int) -> Seq<char> {
    seq![text::digit((n / 10) as nat), text::digit((n % 10) as nat)]
}

/// A time, in seconds since the beginning of 1970, as its day, month, year,
/// hour and minute.
pub open spec fn civil_text(t: int) -> Seq<char> {
    let (y, m, d) = date_of(t / 86400);
    let s = t % 86400;
    text::decimal(d as nat) + " "@ + month_name(m) + " "@ + year_text(y) + " "@ + two_digits(
        s / 3600,
    ) + ":"@ + two_digits(s % 3600 / 60)
}

proof fn lemma_march_year(n: int)
    requires
        0 <= n < 146097,
    ensures
        ({
            let (y, d) = march_year(n);
            &&& 0 <= y < 400
            &&& n == 365 * y + y / 4 - y / 100 + d
            &&& 0 <= d <= 365
            &&& d == 365 ==> leap(y + 1)
        }),
{
    let century = if n / 36524 < 4 {
        n / 36524
    } else {
        3
    };
    let a = n - 36524 * century;
    assert(0 <= a <= 36524);
    let q = a / 1461;
    let b = a % 1461;
    assert(a == 1461 * q + b);
    assert(0 <= q <= 24);
    let year = if b / 365 < 4 {
        b / 365
    } else {
        3
    };
    let d = b - 365 * year;
    assert(0 <= d <= 365);
    let y = 100 * century + 4 * q + year;
    assert(y / 100 == century);
    assert(y / 4 == 25 * century + q);
    if d == 365 {
        assert(year == 3);
        assert((y + 1) % 4 == 0);
        if century < 3 {
            assert(a < 36524);
        }
        if q == 24 {
            assert(a == 36524);
            assert(century == 3);
            assert(y + 1 == 400);
        } else {
            assert((y + 1) % 100 == 4 * q + 4);
        }
    }
}

proof fn lemma_month_starts(y: int)
    ensures
        month_start(y, 1) == 0,
        month_start(y, 2) == 31,
        month_start(y, 3) == (if leap(y) {
            60int
        } else {
            59int
        }),
        forall|m: int|
            3 <= m <= 12 ==> #[trigger] month_start(y, m) == month_start(y, 3) + (153 * (m - 3) + 2)
                / 5,
{
    reveal_with_fuel(month_start, 13);
    assert forall|m: int| 3 <= m <= 12 implies #[trigger] month_start(y, m) == month_start(y, 3) + (
    153 * (m - 3) + 2) / 5 by {
        if m == 3 {
        } else if m == 4 {
        } else if m == 5 {
        } else if m == 6 {
        } else if m == 7 {
        } else if m == 8 {
        } else if m == 9 {
        } else if m == 10 {
        } else if m == 11 {
        } else {
        }
    }
}

/// Law: the date of every day is a date, and its number is that day.
pub proof fn law_dates(n: int)
    ensures
        ({
            let (y, m, d) = date_of(n);
            is_date(y, m, d) && day_number(y, m, d) == n
        }),
{
    let z = n + 719468;
    let era = z / 146097;
    let doe = z % 146097;
    assert(z == 146097 * era + doe);
    lemma_march_year(doe);
    let (year, day) = march_year(doe);
    let march = (5 * day + 2) / 153;
    assert(0 <= march <= 11);
    let (y, m, d) = date_of(n);
    lemma_month_starts(y);
    let x = 400 * era + year;
    assert(x / 4 == 100 * era + year / 4);
    assert(x / 100 == 4 * era + year / 100);
    assert(x / 400 == era);
    if march >= 10 {
        assert(y == x + 1);
        assert(year_start(y) == 365 * (x + 1 - 1970) + (x / 4 - x / 100 + x / 400) - 477);
        assert(leap(y) == leap(year + 1)) by {
            assert((x + 1) % 4 == (year + 1) % 4);
            assert((x + 1) % 100 == (year + 1) % 100);
            assert((x + 1) % 400 == (year + 1) % 400);
        }
        if march == 10 {
        } else {
        }
    } else {
        assert(y == x);
        assert(year_start(y + 1) == year_start(y) + 365 + (if leap(y) {
            1int
        } else {
            0int
        }));
        assert(month_start(y, 3) == 59 + (if leap(y) {
            1int
        } else {
            0int
        }));
        assert(m == march + 3);
        assert(month_start(y, m) == month_start(y, 3) + (153 * march + 2) / 5);
    }
}

/// Law: a time is shown by its own date, hour and minute.
pub proof fn law_a_time_shows_its_date_and_hour(n: int, h: int, mi: int, s: int)
    requires
        0 <= h < 24,
        0 <= mi < 60,
        0 <= s < 60,
    ensures
        ({
            let (y, m, d) = date_of(n);
            let shown = civil_text(86400 * n + 3600 * h + 60 * mi + s);
            &&& shown == text::decimal(d as nat) + " "@ + month_name(m) + " "@ + year_text(y) + " "@
                + two_digits(h) + ":"@ + two_digits(mi)
            &&& text::number_of(two_digits(h)) == h
            &&& text::number_of(two_digits(mi)) == mi
        }),
{
    let t = 86400 * n + 3600 * h + 60 * mi + s;
    assert(t / 86400 == n);
    assert(t % 86400 == 3600 * h + 60 * mi + s);
    lemma_two_digits(h);
    lemma_two_digits(mi);
}

proof fn lemma_two_digits(n: int)
    requires
        0 <= n < 100,
    ensures
        text::number_of(two_digits(n)) == n,
{
    let s = two_digits(n);
    assert(s.drop_last() =~= seq![text::digit((n / 10) as nat)]);
    assert(s.drop_last().drop_last() =~= Seq::empty());
    assert(text::number_of(s.drop_last().drop_last()) == 0);
    assert(text::number_of(s.drop_last()) == n / 10);
}

/// Law: the days of a year follow each other, and those of the next year
/// follow them: a date is one day after the date before it.
pub proof fn law_days_follow_each_other(y: int, m: int, d: int)
    requires
        is_date(y, m, d),
    ensures
        d > 1 ==> day_number(y, m, d) == day_number(y, m, d - 1) + 1,
        d == 1 && m > 1 ==> day_number(y, m, d) == day_number(y, m - 1, month_days(y, m - 1)) + 1,
        d == 1 && m == 1 ==> day_number(y, m, d) == day_number(y - 1, 12, 31) + 1,
        day_number(1970, 1, 1) == 0,
{
    reveal_with_fuel(month_start, 13);
}

/// Law: a year is shown in at least four digits that stand for it; a minus
/// sign leads where it is ahead of the year zero, a plus sign where it has
/// more than four.
pub proof fn law_a_year_is_shown(y: int)
    ensures
        0 <= y ==> text::number_of(four_digits(y as nat)) == y,
        0 <= y ==> four_digits(y as nat).len() >= 4,
        0 <= y <= 9999 ==> year_text(y) == four_digits(y as nat),
        y > 9999 ==> year_text(y) == seq!['+'] + text::decimal(y as nat),
        y < 0 ==> year_text(y) == seq!['-'] + four_digits((-y) as nat),
{
    reveal_strlit("000");
    reveal_strlit("00");
    reveal_strlit("0");
    reveal_strlit("+");
    reveal_strlit("-");
    assert("+"@ =~= seq!['+']);
    assert("-"@ =~= seq!['-']);
    if 0 <= y {
        let n = y as nat;
        text::law_numerals_stand_for_numbers(n);
        lemma_leading_zeros("000"@, text::decimal(n));
        lemma_leading_zeros("00"@, text::decimal(n));
        lemma_leading_zeros("0"@, text::decimal(n));
        lemma_decimal_length(n);
    }
}

proof fn lemma_leading_zeros(zeros: Seq<char>, s: Seq<char>)
    requires
        forall|i: int| 0 <= i < zeros.len() ==> #[trigger] zeros[i] == '0',
    ensures
        text::number_of(zeros + s) == text::number_of(s),
    decreases s.len(), zeros.len(),
{
    if s.len() > 0 {
        assert((zeros + s).drop_last() =~= zeros + s.drop_last());
        lemma_leading_zeros(zeros, s.drop_last());
    } else if zeros.len() > 0 {
        assert(zeros + s =~= zeros);
        lemma_leading_zeros(zeros.drop_last(), s);
        assert(zeros.drop_last() + s =~= zeros.drop_last());
    } else {
        assert(zeros + s =~= s);
    }
}

proof fn lemma_decimal_length(n: nat)
    ensures
        text::decimal(n).len() >= 1,
        n >= 10 ==> text::decimal(n).len() >= 2,
        n >= 100 ==> text::decimal(n).len() >= 3,
        n >= 1000 ==> text::decimal(n).len() >= 4,
{
    reveal_with_fuel(text::decimal, 5);
}

} // verus!

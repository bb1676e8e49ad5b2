//! Points in time as UTC calendar text.

use vstd::prelude::*;

use crate::text::{all_digits, is_digit, join_text, padded, padded_text, to_chars};

verus! {

/// A day of the Gregorian calendar.
pub struct CivilDate {
    pub year: int,
    pub month: int,
    pub day: int,
}

/// Whether a year has 366 days.
pub open spec fn is_leap(year: int) -> bool {
    year % 4 == 0 && (year % 100 != 0 || year % 400 == 0)
}

/// How many days a month has.
pub open spec fn days_in_month(year: int, month: int) -> int {
    if month == 2 {
        if is_leap(year) {
            29
        } else {
            28
        }
    } else if month == 4 || month == 6 || month == 9 || month == 11 {
        30
    } else {
        31
    }
}

/// How many days of a common year pass before a month.
pub open spec fn days_before_month(month: int) -> int {
    if month == 1 {
        0
    } else if month == 2 {
        31
    } else if month == 3 {
        59
    } else if month == 4 {
        90
    } else if month == 5 {
        120
    } else if month == 6 {
        151
    } else if month == 7 {
        181
    } else if month == 8 {
        212
    } else if month == 9 {
        243
    } else if month == 10 {
        273
    } else if month == 11 {
        304
    } else {
        334
    }
}

/// How many days lie between the first day of year zero and the first day of a year.
pub open spec fn days_before_year(year: int) -> int {
    let past = year - 1;
    365 * year + past / 4 - past / 100 + past / 400 + 1
}

impl CivilDate {
    /// Whether there is such a day.
    pub open spec fn exists_in_calendar(self) -> bool {
        &&& 1 <= self.month <= 12
        &&& 1 <= self.day <= days_in_month(self.year, self.month)
    }

    /// How many days after the first of January 1970 this day is.
    pub open spec fn day_number(self) -> int {
        days_before_year(self.year) - days_before_year(1970) + days_before_month(self.month) + if
            is_leap(self.year) && self.month > 2 {
            1int
        } else {
            0int
        } + self.day - 1
    }
}

/// Days after the first of March of year zero.
pub open spec fn shifted(days: int) -> int {
    days + 719468
}

/// The day of its four-hundred-year cycle.
pub open spec fn day_of_cycle(days: int) -> int {
    shifted(days) % 146097
}

/// The year of its cycle, counted from March.
pub open spec fn year_of_cycle(day: int) -> int {
    (day - day / 1460 + day / 36524 - day / 146096) / 365
}

/// The day of its year, counted from March.
pub open spec fn day_of_year(day: int) -> int {
    let year = year_of_cycle(day);
    day - (365 * year + year / 4 - year / 100)
}

/// The month of its year, counted from March.
pub open spec fn month_of_year(day: int) -> int {
    (5 * day + 2) / 153
}

/// The calendar day that many days after the first of January 1970.
pub open spec fn civil_date(days: int) -> CivilDate {
    let cycle = shifted(days) / 146097;
    let day = day_of_cycle(days);
    let in_year = day_of_year(day);
    let march_month = month_of_year(in_year);
    let month = if march_month < 10 {
        march_month + 3
    } else {
        march_month - 9
    };
    CivilDate {
        year: year_of_cycle(day) + cycle * 400 + if month <= 2 {
            1int
        } else {
            0int
        },
        month,
        day: in_year - (153 * march_month + 2) / 5 + 1,
    }
}

/// A number in decimal, with zeros behind its sign up to the given width.
pub open spec fn signed_padded(value: int, width: nat) -> Seq<char> {
    if value >= 0 {
        padded(value as nat, width)
    } else {
        "-"@ + padded((-value) as nat, (width - 1) as nat)
    }
}

fn signed_padded_text(value: i64, width: usize) -> (text: String)
    requires
        value > i64::MIN,
        width > 0,
    ensures
        text@ == signed_padded(value as int, width as nat),
{
    if value >= 0 {
        padded_text(value as u64, width)
    } else {
        join_text("-", &padded_text((-value) as u64, width - 1))
    }
}

/// A quotient rounded towards zero.
pub open spec fn truncated(value: int, divisor: int) -> int {
    if value >= 0 {
        value / divisor
    } else {
        -((-value) / divisor)
    }
}

/// What is left of a number once the rounded quotient is taken out.
pub open spec fn leftover(value: int, divisor: int) -> int {
    value - truncated(value, divisor) * divisor
}

/// A point in time as text: year, month and day, then hours, minutes, seconds and
/// milliseconds of UTC.
pub open spec fn timestamp_text(ms: int) -> Seq<char> {
    let seconds = truncated(ms, 1000);
    let date = civil_date(truncated(seconds, 86400));
    let time = leftover(seconds, 86400);
    signed_padded(date.year, 4) + signed_padded(date.month, 2) + signed_padded(date.day, 2) + "T"@
        + signed_padded(truncated(time, 3600), 2) + signed_padded(
        leftover(truncated(time, 60), 60),
        2,
    ) + signed_padded(leftover(time, 60), 2) + signed_padded(leftover(ms, 1000), 3) + "Z"@
}

proof fn lemma_cycle(day: int)
    requires
        0 <= day < 146097,
    ensures
        0 <= year_of_cycle(day) <= 399,
        0 <= day_of_year(day) <= 365,
{
}

fn civil_fields(days: i64) -> (fields: (i64, i64, i64))
    requires
        -110000000000 <= days <= 110000000000,
    ensures
        fields.0 == civil_date(days as int).year,
        fields.1 == civil_date(days as int).month,
        fields.2 == civil_date(days as int).day,
        -1000000000 <= fields.0 <= 1000000000,
        1 <= fields.1 <= 12,
        -1000 <= fields.2 <= 1000,
{
    let z: i64 = days + 719468;
    let era: i64 = if z >= 0 {
        z / 146097
    } else {
        -((-z + 146096) / 146097)
    };
    assert(era == shifted(days as int) / 146097);
    let doe: i64 = z - era * 146097;
    assert(doe == day_of_cycle(days as int));
    proof {
        lemma_cycle(doe as int);
    }
    let yoe: i64 = (doe - doe / 1460 + doe / 36524 - doe / 146096) / 365;
    assert(yoe == year_of_cycle(doe as int));
    let doy: i64 = doe - (365 * yoe + yoe / 4 - yoe / 100);
    assert(doy == day_of_year(doe as int));
    let mp: i64 = (5 * doy + 2) / 153;
    assert(mp == month_of_year(doy as int));
    let day: i64 = doy - (153 * mp + 2) / 5 + 1;
    let month: i64 = if mp < 10 {
        mp + 3
    } else {
        mp - 9
    };
    let later: i64 = if month <= 2 {
        1
    } else {
        0
    };
    (yoe + era * 400 + later, month, day)
}

fn quotient(value: i64, divisor: i64) -> (result: i64)
    requires
        1 < divisor,
    ensures
        result == truncated(value as int, divisor as int),
        -i64::MAX <= result <= i64::MAX,
        value >= 0 ==> 0 <= result <= value,
        value < 0 ==> value <= result <= 0,
{
    assert(value >= 0 ==> 0 <= value as int / divisor as int <= value) by (nonlinear_arith)
        requires
            divisor > 1,
    ;
    assert(value < 0 ==> 0 <= (-value) / divisor as int && 2 * ((-value) / divisor as int)
        <= -value) by (nonlinear_arith)
        requires
            divisor > 1,
    ;
    value / divisor
}

fn rest(value: i64, divisor: i64) -> (result: i64)
    requires
        1 < divisor,
    ensures
        result == leftover(value as int, divisor as int),
        -divisor < result < divisor,
{
    assert(value >= 0 ==> value as int - (value as int / divisor as int) * divisor == value as int
        % divisor as int) by (nonlinear_arith)
        requires
            divisor > 1,
    ;
    assert(value < 0 ==> (-value) - ((-value) / divisor as int) * divisor == (-value)
        % divisor as int) by (nonlinear_arith)
        requires
            divisor > 1,
    ;
    assert(-((-value) / divisor as int) * divisor == -(((-value) / divisor as int) * divisor))
        by (nonlinear_arith);
    value % divisor
}

/// A point in time, in milliseconds since 1970, as UTC text.
pub fn timestamp(ms: i64) -> (text: String)
    ensures
        text@ == timestamp_text(ms as int),
{
    let seconds: i64 = quotient(ms, 1000);
    assert(-9300000000000000 <= seconds <= 9300000000000000);
    let days: i64 = quotient(seconds, 86400);
    assert(-110000000000 <= days <= 110000000000);
    let (year, month, day) = civil_fields(days);
    let time: i64 = rest(seconds, 86400);
    let hours: i64 = quotient(time, 3600);
    let minutes: i64 = rest(quotient(time, 60), 60);
    let mut text = signed_padded_text(year, 4);
    text.append(&signed_padded_text(month, 2));
    text.append(&signed_padded_text(day, 2));
    text.append("T");
    text.append(&signed_padded_text(hours, 2));
    text.append(&signed_padded_text(minutes, 2));
    text.append(&signed_padded_text(rest(time, 60), 2));
    text.append(&signed_padded_text(rest(ms, 1000), 3));
    text.append("Z");
    text
}

proof fn lemma_division_step(value: int, divisor: int)
    requires
        divisor > 0,
    ensures
        value / divisor == (value - 1) / divisor + if value % divisor == 0 {
            1int
        } else {
            0int
        },
{
    let quotient = value / divisor;
    let left = value % divisor;
    assert(value == divisor * quotient + left) by (nonlinear_arith)
        requires
            divisor > 0,
            quotient == value / divisor,
            left == value % divisor,
    ;
    assert(0 <= left < divisor) by (nonlinear_arith)
        requires
            divisor > 0,
            left == value % divisor,
    ;
    if left == 0 {
        assert(value - 1 == (quotient - 1) * divisor + (divisor - 1)) by (nonlinear_arith)
            requires
                value == divisor * quotient,
        ;
        vstd::arithmetic::div_mod::lemma_fundamental_div_mod_converse(
            value - 1,
            divisor,
            quotient - 1,
            divisor - 1,
        );
    } else {
        assert(value - 1 == quotient * divisor + (left - 1)) by (nonlinear_arith)
            requires
                value == divisor * quotient + left,
        ;
        vstd::arithmetic::div_mod::lemma_fundamental_div_mod_converse(
            value - 1,
            divisor,
            quotient,
            left - 1,
        );
    }
}

proof fn lemma_leap_step(year: int)
    ensures
        year / 4 - year / 100 + year / 400 == (year - 1) / 4 - (year - 1) / 100 + (year - 1) / 400
            + if is_leap(year) {
            1int
        } else {
            0int
        },
{
    lemma_division_step(year, 4);
    lemma_division_step(year, 100);
    lemma_division_step(year, 400);
    assert(year % 400 == 0 ==> year % 100 == 0);
    assert(year % 100 == 0 ==> year % 4 == 0);
}

proof fn lemma_last_day(day: int)
    requires
        0 <= day < 146097,
    ensures
        day_of_year(day) == 365 ==> is_leap(year_of_cycle(day) + 1),
{
    let year = year_of_cycle(day);
    let next = year + 1;
    lemma_cycle(day);
    if day_of_year(day) == 365 {
        assert(day == 365 * year + year / 4 - year / 100 + 365);
        lemma_leap_step(next);
        if next % 4 != 0 {
            assert(next / 4 == year / 4);
            assert(next / 100 == year / 100);
            assert(day == 365 * next + next / 4 - next / 100);
            lemma_year_start(next);
        } else if next % 100 == 0 && next % 400 != 0 {
            assert(next / 4 == year / 4 + 1);
            assert(next / 100 == year / 100 + 1);
            assert(day == 365 * next + next / 4 - next / 100);
            lemma_year_start(next);
        }
    }
}

proof fn lemma_year_start(year: int)
    requires
        0 <= year <= 399,
    ensures
        year_of_cycle(365 * year + year / 4 - year / 100) == year,
{
    let day = 365 * year + year / 4 - year / 100;
    let century = year / 100;
    let rest = year % 100;
    assert(year == 100 * century + rest);
    assert(year / 4 == 25 * century + rest / 4);
    assert(day == 36524 * century + 365 * rest + rest / 4);
    assert(0 <= century <= 3);
    assert(day / 36524 == century);
    assert(day / 146096 == 0);
}

proof fn lemma_add_multiple(value: int, divisor: int, times: int)
    requires
        divisor > 0,
    ensures
        (value + times * divisor) / divisor == value / divisor + times,
        (value + times * divisor) % divisor == value % divisor,
{
    let quotient = value / divisor;
    let left = value % divisor;
    assert(value + times * divisor == (quotient + times) * divisor + left) by (nonlinear_arith)
        requires
            divisor > 0,
            quotient == value / divisor,
            left == value % divisor,
    ;
    assert(0 <= left < divisor) by (nonlinear_arith)
        requires
            divisor > 0,
            left == value % divisor,
    ;
    vstd::arithmetic::div_mod::lemma_fundamental_div_mod_converse(
        value + times * divisor,
        divisor,
        quotient + times,
        left,
    );
}

proof fn lemma_cycles_repeat(short: int, cycle: int)
    requires
        0 <= short <= 399,
    ensures
        ({
            let year = short + cycle * 400;
            &&& year / 4 == short / 4 + cycle * 100
            &&& year / 100 == short / 100 + cycle * 4
            &&& year / 400 == cycle
            &&& is_leap(year + 1) == is_leap(short + 1)
        }),
{
    lemma_add_multiple(short, 4, cycle * 100);
    lemma_add_multiple(short, 100, cycle * 4);
    lemma_add_multiple(short, 400, cycle);
    lemma_add_multiple(short + 1, 4, cycle * 100);
    lemma_add_multiple(short + 1, 100, cycle * 4);
    lemma_add_multiple(short + 1, 400, cycle);
    assert(short / 400 == 0);
}

proof fn lemma_march_days(days: int)
    ensures
        ({
            let day = day_of_cycle(days);
            let year = year_of_cycle(day) + shifted(days) / 146097 * 400;
            &&& 0 <= day < 146097
            &&& days + 719468 == 365 * year + year / 4 - year / 100 + year / 400 + day_of_year(day)
            &&& 0 <= day_of_year(day) <= 365
            &&& day_of_year(day) == 365 ==> is_leap(year + 1)
        }),
{
    let cycle = shifted(days) / 146097;
    let day = day_of_cycle(days);
    assert(shifted(days) == cycle * 146097 + day);
    lemma_cycle(day);
    lemma_last_day(day);
    let short = year_of_cycle(day);
    let year = short + cycle * 400;
    lemma_cycles_repeat(short, cycle);
}

/// Where a month that is counted from March begins.
spec fn march_month_start(month: int) -> int {
    (153 * month + 2) / 5
}

proof fn lemma_months(day: int)
    requires
        0 <= day <= 365,
    ensures
        0 <= month_of_year(day) <= 11,
        march_month_start(month_of_year(day)) <= day < march_month_start(month_of_year(day) + 1),
{
}

/// The calendar is right: every day number has exactly the date whose distance from
/// the first of January 1970 it is.
pub proof fn dates_count_days(days: int)
    ensures
        civil_date(days).exists_in_calendar(),
        civil_date(days).day_number() == days,
{
    lemma_march_days(days);
    let day = day_of_cycle(days);
    let year = year_of_cycle(day) + shifted(days) / 146097 * 400;
    let in_year = day_of_year(day);
    lemma_months(in_year);
    let month = month_of_year(in_year);
    lemma_leap_step(year);
    lemma_leap_step(year + 1);
    assert(days_before_year(1970) == 719528);
    assert(days_before_year(year) == 365 * year + (year - 1) / 4 - (year - 1) / 100 + (year - 1)
        / 400 + 1);
    assert(days_before_year(year + 1) == 365 * (year + 1) + year / 4 - year / 100 + year / 400 + 1);
    let date = civil_date(days);
    let leap = if is_leap(year) {
        1int
    } else {
        0int
    };
    assert(days == days_before_year(year) - 719528 + 59 + leap + in_year);
    assert(days == days_before_year(year + 1) - 719528 - 306 + in_year);
    if month == 0 {
    } else if month == 1 {
    } else if month == 2 {
    } else if month == 3 {
    } else if month == 4 {
    } else if month == 5 {
    } else if month == 6 {
    } else if month == 7 {
    } else if month == 8 {
    } else if month == 9 {
    } else if month == 10 {
    } else {
        assert(month == 11);
    }
}

/// Whether a text has the form of a timestamp of a four-digit year.
pub open spec fn is_timestamp(text: Seq<char>) -> bool {
    &&& text.len() == 19
    &&& text[8] == 'T'
    &&& text[18] == 'Z'
    &&& forall|i: int| 0 <= i < 19 && i != 8 && i != 18 ==> is_digit(#[trigger] text[i])
}

/// Whether a text has the form of a timestamp of a four-digit year.
pub fn looks_like_timestamp(text: &str) -> (looks: bool)
    ensures
        looks == is_timestamp(text@),
{
    let chars = to_chars(text);
    if chars.len() != 19 || chars[8] != 'T' || chars[18] != 'Z' {
        return false;
    }
    let mut i: usize = 0;
    while i < 19
        invariant
            i <= 19,
            chars@.len() == 19,
            chars@ == text@,
            forall|k: int| 0 <= k < i && k != 8 && k != 18 ==> is_digit(#[trigger] chars@[k]),
        decreases 19 - i,
    {
        if i != 8 && i != 18 && (chars[i] < '0' || chars[i] > '9') {
            assert(!is_digit(text@[i as int]));
            return false;
        }
        i = i + 1;
    }
    true
}

proof fn lemma_padded_digits(value: int, width: nat, limit: int)
    requires
        0 <= value < limit,
        (width == 2 && limit == 100) || (width == 3 && limit == 1000) || (width == 4 && limit
            == 10000),
    ensures
        signed_padded(value, width).len() == width,
        all_digits(signed_padded(value, width)),
{
    let digits = crate::text::decimal(value as nat);
    crate::text::lemma_decimal_reads_back(value as nat);
    reveal_with_fuel(crate::text::decimal, 5);
    assert(digits.len() <= width);
    let text = signed_padded(value, width);
    assert forall|i: int| 0 <= i < text.len() implies is_digit(#[trigger] text[i]) by {
        let front = width - digits.len();
        if i >= front {
            assert(text[i] == digits[i - front]);
        } else {
            assert(text[i] == '0');
        }
    }
}

/// A timestamp of the years 1970 to 9999 has nineteen characters: digits, a `T`
/// between date and time, and a `Z` at the end.
pub proof fn timestamps_have_one_form(ms: int)
    requires
        0 <= ms < 253402300800000,
    ensures
        is_timestamp(timestamp_text(ms)),
{
    let seconds = truncated(ms, 1000);
    let days = truncated(seconds, 86400);
    let date = civil_date(days);
    dates_count_days(days);
    lemma_march_days(days);
    lemma_cycle(day_of_cycle(days));
    assert(0 <= shifted(days) / 146097 <= 24);
    assert(0 <= date.year <= 10000);
    assert(days_before_year(10000) == 3652425);
    assert(days_before_year(1970) == 719528);
    assert(date.year <= 9999);
    let time = leftover(seconds, 86400);
    assert(0 <= time < 86400);
    lemma_padded_digits(date.year, 4, 10000);
    lemma_padded_digits(date.month, 2, 100);
    lemma_padded_digits(date.day, 2, 100);
    lemma_padded_digits(truncated(time, 3600), 2, 100);
    lemma_padded_digits(leftover(truncated(time, 60), 60), 2, 100);
    lemma_padded_digits(leftover(time, 60), 2, 100);
    lemma_padded_digits(leftover(ms, 1000), 3, 1000);
    reveal_strlit("T");
    reveal_strlit("Z");
    let y = signed_padded(date.year, 4);
    let m = signed_padded(date.month, 2);
    let d = signed_padded(date.day, 2);
    let h = signed_padded(truncated(time, 3600), 2);
    let i = signed_padded(leftover(truncated(time, 60), 60), 2);
    let s = signed_padded(leftover(time, 60), 2);
    let l = signed_padded(leftover(ms, 1000), 3);
    let text = timestamp_text(ms);
    assert(text == y + m + d + "T"@ + h + i + s + l + "Z"@);
    assert(text.len() == 19);
    assert forall|k: int| 0 <= k < 19 && k != 8 && k != 18 implies is_digit(
        #[trigger] text[k],
    ) by {
        if k < 4 {
            assert(text[k] == y[k]);
        } else if k < 6 {
            assert(text[k] == m[k - 4]);
        } else if k < 8 {
            assert(text[k] == d[k - 6]);
        } else if k < 11 {
            assert(text[k] == h[k - 9]);
        } else if k < 13 {
            assert(text[k] == i[k - 11]);
        } else if k < 15 {
            assert(text[k] == s[k - 13]);
        } else {
            assert(text[k] == l[k - 15]);
        }
    }
}

proof fn lemma_zeros_in_front(zeros: Seq<char>, digits: Seq<char>)
    requires
        forall|i: int| 0 <= i < zeros.len() ==> #[trigger] zeros[i] == '0',
        all_digits(digits),
    ensures
        crate::text::digits_value(zeros + digits) == crate::text::digits_value(digits),
    decreases zeros.len() + digits.len(),
{
    let text = zeros + digits;
    if digits.len() > 0 {
        let front = digits.drop_last();
        assert(text.drop_last() =~= zeros + front);
        assert forall|i: int| 0 <= i < front.len() implies is_digit(#[trigger] front[i]) by {
            assert(is_digit(digits[i]));
        }
        lemma_zeros_in_front(zeros, front);
    } else if zeros.len() > 0 {
        let fewer = zeros.drop_last();
        assert(text =~= zeros);
        assert(text.drop_last() =~= fewer + digits);
        assert(fewer + digits =~= fewer);
        assert forall|i: int| 0 <= i < fewer.len() implies #[trigger] fewer[i] == '0' by {
            assert(zeros[i] == '0');
        }
        lemma_zeros_in_front(fewer, digits);
        assert(text.last() == zeros[zeros.len() - 1]);
        assert(crate::text::digits_value(Seq::<char>::empty()) == 0);
        assert(digits =~= Seq::<char>::empty());
    } else {
        assert(text =~= digits);
    }
}

proof fn lemma_padded_value(value: int, width: nat, limit: int)
    requires
        0 <= value < limit,
        (width == 2 && limit == 100) || (width == 3 && limit == 1000) || (width == 4 && limit
            == 10000),
    ensures
        signed_padded(value, width).len() == width,
        crate::text::digits_value(signed_padded(value, width)) == value,
{
    let digits = crate::text::decimal(value as nat);
    crate::text::lemma_decimal_reads_back(value as nat);
    lemma_padded_digits(value, width, limit);
    let text = signed_padded(value, width);
    let zeros = text.take(width - digits.len());
    assert(text =~= zeros + digits);
    lemma_zeros_in_front(zeros, digits);
}

/// A timestamp tells the time: read back, its date and its time of day are the milliseconds
/// that it was made of.
pub proof fn timestamps_tell_the_time(ms: int)
    requires
        0 <= ms < 253402300800000,
    ensures
        ({
            let text = timestamp_text(ms);
            let date = CivilDate {
                year: crate::text::digits_value(text.subrange(0, 4)) as int,
                month: crate::text::digits_value(text.subrange(4, 6)) as int,
                day: crate::text::digits_value(text.subrange(6, 8)) as int,
            };
            let hours = crate::text::digits_value(text.subrange(9, 11)) as int;
            let minutes = crate::text::digits_value(text.subrange(11, 13)) as int;
            let seconds = crate::text::digits_value(text.subrange(13, 15)) as int;
            let rest = crate::text::digits_value(text.subrange(15, 18)) as int;
            &&& date.exists_in_calendar()
            &&& hours < 24 && minutes < 60 && seconds < 60
            &&& ms == date.day_number() * 86400000 + hours * 3600000 + minutes * 60000 + seconds
                * 1000 + rest
        }),
{
    let seconds = truncated(ms, 1000);
    let days = truncated(seconds, 86400);
    let date = civil_date(days);
    dates_count_days(days);
    lemma_march_days(days);
    lemma_cycle(day_of_cycle(days));
    assert(0 <= shifted(days) / 146097 <= 24);
    assert(days_before_year(10000) == 3652425);
    assert(days_before_year(1970) == 719528);
    assert(0 <= date.year <= 9999);
    let time = leftover(seconds, 86400);
    assert(0 <= time < 86400);
    let hour = truncated(time, 3600);
    let minute = leftover(truncated(time, 60), 60);
    let second = leftover(time, 60);
    let rest = leftover(ms, 1000);
    lemma_padded_value(date.year, 4, 10000);
    lemma_padded_value(date.month, 2, 100);
    lemma_padded_value(date.day, 2, 100);
    lemma_padded_value(hour, 2, 100);
    lemma_padded_value(minute, 2, 100);
    lemma_padded_value(second, 2, 100);
    lemma_padded_value(rest, 3, 1000);
    reveal_strlit("T");
    reveal_strlit("Z");
    let text = timestamp_text(ms);
    assert(text.subrange(0, 4) =~= signed_padded(date.year, 4));
    assert(text.subrange(4, 6) =~= signed_padded(date.month, 2));
    assert(text.subrange(6, 8) =~= signed_padded(date.day, 2));
    assert(text.subrange(9, 11) =~= signed_padded(hour, 2));
    assert(text.subrange(11, 13) =~= signed_padded(minute, 2));
    assert(text.subrange(13, 15) =~= signed_padded(second, 2));
    assert(text.subrange(15, 18) =~= signed_padded(rest, 3));
    assert(time == hour * 3600 + minute * 60 + second);
}

} // verus!

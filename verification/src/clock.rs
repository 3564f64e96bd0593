//! Points in time, the months that hold them, and how they are written.

use crate::counts::lemma_digits;
use crate::decimal::{continued, is_digit};
use crate::text::{digits, number, number_text, zero_filled};
use vstd::prelude::*;
use vstd::string::*;

verus! {

/// A leap year of the Gregorian calendar.
pub open spec fn leap(year: int) -> bool {
    year % 4 == 0 && (year % 100 != 0 || year % 400 == 0)
}

/// Days from 1970-01-01 to the first day of a year of the Gregorian calendar,
/// which is taken to reach back before its introduction.
pub open spec fn days_before_year(year: int) -> int {
    365 * (year - 1970) + (year - 1) / 4 - (year - 1) / 100 + (year - 1) / 400 - 477
}

/// Days of a common year before its month `month`.
pub open spec fn days_before_month_in_year(month: int) -> int {
    if month <= 1 {
        0
    } else if month == 2 {
        31
    } else if month == 3 {
        59
    } else if month == 4 {
        90
    } else if month == 5 {
        120
    } else if month == 6 {
        151
    } else if month == 7 {
        181
    } else if month == 8 {
        212
    } else if month == 9 {
        243
    } else if month == 10 {
        273
    } else if month == 11 {
        304
    } else if month == 12 {
        334
    } else {
        365
    }
}

/// Days from 1970-01-01 to the first day of a month. Month 13 is the first of
/// the next year.
pub open spec fn days_before_month(year: int, month: int) -> int {
    days_before_year(year) + days_before_month_in_year(month) + if leap(year) && month > 2 {
        1int
    } else {
        0
    }
}

/// A second counted from 1970-01-01T00:00:00Z lies in a year.
pub open spec fn in_year(seconds: int, year: int) -> bool {
    days_before_year(year) * 86400 <= seconds < days_before_year(year + 1) * 86400
}

/// A second counted from 1970-01-01T00:00:00Z lies in a month of a year.
pub open spec fn in_month(seconds: int, year: int, month: int) -> bool {
    &&& 1 <= month <= 12
    &&& days_before_month(year, month) * 86400 <= seconds < days_before_month(year, month + 1)
        * 86400
}

/// The year that holds a second.
pub open spec fn year_of(seconds: int) -> int {
    choose|year: int| in_year(seconds, year)
}

/// The month that holds a second.
pub open spec fn month_of(seconds: int) -> int {
    choose|month: int| in_month(seconds, year_of(seconds), month)
}

/// The month that follows a month, with its year.
pub open spec fn following_month(year: int, month: int) -> (int, int) {
    if month == 12 {
        (year + 1, 1)
    } else {
        (year, month + 1)
    }
}

/// How a month's first instant is written.
pub open spec fn month_start_text(year: int, month: int) -> Seq<char> {
    number(year, 4) + "-"@ + number(month, 2) + "-01T00:00:00Z"@
}

/// The first instants of a month and of the one that follows it, as text.
pub open spec fn bounds_text(year: int, month: int) -> (Seq<char>, Seq<char>) {
    let next = following_month(year, month);
    (month_start_text(year, month), month_start_text(next.0, next.1))
}

/// A year as dates show it: four digits, or a sign and as many as it takes.
pub open spec fn year_text(year: int) -> Seq<char> {
    if 0 <= year <= 9999 {
        number(year, 4)
    } else if year > 9999 {
        "+"@ + digits(year as nat)
    } else {
        number(year, 5)
    }
}

/// The English name of a month.
pub open spec fn month_name(month: int) -> Seq<char> {
    if month == 1 {
        "January"@
    } else if month == 2 {
        "February"@
    } else if month == 3 {
        "March"@
    } else if month == 4 {
        "April"@
    } else if month == 5 {
        "May"@
    } else if month == 6 {
        "June"@
    } else if month == 7 {
        "July"@
    } else if month == 8 {
        "August"@
    } else if month == 9 {
        "September"@
    } else if month == 10 {
        "October"@
    } else if month == 11 {
        "November"@
    } else {
        "December"@
    }
}

/// A month and its year, as a heading shows them.
pub open spec fn title_text(seconds: int) -> Seq<char> {
    month_name(month_of(seconds)) + " "@ + year_text(year_of(seconds))
}

/// The part of a second, in as few groups of three digits as show it in full.
pub open spec fn fraction_text(nanos: int) -> Seq<char> {
    if nanos == 0 {
        Seq::empty()
    } else if nanos % 1_000_000 == 0 {
        "."@ + number(nanos / 1_000_000, 3)
    } else if nanos % 1_000 == 0 {
        "."@ + number(nanos / 1_000, 6)
    } else {
        "."@ + number(nanos, 9)
    }
}

/// A point in time in the notation of RFC 3339, with the offset of UTC.
pub open spec fn rfc3339_text(seconds: int, nanos: int) -> Seq<char> {
    let year = year_of(seconds);
    let month = month_of(seconds);
    let day = seconds / 86400 - days_before_month(year, month) + 1;
    let clock = seconds % 86400;
    year_text(year) + "-"@ + number(month, 2) + "-"@ + number(day, 2) + "T"@ + number(
        clock / 3600,
        2,
    ) + ":"@ + number(clock / 60 % 60, 2) + ":"@ + number(clock % 60, 2) + fraction_text(nanos)
        + "+00:00"@
}

/// The first second of the year -262143.
pub const FIRST_SECOND: i64 = -8_334_601_228_800;

/// The last second of the year 262142.
pub const LAST_SECOND: i64 = 8_210_266_876_799;

/// A point in time in UTC, within the years that `chrono` can hold: whole
/// seconds since 1970-01-01T00:00:00Z, and the nanoseconds since the last of them.
#[derive(Clone, Copy, Debug)]
pub struct UtcTime {
    seconds: i64,
    nanos: u32,
}

impl UtcTime {
    #[verifier::type_invariant]
    spec fn in_range(self) -> bool {
        FIRST_SECOND <= self.seconds <= LAST_SECOND && self.nanos < 1_000_000_000
    }

    pub closed spec fn seconds(self) -> int {
        self.seconds as int
    }

    pub closed spec fn nanos(self) -> int {
        self.nanos as int
    }

    /// A point in time that the system's clock can show: not before 1970, within
    /// the years that `chrono` can hold, and with less than a second beside the
    /// whole ones.
    pub open spec fn is_clock_time(self) -> bool {
        0 <= self.seconds() <= LAST_SECOND && 0 <= self.nanos() < 1_000_000_000
    }

    /// How this point in time is written.
    pub open spec fn text(self) -> Seq<char> {
        rfc3339_text(self.seconds(), self.nanos())
    }

    /// A point in time, unless it lies outside the years that can be held or
    /// its nanoseconds make up a second or more.
    pub fn new(seconds: i64, nanos: u32) -> (r: Option<UtcTime>)
        ensures
            r is Some <==> FIRST_SECOND <= seconds <= LAST_SECOND && nanos < 1_000_000_000,
            r is Some ==> r->0.seconds() == seconds && r->0.nanos() == nanos,
    {
        if FIRST_SECOND <= seconds && seconds <= LAST_SECOND && nanos < 1_000_000_000 {
            Some(UtcTime { seconds, nanos })
        } else {
            None
        }
    }
}

/// `chrono::Utc::now`: the time that the system's clock shows. Nothing is
/// claimed of it but that it is not before 1970 and lies within the years that
/// `chrono` can hold.
#[verifier::external_body]
fn utc_now() -> (r: UtcTime)
    ensures
        r.seconds() >= 0,
{
    let now = chrono::Utc::now();
    UtcTime { seconds: now.timestamp(), nanos: now.timestamp_subsec_nanos() }
}

/// The time that the system's clock shows.
pub fn current_time() -> (now: UtcTime)
    ensures
        now.is_clock_time(),
{
    let now = utc_now();
    proof {
        use_type_invariant(&now);
    }
    now
}

/// `chrono::Datelike::year`: the year of the Gregorian calendar that holds the time.
#[verifier::external_body]
fn chrono_year(seconds: i64) -> (r: i32)
    requires
        FIRST_SECOND <= seconds <= LAST_SECOND,
    ensures
        -262143 <= r <= 262142,
        in_year(seconds as int, r as int),
{
    chrono::Datelike::year(&chrono::DateTime::from_timestamp(seconds, 0).unwrap())
}

/// `chrono::Datelike::month`: the month, counted from 1, that holds the time in
/// the year that does.
#[verifier::external_body]
fn chrono_month(seconds: i64) -> (r: u32)
    requires
        FIRST_SECOND <= seconds <= LAST_SECOND,
    ensures
        1 <= r <= 12,
        forall|year: int|
            in_year(seconds as int, year) ==> #[trigger] in_month(seconds as int, year, r as int),
{
    chrono::Datelike::month(&chrono::DateTime::from_timestamp(seconds, 0).unwrap())
}

/// `chrono::DateTime::to_rfc3339`: the time in the notation of RFC 3339, with
/// the offset `+00:00` and with no, three, six or nine decimals.
#[verifier::external_body]
fn chrono_rfc3339(seconds: i64, nanos: u32) -> (r: String)
    requires
        FIRST_SECOND <= seconds <= LAST_SECOND,
        nanos < 1_000_000_000,
    ensures
        r@ == rfc3339_text(seconds as int, nanos as int),
{
    chrono::DateTime::from_timestamp(seconds, nanos).unwrap().to_rfc3339()
}

/// `chrono::DateTime::format` with `%B %Y`: the English name of the month, a
/// space, and the year.
#[verifier::external_body]
fn chrono_title(seconds: i64) -> (r: String)
    requires
        FIRST_SECOND <= seconds <= LAST_SECOND,
    ensures
        r@ == title_text(seconds as int),
{
    chrono::DateTime::from_timestamp(seconds, 0).unwrap().format("%B %Y").to_string()
}

/// `chrono::TimeZone::with_ymd_and_hms` for the first instant of a month: the
/// second at which it lies.
#[verifier::external_body]
fn chrono_month_start(year: i32, month: u32) -> (r: i64)
    requires
        -262143 <= year <= 262142,
        1 <= month <= 12,
    ensures
        r == days_before_month(year as int, month as int) * 86400,
{
    chrono::TimeZone::with_ymd_and_hms(&chrono::Utc, year, month, 1, 0, 0, 0).unwrap().timestamp()
}

#[verifier::spinoff_prover]
proof fn lemma_quotient_by_4(year: int)
    ensures
        year % 4 == 0 ==> year / 4 == (year - 1) / 4 + 1,
        year % 4 != 0 ==> year / 4 == (year - 1) / 4,
{
}

#[verifier::spinoff_prover]
proof fn lemma_quotient_by_100(year: int)
    ensures
        year % 100 == 0 ==> year / 100 == (year - 1) / 100 + 1,
        year % 100 != 0 ==> year / 100 == (year - 1) / 100,
{
}

#[verifier::spinoff_prover]
proof fn lemma_quotient_by_400(year: int)
    ensures
        year % 400 == 0 ==> year / 400 == (year - 1) / 400 + 1,
        year % 400 != 0 ==> year / 400 == (year - 1) / 400,
{
}

#[verifier::spinoff_prover]
proof fn lemma_leap_years_nest(year: int)
    ensures
        year % 400 == 0 ==> year % 100 == 0,
        year % 100 == 0 ==> year % 4 == 0,
{
}

#[verifier::spinoff_prover]
pub proof fn lemma_year_step(year: int)
    ensures
        days_before_year(year + 1) == days_before_month(year, 13),
        days_before_year(year) + 365 <= days_before_year(year + 1),
{
    lemma_quotient_by_4(year);
    lemma_quotient_by_100(year);
    lemma_quotient_by_400(year);
    lemma_leap_years_nest(year);
}

pub proof fn lemma_years_ordered(a: int, b: int)
    requires
        a <= b,
    ensures
        days_before_year(a) <= days_before_year(b),
    decreases b - a,
{
    if a < b {
        lemma_years_ordered(a, b - 1);
        lemma_year_step(b - 1);
    }
}

/// A second lies in one year only.
pub proof fn lemma_year_unique(seconds: int, a: int, b: int)
    requires
        in_year(seconds, a),
        in_year(seconds, b),
    ensures
        a == b,
{
    if a < b {
        lemma_years_ordered(a + 1, b);
    } else if b < a {
        lemma_years_ordered(b + 1, a);
    }
}

/// A second lies in one month only.
pub proof fn lemma_month_of(seconds: int, year: int, month: int)
    requires
        in_month(seconds, year, month),
    ensures
        year_of(seconds) == year,
        month_of(seconds) == month,
{
    lemma_year_step(year);
    assert(in_year(seconds, year));
    lemma_year_unique(seconds, year, year_of(seconds));
}

impl UtcTime {
    /// The year and the month that hold this point in time.
    pub fn year_and_month(&self) -> (r: (i32, u32))
        ensures
            r.0 == year_of(self.seconds()),
            r.1 == month_of(self.seconds()),
            in_month(self.seconds(), r.0 as int, r.1 as int),
            -262143 <= r.0 <= 262142,
    {
        proof {
            use_type_invariant(&*self);
        }
        let year: i32 = chrono_year(self.seconds);
        let month: u32 = chrono_month(self.seconds);
        proof {
            assert(in_month(self.seconds as int, year as int, month as int));
            lemma_month_of(self.seconds as int, year as int, month as int);
        }
        (year, month)
    }

    /// The time in the notation of RFC 3339.
    pub fn to_rfc3339(&self) -> (r: String)
        ensures
            r@ == self.text(),
    {
        proof {
            use_type_invariant(&*self);
        }
        chrono_rfc3339(self.seconds, self.nanos)
    }

    /// The name of the month and the year that hold this point in time.
    pub fn month_title(&self) -> (r: String)
        ensures
            r@ == title_text(self.seconds()),
    {
        proof {
            use_type_invariant(&*self);
        }
        chrono_title(self.seconds)
    }

    /// The second at which the month that holds this point in time began.
    pub fn month_start(&self) -> (r: i64)
        ensures
            r == days_before_month(year_of(self.seconds()), month_of(self.seconds())) * 86400,
            r <= self.seconds(),
    {
        let (year, month) = self.year_and_month();
        chrono_month_start(year, month)
    }
}

fn month_start_string(year: i32, month: u32) -> (r: String)
    ensures
        r@ == month_start_text(year as int, month as int),
{
    number_text(year as i64, 4).concat("-").concat(number_text(month as i64, 2).as_str()).concat(
        "-01T00:00:00Z",
    )
}

/// The first instants of the month that holds a point in time and of the month
/// that follows it.
pub fn month_bounds(now: &UtcTime) -> (r: (String, String))
    ensures
        (r.0@, r.1@) == bounds_text(year_of(now.seconds()), month_of(now.seconds())),
{
    let (year, month) = now.year_and_month();
    let start = month_start_string(year, month);
    let end = if month == 12 {
        month_start_string(year + 1, 1)
    } else {
        month_start_string(year, month + 1)
    };
    (start, end)
}

/// The range of points in time is made of whole years.
pub proof fn law_range_is_whole_years()
    ensures
        FIRST_SECOND == days_before_year(-262143) * 86400,
        LAST_SECOND + 1 == days_before_year(262143) * 86400,
{
}

/// Months follow on one another: where one ends the next begins, as instants
/// and as text.
pub proof fn law_months_follow_on(seconds: int, later: int, year: int, month: int)
    requires
        in_month(seconds, year, month),
        in_month(later, following_month(year, month).0, following_month(year, month).1),
    ensures
        bounds_text(year_of(seconds), month_of(seconds)).1 == bounds_text(
            year_of(later),
            month_of(later),
        ).0,
        days_before_month(year, month + 1) == days_before_month(
            following_month(year, month).0,
            following_month(year, month).1,
        ),
        seconds < later,
{
    let next: (int, int) = following_month(year, month);
    lemma_month_of(seconds, year, month);
    lemma_month_of(later, next.0, next.1);
    lemma_year_step(year);
}

proof fn lemma_leading_zero(s: Seq<char>)
    ensures
        continued(0, seq!['0'] + s) == continued(0, s),
    decreases s.len(),
{
    let longer: Seq<char> = seq!['0'] + s;
    if s.len() == 0 {
        assert(longer.drop_last() =~= Seq::<char>::empty());
        assert(longer.last() == '0');
        assert(continued(0, longer.drop_last()) == 0);
    } else {
        lemma_leading_zero(s.drop_last());
        assert(longer.drop_last() =~= seq!['0'] + s.drop_last());
    }
}

proof fn lemma_zero_filled(s: Seq<char>, width: nat)
    requires
        forall|i: int| 0 <= i < s.len() ==> is_digit(#[trigger] s[i]),
    ensures
        zero_filled(s, width).len() == if s.len() < width {
            width
        } else {
            s.len()
        },
        forall|i: int|
            0 <= i < zero_filled(s, width).len() ==> is_digit(#[trigger] zero_filled(s, width)[i]),
        continued(0, zero_filled(s, width)) == continued(0, s),
    decreases width - s.len(),
{
    if s.len() < width {
        lemma_leading_zero(s);
        lemma_zero_filled(seq!['0'] + s, width);
    }
}

/// A number is written in digits that spell it, with zeros in front only to fill
/// the width, and with a minus in front where it is negative.
pub proof fn law_numbers_are_spelled_out(n: nat, width: nat)
    ensures
        forall|i: int|
            0 <= i < number(n as int, width).len() ==> is_digit(
                #[trigger] number(n as int, width)[i],
            ),
        continued(0, number(n as int, width)) == n,
        number(n as int, width).len() >= width,
        number(n as int, width).len() > width && n > 0 ==> number(n as int, width)[0] != '0',
        n > 0 ==> number(-n, width) == seq!['-'] + number(
            n as int,
            if width > 0 {
                (width - 1) as nat
            } else {
                0
            },
        ),
        number(n as int, 0) == digits(n),
{
    lemma_digits(n);
    lemma_zero_filled(digits(n), width);
    lemma_no_leading_zero(n);
    assert(zero_filled(digits(n), 0) == digits(n));
}

proof fn lemma_no_leading_zero(n: nat)
    ensures
        n > 0 ==> digits(n)[0] != '0',
        digits(n).len() > 0,
    decreases n,
{
    if n >= 10 {
        lemma_no_leading_zero(n / 10);
    }
}

/// The first instant of a month is written with four digits for the year, two for
/// the month, and the rest as it is for every month.
pub proof fn law_month_starts_are_spelled_out(year: int, month: int)
    requires
        0 <= year <= 9999,
        1 <= month <= 12,
    ensures
        ({
            let s = month_start_text(year, month);
            &&& s.len() == 20
            &&& continued(0, s.subrange(0, 4)) == year
            &&& forall|i: int| 0 <= i < 4 ==> is_digit(#[trigger] s[i])
            &&& s[4] == '-'
            &&& continued(0, s.subrange(5, 7)) == month
            &&& is_digit(s[5]) && is_digit(s[6])
            &&& s.subrange(7, 20) == "-01T00:00:00Z"@
        }),
{
    reveal_strlit("-");
    reveal_strlit("-01T00:00:00Z");
    lemma_digits(year as nat);
    lemma_digits(month as nat);
    reveal_with_fuel(digits, 5);
    assert(digits(year as nat).len() <= 4);
    assert(digits(month as nat).len() <= 2);
    lemma_zero_filled(digits(year as nat), 4);
    lemma_zero_filled(digits(month as nat), 2);
    let s: Seq<char> = month_start_text(year, month);
    let y: Seq<char> = number(year, 4);
    let m: Seq<char> = number(month, 2);
    assert(s.subrange(0, 4) =~= y);
    assert(s.subrange(5, 7) =~= m);
    assert(s.subrange(7, 20) =~= "-01T00:00:00Z"@);
    assert forall|i: int| 0 <= i < 4 implies is_digit(#[trigger] s[i]) by {
        assert(s[i] == y[i]);
    }
    assert(s[5] == m[0] && s[6] == m[1]);
}

/// A point in time is bounded by the first instants of its own month and of the
/// one after it: in December that is January of the next year.
pub proof fn law_bounds_are_those_of_the_month(seconds: int, year: int, month: int)
    requires
        in_month(seconds, year, month),
    ensures
        bounds_text(year_of(seconds), month_of(seconds)).0 == month_start_text(year, month),
        month < 12 ==> bounds_text(year_of(seconds), month_of(seconds)).1 == month_start_text(
            year,
            month + 1,
        ),
        month == 12 ==> bounds_text(year_of(seconds), month_of(seconds)).1 == month_start_text(
            year + 1,
            1,
        ),
{
    lemma_month_of(seconds, year, month);
}

} // verus!

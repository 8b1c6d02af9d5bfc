//! The HTTP-date in its IMF-fixdate form (`Sun, 06 Nov 1994 08:49:37 GMT`),
//! written from and read back to whole seconds since the Unix epoch.
use vstd::prelude::*;

verus! {

/// Seconds in one day.
pub const SECS_PER_DAY: u64 = 86400;

/// The first second of the year 10000: four year digits reach no further.
pub const MAX_SECS: u64 = 253402300800;

/// Length of an IMF-fixdate text in bytes.
pub const IMF_FIXDATE_LEN: usize = 29;

pub open spec fn is_leap_year(y: int) -> bool {
    y % 4 == 0 && (y % 100 != 0 || y % 400 == 0)
}

pub open spec fn days_in_year(y: int) -> int {
    if is_leap_year(y) {
        366
    } else {
        365
    }
}

/// Days in month `m` (1 to 12) of year `y`.
pub open spec fn days_in_month(y: int, m: int) -> int {
    if m == 2 {
        if is_leap_year(y) {
            29
        } else {
            28
        }
    } else if m == 4 || m == 6 || m == 9 || m == 11 {
        30
    } else {
        31
    }
}

/// Days from 1970-01-01 to the first day of year `y`.
pub open spec fn days_before_year(y: int) -> int
    decreases y - 1970,
{
    if y <= 1970 {
        0
    } else {
        days_before_year(y - 1) + days_in_year(y - 1)
    }
}

/// Days from the first day of year `y` to the first day of month `m`.
pub open spec fn days_before_month(y: int, m: int) -> int
    decreases m,
{
    if m <= 1 {
        0
    } else {
        days_before_month(y, m - 1) + days_in_month(y, m - 1)
    }
}

/// Day of the week of the day `days` after 1970-01-01, from 1 (Monday) to 7
/// (Sunday); that day was a Thursday.
pub open spec fn weekday_of(days: int) -> int {
    (days + 3) % 7 + 1
}

/// The year in which day `days` (counted from the start of year `y`) falls,
/// and the day's index within that year.
pub open spec fn year_and_rest(days: int, y: int) -> (int, int)
    decreases days,
{
    if days < days_in_year(y) || days < 0 {
        (y, days)
    } else {
        year_and_rest(days - days_in_year(y), y + 1)
    }
}

/// The month (from `m` on) in which day `doy` of year `y` falls, counted
/// from the start of month `m`, and the day's index within that month.
pub open spec fn month_and_rest(doy: int, y: int, m: int) -> (int, int)
    decreases 12 - m,
{
    if m >= 12 || doy < days_in_month(y, m) {
        (m, doy)
    } else {
        month_and_rest(doy - days_in_month(y, m), y, m + 1)
    }
}

/// A UTC date and time of day, broken down into its fields.
#[derive(Debug, Clone, Copy, PartialEq, Eq, Structural)]
pub struct HttpDate {
    pub year: u64,
    pub month: u64,
    pub day: u64,
    pub hour: u64,
    pub minute: u64,
    pub second: u64,
    /// 1 (Monday) to 7 (Sunday).
    pub week_day: u64,
}

impl HttpDate {
    /// Days from 1970-01-01 to this date.
    pub open spec fn day_number(self) -> int {
        days_before_year(self.year as int) + days_before_month(self.year as int, self.month as int)
            + self.day - 1
    }

    /// Seconds from the Unix epoch to this date and time.
    pub open spec fn epoch_secs(self) -> int {
        self.day_number() * 86400 + self.hour * 3600 + self.minute * 60 + self.second
    }

    /// Each field lies in its range, the day exists in its month, and the
    /// day of the week is that of the date.
    pub open spec fn is_valid(self) -> bool {
        &&& 1970 <= self.year <= 9999
        &&& 1 <= self.month <= 12
        &&& 1 <= self.day <= days_in_month(self.year as int, self.month as int)
        &&& self.hour < 24
        &&& self.minute < 60
        &&& self.second < 60
        &&& self.week_day == weekday_of(self.day_number())
    }
}

/// The date and time `secs` seconds after the Unix epoch.
pub open spec fn date_of(secs: int) -> HttpDate {
    let days = secs / 86400;
    let sod = secs % 86400;
    let (y, doy) = year_and_rest(days, 1970);
    let (m, dom) = month_and_rest(doy, y, 1);
    HttpDate {
        year: y as u64,
        month: m as u64,
        day: (dom + 1) as u64,
        hour: (sod / 3600) as u64,
        minute: (sod % 3600 / 60) as u64,
        second: (sod % 60) as u64,
        week_day: weekday_of(days) as u64,
    }
}

/// The three-letter English name of a day of the week.
pub open spec fn day_name(wd: int) -> Seq<u8> {
    if wd == 1 {
        seq![77, 111, 110]  // Mon
    } else if wd == 2 {
        seq![84, 117, 101]  // Tue
    } else if wd == 3 {
        seq![87, 101, 100]  // Wed
    } else if wd == 4 {
        seq![84, 104, 117]  // Thu
    } else if wd == 5 {
        seq![70, 114, 105]  // Fri
    } else if wd == 6 {
        seq![83, 97, 116]  // Sat
    } else {
        seq![83, 117, 110]  // Sun
    }
}

/// The three-letter English name of a month.
pub open spec fn month_name(m: int) -> Seq<u8> {
    if m == 1 {
        seq![74, 97, 110]  // Jan
    } else if m == 2 {
        seq![70, 101, 98]  // Feb
    } else if m == 3 {
        seq![77, 97, 114]  // Mar
    } else if m == 4 {
        seq![65, 112, 114]  // Apr
    } else if m == 5 {
        seq![77, 97, 121]  // May
    } else if m == 6 {
        seq![74, 117, 110]  // Jun
    } else if m == 7 {
        seq![74, 117, 108]  // Jul
    } else if m == 8 {
        seq![65, 117, 103]  // Aug
    } else if m == 9 {
        seq![83, 101, 112]  // Sep
    } else if m == 10 {
        seq![79, 99, 116]  // Oct
    } else if m == 11 {
        seq![78, 111, 118]  // Nov
    } else {
        seq![68, 101, 99]  // Dec
    }
}

/// The ASCII digit for `d` (0 to 9).
pub open spec fn digit(d: u64) -> u8 {
    (d + 48) as u8
}

/// The IMF-fixdate text of a date: `Www, DD Mmm YYYY hh:mm:ss GMT`. In
/// ASCII, 44 is `,`, 32 a space, 58 `:`, and 71, 77, 84 spell `GMT`.
pub open spec fn imf_fixdate(d: HttpDate) -> Seq<u8> {
    let w = day_name(d.week_day as int);
    let m = month_name(d.month as int);
    seq![
        w[0], w[1], w[2], 44, 32,
        digit(d.day / 10), digit(d.day % 10), 32,
        m[0], m[1], m[2], 32,
        digit(d.year / 1000), digit(d.year / 100 % 10), digit(d.year / 10 % 10), digit(d.year % 10),
        32,
        digit(d.hour / 10), digit(d.hour % 10), 58,
        digit(d.minute / 10), digit(d.minute % 10), 58,
        digit(d.second / 10), digit(d.second % 10),
        32, 71, 77, 84
    ]
}

/// Day `days` after 1970-01-01 is the first day of year `y`, or lies after it.
proof fn lemma_year_and_rest(days: int, y: int)
    requires
        days >= 0,
        y >= 1970,
    ensures
        year_and_rest(days, y).0 >= y,
        0 <= year_and_rest(days, y).1 < days_in_year(year_and_rest(days, y).0),
        days_before_year(year_and_rest(days, y).0) + year_and_rest(days, y).1
            == days_before_year(y) + days,
    decreases days,
{
    if days >= days_in_year(y) {
        lemma_year_and_rest(days - days_in_year(y), y + 1);
    }
}

proof fn lemma_days_before_month_total(y: int)
    ensures
        days_before_month(y, 13) == days_in_year(y),
{
    reveal_with_fuel(days_before_month, 13);
}

proof fn lemma_month_and_rest(doy: int, y: int, m: int)
    requires
        doy >= 0,
        1 <= m <= 12,
        days_before_month(y, m) + doy < days_in_year(y),
    ensures
        m <= month_and_rest(doy, y, m).0 <= 12,
        0 <= month_and_rest(doy, y, m).1 < days_in_month(y, month_and_rest(doy, y, m).0),
        days_before_month(y, month_and_rest(doy, y, m).0) + month_and_rest(doy, y, m).1
            == days_before_month(y, m) + doy,
    decreases 12 - m,
{
    if m < 12 && doy >= days_in_month(y, m) {
        lemma_month_and_rest(doy - days_in_month(y, m), y, m + 1);
    } else if m == 12 {
        lemma_days_before_month_total(y);
    }
}

proof fn lemma_days_before_year_mono(a: int, b: int)
    requires
        a <= b,
    ensures
        days_before_year(a) <= days_before_year(b),
    decreases b - a,
{
    if a < b {
        lemma_days_before_year_mono(a, b - 1);
    }
}

/// Leap years among the years 1 to `y - 1`.
spec fn leap_years_before(y: int) -> int {
    (y - 1) / 4 - (y - 1) / 100 + (y - 1) / 400
}

proof fn lemma_div_step(y: int, k: int)
    requires
        k > 0,
    ensures
        y / k - (y - 1) / k == (if y % k == 0 { 1int } else { 0int }),
{
    vstd::arithmetic::div_mod::lemma_fundamental_div_mod(y, k);
    vstd::arithmetic::div_mod::lemma_fundamental_div_mod(y - 1, k);
    let q = y / k;
    let r = y % k;
    let q1 = (y - 1) / k;
    let r1 = (y - 1) % k;
    assert(0 <= q - q1 <= 1) by (nonlinear_arith)
        requires
            k > 0,
            y == k * q + r,
            y - 1 == k * q1 + r1,
            0 <= r < k,
            0 <= r1 < k,
    ;
    if q == q1 {
        assert(r == r1 + 1);
    } else {
        assert(k * q == k * q1 + k) by (nonlinear_arith)
            requires
                q == q1 + 1,
        ;
        assert(r == 0);
    }
}

proof fn lemma_days_before_year_closed(y: int)
    requires
        y >= 1970,
    ensures
        days_before_year(y) == 365 * (y - 1970) + leap_years_before(y) - leap_years_before(1970),
    decreases y - 1970,
{
    if y > 1970 {
        lemma_days_before_year_closed(y - 1);
        lemma_div_step(y - 1, 4);
        lemma_div_step(y - 1, 100);
        lemma_div_step(y - 1, 400);
    }
}

proof fn lemma_days_before_year_10000()
    ensures
        days_before_year(10000) == 2932897,
{
    lemma_days_before_year_closed(10000);
}

/// Every second from the epoch up to the year 10000 has a valid date, and
/// that date leads back to the same second.
pub proof fn lemma_date_of_valid(secs: int)
    requires
        0 <= secs < MAX_SECS,
    ensures
        date_of(secs).is_valid(),
        date_of(secs).epoch_secs() == secs,
{
    let days = secs / 86400;
    let sod = secs % 86400;
    assert(0 <= days < 2932897);
    lemma_year_and_rest(days, 1970);
    let (y, doy) = year_and_rest(days, 1970);
    lemma_days_before_year_10000();
    if y >= 10000 {
        lemma_days_before_year_mono(10000, y);
    }
    lemma_month_and_rest(doy, y, 1);
    let (m, dom) = month_and_rest(doy, y, 1);
    let d = date_of(secs);
    assert(d.day_number() == days);
    assert(sod / 3600 * 3600 + sod % 3600 / 60 * 60 + sod % 60 == sod) by (nonlinear_arith)
        requires
            0 <= sod < 86400,
    ;
    assert(days * 86400 + sod == secs) by (nonlinear_arith)
        requires
            days == secs / 86400,
            sod == secs % 86400,
    ;
}

fn is_leap_year_exec(y: u64) -> (r: bool)
    ensures
        r == is_leap_year(y as int),
{
    y % 4 == 0 && (y % 100 != 0 || y % 400 == 0)
}

fn days_in_year_exec(y: u64) -> (r: u64)
    ensures
        r == days_in_year(y as int),
{
    if is_leap_year_exec(y) {
        366
    } else {
        365
    }
}

fn days_in_month_exec(y: u64, m: u64) -> (r: u64)
    ensures
        r == days_in_month(y as int, m as int),
{
    if m == 2 {
        if is_leap_year_exec(y) {
            29
        } else {
            28
        }
    } else if m == 4 || m == 6 || m == 9 || m == 11 {
        30
    } else {
        31
    }
}

/// Breaks a number of seconds since the epoch down into a date and time.
pub fn date_from_secs(secs: u64) -> (r: HttpDate)
    requires
        secs < MAX_SECS,
    ensures
        r == date_of(secs as int),
        r.is_valid(),
{
    proof {
        lemma_date_of_valid(secs as int);
    }
    let days = secs / SECS_PER_DAY;
    let sod = secs % SECS_PER_DAY;
    let mut year: u64 = 1970;
    let mut rest: u64 = days;
    while rest >= days_in_year_exec(year)
        invariant
            year_and_rest(rest as int, year as int) == year_and_rest(days as int, 1970),
            1970 <= year <= 1970 + days - rest,
            rest <= days,
            days < 2932897,
        decreases rest,
    {
        rest = rest - days_in_year_exec(year);
        year = year + 1;
    }
    let ghost doy = rest as int;
    let mut month: u64 = 1;
    while month < 12 && rest >= days_in_month_exec(year, month)
        invariant
            1 <= month <= 12,
            month_and_rest(rest as int, year as int, month as int) == month_and_rest(
                doy,
                year as int,
                1,
            ),
            rest <= doy,
        decreases 12 - month,
    {
        rest = rest - days_in_month_exec(year, month);
        month = month + 1;
    }
    HttpDate {
        year,
        month,
        day: rest + 1,
        hour: sod / 3600,
        minute: sod % 3600 / 60,
        second: sod % 60,
        week_day: (days + 3) % 7 + 1,
    }
}

fn day_name_exec(wd: u64) -> (r: (u8, u8, u8))
    ensures
        seq![r.0, r.1, r.2] == day_name(wd as int),
{
    if wd == 1 {
        (77, 111, 110)  // Mon
    } else if wd == 2 {
        (84, 117, 101)  // Tue
    } else if wd == 3 {
        (87, 101, 100)  // Wed
    } else if wd == 4 {
        (84, 104, 117)  // Thu
    } else if wd == 5 {
        (70, 114, 105)  // Fri
    } else if wd == 6 {
        (83, 97, 116)  // Sat
    } else {
        (83, 117, 110)  // Sun
    }
}

fn month_name_exec(m: u64) -> (r: (u8, u8, u8))
    ensures
        seq![r.0, r.1, r.2] == month_name(m as int),
{
    if m == 1 {
        (74, 97, 110)  // Jan
    } else if m == 2 {
        (70, 101, 98)  // Feb
    } else if m == 3 {
        (77, 97, 114)  // Mar
    } else if m == 4 {
        (65, 112, 114)  // Apr
    } else if m == 5 {
        (77, 97, 121)  // May
    } else if m == 6 {
        (74, 117, 110)  // Jun
    } else if m == 7 {
        (74, 117, 108)  // Jul
    } else if m == 8 {
        (65, 117, 103)  // Aug
    } else if m == 9 {
        (83, 101, 112)  // Sep
    } else if m == 10 {
        (79, 99, 116)  // Oct
    } else if m == 11 {
        (78, 111, 118)  // Nov
    } else {
        (68, 101, 99)  // Dec
    }
}

fn digit_exec(d: u64) -> (r: u8)
    requires
        d < 10,
    ensures
        r == digit(d),
{
    (d + 48) as u8
}

/// Writes a valid date in IMF-fixdate form.
pub fn render(d: &HttpDate) -> (r: Vec<u8>)
    requires
        d.is_valid(),
    ensures
        r@ == imf_fixdate(*d),
{
    let w = day_name_exec(d.week_day);
    let m = month_name_exec(d.month);
    let r = vec![
        w.0, w.1, w.2, 44, 32,
        digit_exec(d.day / 10), digit_exec(d.day % 10), 32,
        m.0, m.1, m.2, 32,
        digit_exec(d.year / 1000), digit_exec(d.year / 100 % 10), digit_exec(d.year / 10 % 10),
        digit_exec(d.year % 10), 32,
        digit_exec(d.hour / 10), digit_exec(d.hour % 10), 58,
        digit_exec(d.minute / 10), digit_exec(d.minute % 10), 58,
        digit_exec(d.second / 10), digit_exec(d.second % 10),
        32, 71, 77, 84
    ];
    assert(r@ =~= imf_fixdate(*d));
    r
}

/// Writes whole seconds since the epoch as an IMF-fixdate text.
pub fn fmt_http_date(secs: u64) -> (r: Vec<u8>)
    requires
        secs < MAX_SECS,
    ensures
        r@ == imf_fixdate(date_of(secs as int)),
{
    let d = date_from_secs(secs);
    render(&d)
}

pub open spec fn is_digit(b: u8) -> bool {
    48 <= b <= 57
}

pub open spec fn digit_value(b: u8) -> int {
    b - 48
}

/// 1 (Monday) to 7 (Sunday) for a day name, 0 for anything else.
pub open spec fn day_index(a: Seq<u8>) -> u64 {
    if a == day_name(1) {
        1
    } else if a == day_name(2) {
        2
    } else if a == day_name(3) {
        3
    } else if a == day_name(4) {
        4
    } else if a == day_name(5) {
        5
    } else if a == day_name(6) {
        6
    } else if a == day_name(7) {
        7
    } else {
        0
    }
}

/// 1 to 12 for a month name, 0 for anything else.
pub open spec fn month_index(a: Seq<u8>) -> u64 {
    if a == month_name(1) {
        1
    } else if a == month_name(2) {
        2
    } else if a == month_name(3) {
        3
    } else if a == month_name(4) {
        4
    } else if a == month_name(5) {
        5
    } else if a == month_name(6) {
        6
    } else if a == month_name(7) {
        7
    } else if a == month_name(8) {
        8
    } else if a == month_name(9) {
        9
    } else if a == month_name(10) {
        10
    } else if a == month_name(11) {
        11
    } else if a == month_name(12) {
        12
    } else {
        0
    }
}

/// `t` has the shape `Www, DD Mmm YYYY hh:mm:ss GMT`, with a known day and
/// month name and a digit (48 to 57) in each numeric place.
pub open spec fn has_fixdate_layout(t: Seq<u8>) -> bool {
    &&& t.len() == 29
    &&& t[3] == 44 && t[4] == 32 && t[7] == 32 && t[11] == 32 && t[16] == 32
    &&& t[19] == 58 && t[22] == 58
    &&& t[25] == 32 && t[26] == 71 && t[27] == 77 && t[28] == 84
    &&& is_digit(t[5]) && is_digit(t[6])
    &&& is_digit(t[12]) && is_digit(t[13]) && is_digit(t[14]) && is_digit(t[15])
    &&& is_digit(t[17]) && is_digit(t[18]) && is_digit(t[20]) && is_digit(t[21])
    &&& is_digit(t[23]) && is_digit(t[24])
    &&& day_index(t.subrange(0, 3)) != 0
    &&& month_index(t.subrange(8, 11)) != 0
}

/// The two-digit number at `t[i]`, `t[i + 1]`.
pub open spec fn two_digits_at(t: Seq<u8>, i: int) -> u64 {
    (digit_value(t[i]) * 10 + digit_value(t[i + 1])) as u64
}

/// The fields that an IMF-fixdate layout holds.
pub open spec fn fixdate_fields(t: Seq<u8>) -> HttpDate {
    HttpDate {
        year: (two_digits_at(t, 12) * 100 + two_digits_at(t, 14)) as u64,
        month: month_index(t.subrange(8, 11)),
        day: two_digits_at(t, 5),
        hour: two_digits_at(t, 17),
        minute: two_digits_at(t, 20),
        second: two_digits_at(t, 23),
        week_day: day_index(t.subrange(0, 3)),
    }
}

/// The seconds since the epoch that an HTTP-date text stands for: `None`
/// where it is not an IMF-fixdate of a real date and time, with the right
/// day of the week, in the years 1970 to 9999.
pub open spec fn parse_spec(t: Seq<u8>) -> Option<int> {
    if has_fixdate_layout(t) && fixdate_fields(t).is_valid() {
        Some(fixdate_fields(t).epoch_secs())
    } else {
        None
    }
}

fn day_index_exec(a: u8, b: u8, c: u8) -> (r: u64)
    ensures
        r == day_index(seq![a, b, c]),
{
    let ghost s = seq![a, b, c];
    assert(s[0] == a && s[1] == b && s[2] == c);
    if a == 77 && b == 111 && c == 110 {  // Mon
        assert(s =~= day_name(1));
        1
    } else if a == 84 && b == 117 && c == 101 {  // Tue
        assert(s =~= day_name(2));
        2
    } else if a == 87 && b == 101 && c == 100 {  // Wed
        assert(s =~= day_name(3));
        3
    } else if a == 84 && b == 104 && c == 117 {  // Thu
        assert(s =~= day_name(4));
        4
    } else if a == 70 && b == 114 && c == 105 {  // Fri
        assert(s =~= day_name(5));
        5
    } else if a == 83 && b == 97 && c == 116 {  // Sat
        assert(s =~= day_name(6));
        6
    } else if a == 83 && b == 117 && c == 110 {  // Sun
        assert(s =~= day_name(7));
        7
    } else {
        0
    }
}

fn month_index_exec(a: u8, b: u8, c: u8) -> (r: u64)
    ensures
        r == month_index(seq![a, b, c]),
{
    let ghost s = seq![a, b, c];
    assert(s[0] == a && s[1] == b && s[2] == c);
    if a == 74 && b == 97 && c == 110 {  // Jan
        assert(s =~= month_name(1));
        1
    } else if a == 70 && b == 101 && c == 98 {  // Feb
        assert(s =~= month_name(2));
        2
    } else if a == 77 && b == 97 && c == 114 {  // Mar
        assert(s =~= month_name(3));
        3
    } else if a == 65 && b == 112 && c == 114 {  // Apr
        assert(s =~= month_name(4));
        4
    } else if a == 77 && b == 97 && c == 121 {  // May
        assert(s =~= month_name(5));
        5
    } else if a == 74 && b == 117 && c == 110 {  // Jun
        assert(s =~= month_name(6));
        6
    } else if a == 74 && b == 117 && c == 108 {  // Jul
        assert(s =~= month_name(7));
        7
    } else if a == 65 && b == 117 && c == 103 {  // Aug
        assert(s =~= month_name(8));
        8
    } else if a == 83 && b == 101 && c == 112 {  // Sep
        assert(s =~= month_name(9));
        9
    } else if a == 79 && b == 99 && c == 116 {  // Oct
        assert(s =~= month_name(10));
        10
    } else if a == 78 && b == 111 && c == 118 {  // Nov
        assert(s =~= month_name(11));
        11
    } else if a == 68 && b == 101 && c == 99 {  // Dec
        assert(s =~= month_name(12));
        12
    } else {
        0
    }
}

fn is_digit_exec(b: u8) -> (r: bool)
    ensures
        r == is_digit(b),
{
    48 <= b && b <= 57
}

fn two_digits_at_exec(t: &[u8], i: usize) -> (r: u64)
    requires
        i + 1 < t@.len(),
        is_digit(t@[i as int]),
        is_digit(t@[i + 1]),
    ensures
        r == two_digits_at(t@, i as int),
        r < 100,
{
    ((t[i] - 48) as u64) * 10 + ((t[i + 1] - 48) as u64)
}

fn days_before_year_exec(y: u64) -> (r: u64)
    requires
        1970 <= y <= 9999,
    ensures
        r == days_before_year(y as int),
        r <= 366 * (y - 1970),
{
    let mut acc: u64 = 0;
    let mut i: u64 = 1970;
    while i < y
        invariant
            1970 <= i <= y <= 9999,
            acc == days_before_year(i as int),
            acc <= 366 * (i - 1970),
        decreases y - i,
    {
        acc = acc + days_in_year_exec(i);
        i = i + 1;
    }
    acc
}

fn days_before_month_exec(y: u64, m: u64) -> (r: u64)
    requires
        1 <= m <= 12,
    ensures
        r == days_before_month(y as int, m as int),
        r <= 31 * (m - 1),
{
    let mut acc: u64 = 0;
    let mut i: u64 = 1;
    while i < m
        invariant
            1 <= i <= m <= 12,
            acc == days_before_month(y as int, i as int),
            acc <= 31 * (i - 1),
        decreases m - i,
    {
        acc = acc + days_in_month_exec(y, i);
        i = i + 1;
    }
    acc
}

/// Reads an IMF-fixdate text as whole seconds since the epoch.
pub fn parse_imf_fixdate(t: &[u8]) -> (r: Option<u64>)
    ensures
        r == (match parse_spec(t@) {
            Some(s) => Some(s as u64),
            None => None::<u64>,
        }),
        r matches Some(s) ==> s < MAX_SECS,
{
    if t.len() != IMF_FIXDATE_LEN {
        return None;
    }
    if !(t[3] == 44 && t[4] == 32 && t[7] == 32 && t[11] == 32 && t[16] == 32 && t[19] == 58
        && t[22] == 58 && t[25] == 32 && t[26] == 71 && t[27] == 77 && t[28] == 84) {
        return None;
    }
    if !(is_digit_exec(t[5]) && is_digit_exec(t[6]) && is_digit_exec(t[12]) && is_digit_exec(t[13])
        && is_digit_exec(t[14]) && is_digit_exec(t[15]) && is_digit_exec(t[17]) && is_digit_exec(
        t[18],
    ) && is_digit_exec(t[20]) && is_digit_exec(t[21]) && is_digit_exec(t[23]) && is_digit_exec(
        t[24],
    )) {
        return None;
    }
    let week_day = day_index_exec(t[0], t[1], t[2]);
    let month = month_index_exec(t[8], t[9], t[10]);
    assert(t@.subrange(0, 3) =~= seq![t@[0], t@[1], t@[2]]);
    assert(t@.subrange(8, 11) =~= seq![t@[8], t@[9], t@[10]]);
    if week_day == 0 || month == 0 {
        return None;
    }
    let d = HttpDate {
        year: two_digits_at_exec(t, 12) * 100 + two_digits_at_exec(t, 14),
        month,
        day: two_digits_at_exec(t, 5),
        hour: two_digits_at_exec(t, 17),
        minute: two_digits_at_exec(t, 20),
        second: two_digits_at_exec(t, 23),
        week_day,
    };
    assert(d == fixdate_fields(t@));
    if !(1970 <= d.year && d.year <= 9999 && 1 <= d.day && d.day <= days_in_month_exec(
        d.year,
        d.month,
    ) && d.hour < 24 && d.minute < 60 && d.second < 60) {
        return None;
    }
    let day_number = days_before_year_exec(d.year) + days_before_month_exec(d.year, d.month) + d.day
        - 1;
    if d.week_day != (day_number + 3) % 7 + 1 {
        return None;
    }
    let secs = day_number * 86400 + d.hour * 3600 + d.minute * 60 + d.second;
    proof {
        lemma_days_before_year_10000();
        lemma_days_before_year_mono(d.year as int + 1, 10000);
        lemma_days_before_month_bound(d.year as int, d.month as int);
    }
    Some(secs)
}

proof fn lemma_days_before_month_bound(y: int, m: int)
    requires
        1 <= m <= 12,
    ensures
        days_before_month(y, m) + days_in_month(y, m) <= days_in_year(y),
{
    reveal_with_fuel(days_before_month, 13);
}

proof fn lemma_two_digits(t: Seq<u8>, i: int, x: u64)
    requires
        0 <= i,
        i + 1 < t.len(),
        x < 100,
        t[i] == digit(x / 10),
        t[i + 1] == digit(x % 10),
    ensures
        is_digit(t[i]),
        is_digit(t[i + 1]),
        two_digits_at(t, i) == x,
{
}

proof fn lemma_day_index(wd: int)
    requires
        1 <= wd <= 7,
    ensures
        day_index(day_name(wd)) == wd,
{
    let n = day_name(wd);
    assert(n[0] == day_name(wd)[0]);
}

proof fn lemma_month_index(m: int)
    requires
        1 <= m <= 12,
    ensures
        month_index(month_name(m)) == m,
{
    let n = month_name(m);
    assert(n[0] == month_name(m)[0]);
}

proof fn lemma_year_digits(y: u64)
    requires
        y < 10000,
    ensures
        y / 100 < 100,
        y / 100 / 10 == y / 1000,
        (y % 100) / 10 == y / 10 % 10,
        (y % 100) % 10 == y % 10,
        y / 100 * 100 + y % 100 == y,
{
}

proof fn lemma_fixdate_layout(d: HttpDate)
    requires
        d.is_valid(),
        1 <= d.week_day <= 7,
    ensures
        has_fixdate_layout(imf_fixdate(d)),
{
    let t = imf_fixdate(d);
    lemma_day_index(d.week_day as int);
    lemma_month_index(d.month as int);
    assert(t.subrange(0, 3) =~= day_name(d.week_day as int));
    assert(t.subrange(8, 11) =~= month_name(d.month as int));
}

/// The text of a valid date reads back as that date.
pub proof fn lemma_fixdate_fields_inverse(d: HttpDate)
    requires
        d.is_valid(),
    ensures
        has_fixdate_layout(imf_fixdate(d)),
        fixdate_fields(imf_fixdate(d)) == d,
        parse_spec(imf_fixdate(d)) == Some(d.epoch_secs()),
{
    let t = imf_fixdate(d);
    assert(d.week_day >= 1 && d.week_day <= 7) by {
        assert((d.day_number() + 3) % 7 + 1 >= 1);
    }
    lemma_fixdate_layout(d);
    lemma_day_index(d.week_day as int);
    lemma_month_index(d.month as int);
    assert(t.subrange(0, 3) =~= day_name(d.week_day as int));
    assert(t.subrange(8, 11) =~= month_name(d.month as int));
    lemma_year_digits(d.year);
    lemma_two_digits(t, 5, d.day);
    lemma_two_digits(t, 12, d.year / 100);
    lemma_two_digits(t, 14, d.year % 100);
    lemma_two_digits(t, 17, d.hour);
    lemma_two_digits(t, 20, d.minute);
    lemma_two_digits(t, 23, d.second);
}

/// Formatting whole seconds and reading the text back gives the same seconds.
pub proof fn lemma_http_date_round_trip(secs: int)
    requires
        0 <= secs < MAX_SECS,
    ensures
        parse_spec(imf_fixdate(date_of(secs))) == Some(secs),
{
    lemma_date_of_valid(secs);
    lemma_fixdate_fields_inverse(date_of(secs));
}

/// The text of a valid date is ASCII.
pub proof fn lemma_fixdate_ascii(d: HttpDate)
    requires
        d.is_valid(),
    ensures
        forall|i: int| 0 <= i < imf_fixdate(d).len() ==> #[trigger] imf_fixdate(d)[i] < 128,
{
    let t = imf_fixdate(d);
    let w = day_name(d.week_day as int);
    let m = month_name(d.month as int);
    assert(w[0] < 128 && w[1] < 128 && w[2] < 128);
    assert(m[0] < 128 && m[1] < 128 && m[2] < 128);
    assert forall|i: int| 0 <= i < t.len() implies #[trigger] t[i] < 128 by {
        lemma_year_digits(d.year);
    }
}

} // verus!

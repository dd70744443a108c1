//! Points in time, to the second, and the form in which they are stored:
//! RFC 3339 in UTC with whole seconds, so that the order of the texts is the
//! order of the times.

use chrono::{DateTime, SecondsFormat, Utc};
use vstd::prelude::*;
use vstd::string::*;
use vstd::utf8::*;

use crate::text::{
    bytes_less, bytes_less_irreflexive, bytes_less_transitive, decimal, digit, text_less,
};

verus! {

/// The first second that a `Timestamp` can hold: -262143-01-01T00:00:00Z.
pub const MIN_UNIX_SECS: i64 = -8334601228800;

/// The last second that a `Timestamp` can hold: +262142-12-31T23:59:59Z.
pub const MAX_UNIX_SECS: i64 = 8210266876799;

/// A second of UTC in the proleptic Gregorian calendar.
pub struct Civil {
    pub year: int,
    pub month: int,
    pub day: int,
    pub hour: int,
    pub minute: int,
    pub second: int,
}

/// Leap years of the Gregorian calendar.
pub open spec fn is_leap(year: int) -> bool {
    year % 4 == 0 && (year % 100 != 0 || year % 400 == 0)
}

/// The number of days of a month.
pub open spec fn days_in_month(year: int, month: int) -> int {
    if month == 2 {
        if is_leap(year) {
            29
        } else {
            28
        }
    } else if month == 4 || month == 6 || month == 9 || month == 11 {
        30
    } else {
        31
    }
}

/// The number of days from the start of a year to the start of its month.
pub open spec fn days_before_month(year: int, month: int) -> int
    decreases month,
{
    if month <= 1 {
        0
    } else {
        days_before_month(year, month - 1) + days_in_month(year, month - 1)
    }
}

/// The number of days from the start of year zero to the start of a year:
/// 365 for each year, and one for each leap year among them.
pub open spec fn days_before_year(year: int) -> int {
    365 * year + ((year - 1) / 4 + 1) - ((year - 1) / 100 + 1) + ((year - 1) / 400 + 1)
}

/// The number of days from the start of year zero to the first of January 1970.
pub open spec fn epoch_day() -> int {
    days_before_year(1970)
}

/// Two decimal digits.
pub open spec fn two_digits(n: int) -> Seq<char> {
    seq![digit(n / 10), digit(n % 10)]
}

/// Four decimal digits.
pub open spec fn four_digits(n: int) -> Seq<char> {
    two_digits(n / 100) + two_digits(n % 100)
}

impl Civil {
    /// The fields name a second that exists.
    pub open spec fn valid(self) -> bool {
        &&& 1 <= self.month <= 12
        &&& 1 <= self.day <= days_in_month(self.year, self.month)
        &&& 0 <= self.hour < 24
        &&& 0 <= self.minute < 60
        &&& 0 <= self.second < 60
    }

    /// Whole days since the first of January 1970.
    pub open spec fn days(self) -> int {
        days_before_year(self.year) + days_before_month(self.year, self.month) + self.day - 1
            - epoch_day()
    }

    /// Seconds since the first of January 1970.
    pub open spec fn unix(self) -> int {
        self.days() * 86400 + self.hour * 3600 + self.minute * 60 + self.second
    }

    /// The year: four digits, or a sign and at least four digits where the
    /// year is not between 0 and 9999.
    pub open spec fn year_text(self) -> Seq<char> {
        if 0 <= self.year <= 9999 {
            four_digits(self.year)
        } else if self.year > 9999 {
            seq!['+'] + decimal(self.year as nat)
        } else if self.year >= -9999 {
            seq!['-'] + four_digits(-self.year)
        } else {
            seq!['-'] + decimal((-self.year) as nat)
        }
    }

    /// What follows the year.
    pub open spec fn rest_text(self) -> Seq<char> {
        seq!['-'] + two_digits(self.month) + seq!['-'] + two_digits(self.day) + seq!['T']
            + two_digits(self.hour) + seq![':'] + two_digits(self.minute) + seq![':'] + two_digits(
            self.second,
        ) + seq!['Z']
    }

    /// The RFC 3339 text with whole seconds and the suffix `Z`.
    pub open spec fn text(self) -> Seq<char> {
        self.year_text() + self.rest_text()
    }
}

/// The text names the second that lies `secs` after the first of January 1970.
pub open spec fn is_rfc3339(text: Seq<char>, secs: int) -> bool {
    exists|t: Civil| t.valid() && t.unix() == secs && text == #[trigger] t.text()
}

/// The RFC 3339 text of a second, given as seconds since 1970.
pub open spec fn rfc3339_of(secs: int) -> Seq<char> {
    (choose|t: Civil| t.valid() && #[trigger] t.unix() == secs).text()
}

/// The second lies in the years 0 to 9999, which are written with four digits.
pub open spec fn has_four_digit_year(secs: int) -> bool {
    -62167219200 <= secs <= 253402300799
}

/// A point in time, to the second.
#[derive(Debug, Clone, Copy)]
pub struct Timestamp {
    secs: i64,
}

impl Timestamp {
    #[verifier::type_invariant]
    spec fn in_range(self) -> bool {
        MIN_UNIX_SECS <= self.secs <= MAX_UNIX_SECS
    }

    /// Seconds since the first of January 1970.
    pub closed spec fn unix(self) -> int {
        self.secs as int
    }

    /// The point in time that lies `secs` seconds after the first of January
    /// 1970, or `None` outside the years that are supported.
    pub fn from_unix(secs: i64) -> (r: Option<Timestamp>)
        ensures
            match r {
                Some(t) => t.unix() == secs && MIN_UNIX_SECS <= secs <= MAX_UNIX_SECS,
                None => !(MIN_UNIX_SECS <= secs <= MAX_UNIX_SECS),
            },
    {
        if MIN_UNIX_SECS <= secs && secs <= MAX_UNIX_SECS {
            Some(Timestamp { secs })
        } else {
            None
        }
    }

    /// Seconds since the first of January 1970.
    pub fn unix_secs(self) -> (r: i64)
        ensures
            r == self.unix(),
            MIN_UNIX_SECS <= r <= MAX_UNIX_SECS,
    {
        proof {
            use_type_invariant(self);
        }
        self.secs
    }
}

/// Calls `chrono::DateTime::from_timestamp` and `to_rfc3339_opts` with whole
/// seconds and the suffix `Z`: the result is the RFC 3339 text of that second
/// in UTC. A year outside 0 to 9999 is written with a sign.
#[verifier::external_body]
fn chrono_rfc3339(secs: i64) -> (r: String)
    requires
        MIN_UNIX_SECS <= secs <= MAX_UNIX_SECS,
    ensures
        is_rfc3339(r@, secs as int),
{
    DateTime::<Utc>::from_timestamp(secs, 0).unwrap().to_rfc3339_opts(SecondsFormat::Secs, true)
}

/// The RFC 3339 text of a point in time, of whole seconds and with the suffix
/// `Z`, so that stored times can be compared and sorted as plain texts.
pub fn rfc3339_secs(t: Timestamp) -> (r: String)
    ensures
        r@ == rfc3339_of(t.unix()),
        is_rfc3339(r@, t.unix()),
{
    let secs: i64 = t.unix_secs();
    let r: String = chrono_rfc3339(secs);
    proof {
        rfc3339_is_unique(r@, secs as int);
    }
    r
}

// ---------------------------------------------------------------------
// The order of times
// ---------------------------------------------------------------------

proof fn year_step(year: int)
    ensures
        days_before_year(year + 1) == days_before_year(year) + (if is_leap(year) {
            366int
        } else {
            365
        }),
{
}

proof fn year_order(a: int, b: int)
    requires
        a < b,
    ensures
        days_before_year(a + 1) <= days_before_year(b),
    decreases b - a,
{
    if a + 1 < b {
        year_order(a, b - 1);
        year_step(b - 1);
    }
}

proof fn month_order(year: int, a: int, b: int)
    requires
        1 <= a < b,
    ensures
        days_before_month(year, a) + days_in_month(year, a) <= days_before_month(year, b),
    decreases b - a,
{
    if a + 1 < b {
        month_order(year, a, b - 1);
    }
}

proof fn year_length(year: int, month: int)
    requires
        1 <= month <= 12,
    ensures
        0 <= days_before_month(year, month),
        days_before_month(year, month) + days_in_month(year, month) <= (if is_leap(year) {
            366int
        } else {
            365
        }),
{
    reveal_with_fuel(days_before_month, 13);
}

/// The order of the fields.
spec fn earlier(a: Civil, b: Civil) -> bool {
    ||| a.year < b.year
    ||| a.year == b.year && a.month < b.month
    ||| a.year == b.year && a.month == b.month && a.day < b.day
    ||| a.year == b.year && a.month == b.month && a.day == b.day && a.hour < b.hour
    ||| a.year == b.year && a.month == b.month && a.day == b.day && a.hour == b.hour && a.minute
        < b.minute
    ||| a.year == b.year && a.month == b.month && a.day == b.day && a.hour == b.hour && a.minute
        == b.minute && a.second < b.second
}

proof fn earlier_is_less(a: Civil, b: Civil)
    requires
        a.valid(),
        b.valid(),
        earlier(a, b),
    ensures
        a.unix() < b.unix(),
{
    year_length(a.year, a.month);
    year_length(b.year, b.month);
    if a.year < b.year {
        year_step(a.year);
        year_order(a.year, b.year);
    } else if a.month < b.month {
        month_order(a.year, a.month, b.month);
    }
    if a.year < b.year || a.month < b.month || a.day < b.day {
        assert(a.days() < b.days());
    } else {
        assert(a.days() == b.days());
    }
}

proof fn civil_is_unique(a: Civil, b: Civil)
    requires
        a.valid(),
        b.valid(),
        a.unix() == b.unix(),
    ensures
        a == b,
{
    if earlier(a, b) {
        earlier_is_less(a, b);
    }
    if earlier(b, a) {
        earlier_is_less(b, a);
    }
}

proof fn rfc3339_is_unique(text: Seq<char>, secs: int)
    requires
        is_rfc3339(text, secs),
    ensures
        text == rfc3339_of(secs),
{
    let t = choose|t: Civil| t.valid() && t.unix() == secs && text == #[trigger] t.text();
    let u = choose|u: Civil| u.valid() && #[trigger] u.unix() == secs;
    assert(t.valid() && t.unix() == secs);
    civil_is_unique(t, u);
}

spec fn next_second(t: Civil) -> Civil {
    if t.second < 59 {
        Civil { second: t.second + 1, ..t }
    } else if t.minute < 59 {
        Civil { second: 0, minute: t.minute + 1, ..t }
    } else if t.hour < 23 {
        Civil { second: 0, minute: 0, hour: t.hour + 1, ..t }
    } else if t.day < days_in_month(t.year, t.month) {
        Civil { second: 0, minute: 0, hour: 0, day: t.day + 1, ..t }
    } else if t.month < 12 {
        Civil { second: 0, minute: 0, hour: 0, day: 1, month: t.month + 1, ..t }
    } else {
        Civil { second: 0, minute: 0, hour: 0, day: 1, month: 1, year: t.year + 1 }
    }
}

proof fn next_second_follows(t: Civil)
    requires
        t.valid(),
    ensures
        next_second(t).valid(),
        next_second(t).unix() == t.unix() + 1,
{
    reveal_with_fuel(days_before_month, 13);
    year_step(t.year);
    let n = next_second(t);
    if t.second < 59 || t.minute < 59 || t.hour < 23 {
        assert(n.days() == t.days());
    } else {
        assert(n.days() == t.days() + 1);
    }
}

spec fn last_second(t: Civil) -> Civil {
    if t.second > 0 {
        Civil { second: t.second - 1, ..t }
    } else if t.minute > 0 {
        Civil { second: 59, minute: t.minute - 1, ..t }
    } else if t.hour > 0 {
        Civil { second: 59, minute: 59, hour: t.hour - 1, ..t }
    } else if t.day > 1 {
        Civil { second: 59, minute: 59, hour: 23, day: t.day - 1, ..t }
    } else if t.month > 1 {
        Civil {
            second: 59,
            minute: 59,
            hour: 23,
            day: days_in_month(t.year, t.month - 1),
            month: t.month - 1,
            ..t
        }
    } else {
        Civil { second: 59, minute: 59, hour: 23, day: 31, month: 12, year: t.year - 1 }
    }
}

proof fn last_second_precedes(t: Civil)
    requires
        t.valid(),
    ensures
        last_second(t).valid(),
        last_second(t).unix() == t.unix() - 1,
{
    reveal_with_fuel(days_before_month, 13);
    year_step(t.year - 1);
    let n = last_second(t);
    if t.second > 0 || t.minute > 0 || t.hour > 0 {
        assert(n.days() == t.days());
    } else {
        assert(n.days() == t.days() - 1);
    }
}

proof fn civil_exists(secs: int) -> (t: Civil)
    ensures
        t.valid(),
        t.unix() == secs,
    decreases (if secs < 0 { -secs } else { secs }),
{
    if secs == 0 {
        Civil { year: 1970, month: 1, day: 1, hour: 0, minute: 0, second: 0 }
    } else if secs > 0 {
        let t = civil_exists(secs - 1);
        next_second_follows(t);
        next_second(t)
    } else {
        let t = civil_exists(secs + 1);
        last_second_precedes(t);
        last_second(t)
    }
}

/// Every second has an RFC 3339 text, and only one.
pub proof fn rfc3339_is_a_function(secs: int, text: Seq<char>)
    ensures
        is_rfc3339(text, secs) <==> text == rfc3339_of(secs),
{
    let t = civil_exists(secs);
    let u = choose|u: Civil| u.valid() && #[trigger] u.unix() == secs;
    assert(u.valid() && u.unix() == secs && rfc3339_of(secs) == u.text());
    if is_rfc3339(text, secs) {
        rfc3339_is_unique(text, secs);
    }
}

proof fn year_has_four_digits(t: Civil)
    requires
        t.valid(),
        has_four_digit_year(t.unix()),
    ensures
        0 <= t.year <= 9999,
{
    let first = Civil { year: 0, month: 1, day: 1, hour: 0, minute: 0, second: 0 };
    let last = Civil { year: 9999, month: 12, day: 31, hour: 23, minute: 59, second: 59 };
    assert(first.unix() == -62167219200 && last.unix() == 253402300799) by {
        reveal_with_fuel(days_before_month, 13);
    }
    if t.year < 0 {
        earlier_is_less(t, first);
    }
    if t.year > 9999 {
        earlier_is_less(last, t);
    }
}

proof fn first_difference_decides(a: Seq<u8>, b: Seq<u8>, k: int)
    requires
        0 <= k < a.len(),
        k < b.len(),
        forall|j: int| 0 <= j < k ==> a[j] == b[j],
        a[k] < b[k],
    ensures
        bytes_less(a, b),
    decreases k,
{
    if k > 0 {
        first_difference_decides(a.drop_first(), b.drop_first(), k - 1);
    }
}

/// A two-digit field at position `p` decides between two texts that agree on
/// what comes before it.
proof fn field_decides(a: Seq<char>, b: Seq<char>, p: int, x: int, y: int)
    requires
        is_ascii_chars(a),
        is_ascii_chars(b),
        0 <= p,
        p + 2 <= a.len(),
        p + 2 <= b.len(),
        0 <= x < y < 100,
        a.subrange(p, p + 2) == two_digits(x),
        b.subrange(p, p + 2) == two_digits(y),
        forall|j: int| 0 <= j < p ==> a[j] == b[j],
    ensures
        text_less(a, b),
{
    is_ascii_chars_encode_utf8(a);
    is_ascii_chars_encode_utf8(b);
    assert(a[p] == a.subrange(p, p + 2)[0] && a[p + 1] == a.subrange(p, p + 2)[1]);
    assert(b[p] == b.subrange(p, p + 2)[0] && b[p + 1] == b.subrange(p, p + 2)[1]);
    let ea = encode_utf8(a);
    let eb = encode_utf8(b);
    assert forall|j: int| 0 <= j < p implies ea[j] == eb[j] by {
        assert(a[j] == b[j]);
    }
    if x / 10 < y / 10 {
        first_difference_decides(ea, eb, p);
    } else {
        assert(ea[p] == eb[p]);
        assert forall|j: int| 0 <= j < p + 1 implies ea[j] == eb[j] by {}
        first_difference_decides(ea, eb, p + 1);
    }
}

/// The text of a second in a year of four digits has twenty characters, with
/// each field at its place.
proof fn text_layout(t: Civil)
    requires
        t.valid(),
        0 <= t.year <= 9999,
    ensures
        is_ascii_chars(t.text()),
        t.text().len() == 20,
        t.text().subrange(0, 2) == two_digits(t.year / 100),
        t.text().subrange(2, 4) == two_digits(t.year % 100),
        t.text().subrange(5, 7) == two_digits(t.month),
        t.text().subrange(8, 10) == two_digits(t.day),
        t.text().subrange(11, 13) == two_digits(t.hour),
        t.text().subrange(14, 16) == two_digits(t.minute),
        t.text().subrange(17, 19) == two_digits(t.second),
        t.text()[4] == '-',
        t.text()[7] == '-',
        t.text()[10] == 'T',
        t.text()[13] == ':',
        t.text()[16] == ':',
{
    let s = t.text();
    assert(s.subrange(0, 2) =~= two_digits(t.year / 100));
    assert(s.subrange(2, 4) =~= two_digits(t.year % 100));
    assert(s.subrange(5, 7) =~= two_digits(t.month));
    assert(s.subrange(8, 10) =~= two_digits(t.day));
    assert(s.subrange(11, 13) =~= two_digits(t.hour));
    assert(s.subrange(14, 16) =~= two_digits(t.minute));
    assert(s.subrange(17, 19) =~= two_digits(t.second));
    assert forall|i: int| 0 <= i < s.len() implies '\0' <= #[trigger] s[i] <= '\u{7f}' by {
        assert(s.len() == 20);
    }
}

/// Two texts agree on their first `n` characters.
spec fn agree(a: Seq<char>, b: Seq<char>, n: int) -> bool {
    &&& 0 <= n <= a.len()
    &&& n <= b.len()
    &&& forall|j: int| 0 <= j < n ==> a[j] == b[j]
}

/// Texts that agree before a field, in the field and in the character behind it
/// agree that far.
proof fn field_agrees(a: Seq<char>, b: Seq<char>, p: int)
    requires
        agree(a, b, p),
        p + 3 <= a.len(),
        p + 3 <= b.len(),
        a.subrange(p, p + 2) == b.subrange(p, p + 2),
        a[p + 2] == b[p + 2],
    ensures
        agree(a, b, p + 3),
{
    assert(a[p] == a.subrange(p, p + 2)[0] && a[p + 1] == a.subrange(p, p + 2)[1]);
    assert(b[p] == b.subrange(p, p + 2)[0] && b[p + 1] == b.subrange(p, p + 2)[1]);
}

/// The texts of two seconds of one year agree up to the month.
proof fn same_year_agrees(a: Civil, b: Civil)
    requires
        a.valid(),
        b.valid(),
        0 <= a.year <= 9999,
        a.year == b.year,
    ensures
        agree(a.text(), b.text(), 5),
{
    text_layout(a);
    text_layout(b);
    let (s, t) = (a.text(), b.text());
    assert forall|j: int| 0 <= j < 5 implies s[j] == t[j] by {
        assert(s.subrange(0, 2) == t.subrange(0, 2) && s.subrange(2, 4) == t.subrange(2, 4));
        if j < 2 {
            assert(s[j] == s.subrange(0, 2)[j] && t[j] == t.subrange(0, 2)[j]);
        } else if j < 4 {
            assert(s[j] == s.subrange(2, 4)[j - 2] && t[j] == t.subrange(2, 4)[j - 2]);
        }
    }
}

/// The text of an earlier year comes first.
proof fn earlier_year_sorts_first(a: Civil, b: Civil)
    requires
        a.valid(),
        b.valid(),
        0 <= a.year < b.year <= 9999,
    ensures
        text_less(a.text(), b.text()),
{
    text_layout(a);
    text_layout(b);
    let (s, t) = (a.text(), b.text());
    if a.year / 100 < b.year / 100 {
        field_decides(s, t, 0, a.year / 100, b.year / 100);
    } else {
        assert(s.subrange(0, 2) == t.subrange(0, 2));
        assert(s[0] == s.subrange(0, 2)[0] && s[1] == s.subrange(0, 2)[1]);
        assert(t[0] == t.subrange(0, 2)[0] && t[1] == t.subrange(0, 2)[1]);
        field_decides(s, t, 2, a.year % 100, b.year % 100);
    }
}

/// Within a year the text of an earlier day comes first.
proof fn earlier_day_sorts_first(a: Civil, b: Civil)
    requires
        a.valid(),
        b.valid(),
        0 <= a.year <= 9999,
        a.year == b.year,
        a.month < b.month || a.month == b.month && a.day < b.day,
    ensures
        text_less(a.text(), b.text()),
{
    text_layout(a);
    text_layout(b);
    same_year_agrees(a, b);
    let (s, t) = (a.text(), b.text());
    if a.month < b.month {
        field_decides(s, t, 5, a.month, b.month);
    } else {
        field_agrees(s, t, 5);
        field_decides(s, t, 8, a.day, b.day);
    }
}

/// Within a day the text of an earlier second comes first.
proof fn earlier_clock_sorts_first(a: Civil, b: Civil)
    requires
        a.valid(),
        b.valid(),
        0 <= a.year <= 9999,
        a.year == b.year,
        a.month == b.month,
        a.day == b.day,
        earlier(a, b),
    ensures
        text_less(a.text(), b.text()),
{
    text_layout(a);
    text_layout(b);
    same_year_agrees(a, b);
    let (s, t) = (a.text(), b.text());
    field_agrees(s, t, 5);
    field_agrees(s, t, 8);
    if a.hour < b.hour {
        field_decides(s, t, 11, a.hour, b.hour);
    } else {
        field_agrees(s, t, 11);
        if a.minute < b.minute {
            field_decides(s, t, 14, a.minute, b.minute);
        } else {
            field_agrees(s, t, 14);
            field_decides(s, t, 17, a.second, b.second);
        }
    }
}

/// The text of an earlier time comes first.
proof fn earlier_sorts_first(a: Civil, b: Civil)
    requires
        a.valid(),
        b.valid(),
        0 <= a.year <= 9999,
        0 <= b.year <= 9999,
        earlier(a, b),
    ensures
        text_less(a.text(), b.text()),
{
    if a.year < b.year {
        earlier_year_sorts_first(a, b);
    } else if a.month < b.month || a.day < b.day {
        earlier_day_sorts_first(a, b);
    } else {
        earlier_clock_sorts_first(a, b);
    }
}

/// Stored times sort like the times: among the years 0 to 9999 a text comes
/// before another exactly when its time is the earlier one.
pub proof fn rfc3339_sorts_like_time(a: int, b: int)
    requires
        has_four_digit_year(a),
        has_four_digit_year(b),
    ensures
        text_less(rfc3339_of(a), rfc3339_of(b)) <==> a < b,
        rfc3339_of(a) == rfc3339_of(b) <==> a == b,
{
    let t = civil_exists(a);
    let u = civil_exists(b);
    assert(is_rfc3339(t.text(), a));
    assert(is_rfc3339(u.text(), b));
    rfc3339_is_a_function(a, t.text());
    rfc3339_is_a_function(b, u.text());
    year_has_four_digits(t);
    year_has_four_digits(u);
    bytes_less_irreflexive(encode_utf8(t.text()));
    if earlier(t, u) {
        earlier_is_less(t, u);
        earlier_sorts_first(t, u);
    } else if earlier(u, t) {
        earlier_is_less(u, t);
        earlier_sorts_first(u, t);
        if text_less(t.text(), u.text()) {
            bytes_less_transitive(
                encode_utf8(t.text()),
                encode_utf8(u.text()),
                encode_utf8(t.text()),
            );
        }
    } else {
        assert(t == u);
    }
}

/// Two digits stand for their number.
proof fn two_digits_stand_for_the_number(n: int)
    requires
        0 <= n < 100,
    ensures
        two_digits(n).len() == 2,
        (two_digits(n)[0] as int - 48) * 10 + (two_digits(n)[1] as int - 48) == n,
        48 <= two_digits(n)[0] as int <= 57,
        48 <= two_digits(n)[1] as int <= 57,
        two_digits(n)[0] as int - 48 == n / 10,
        two_digits(n)[1] as int - 48 == n % 10,
{
}

/// What follows the year, place by place.
proof fn rest_text_by_place(t: Civil)
    ensures
        ({
            let rest = t.rest_text();
            &&& rest.len() == 16
            &&& rest[0] == '-'
            &&& rest[1] == two_digits(t.month)[0] && rest[2] == two_digits(t.month)[1]
            &&& rest[3] == '-'
            &&& rest[4] == two_digits(t.day)[0] && rest[5] == two_digits(t.day)[1]
            &&& rest[6] == 'T'
            &&& rest[7] == two_digits(t.hour)[0] && rest[8] == two_digits(t.hour)[1]
            &&& rest[9] == ':'
            &&& rest[10] == two_digits(t.minute)[0] && rest[11] == two_digits(t.minute)[1]
            &&& rest[12] == ':'
            &&& rest[13] == two_digits(t.second)[0] && rest[14] == two_digits(t.second)[1]
            &&& rest[15] == 'Z'
        }),
{
}

/// In the years 0 to 9999 the text of a second has its year in four digits, its month,
/// day, hour, minute and second in two, with the marks of RFC 3339 between them.
pub proof fn text_shows_the_fields(t: Civil)
    requires
        t.valid(),
        0 <= t.year <= 9999,
    ensures
        rfc3339_of(t.unix()).len() == 20,
        ({
            let text = rfc3339_of(t.unix());
            &&& (text[0] as int - 48) * 1000 + (text[1] as int - 48) * 100 + (text[2] as int - 48)
                * 10 + (text[3] as int - 48) == t.year
            &&& text[4] == '-'
            &&& (text[5] as int - 48) * 10 + (text[6] as int - 48) == t.month
            &&& text[7] == '-'
            &&& (text[8] as int - 48) * 10 + (text[9] as int - 48) == t.day
            &&& text[10] == 'T'
            &&& (text[11] as int - 48) * 10 + (text[12] as int - 48) == t.hour
            &&& text[13] == ':'
            &&& (text[14] as int - 48) * 10 + (text[15] as int - 48) == t.minute
            &&& text[16] == ':'
            &&& (text[17] as int - 48) * 10 + (text[18] as int - 48) == t.second
            &&& text[19] == 'Z'
            &&& forall|i: int|
                0 <= i < 20 && i != 4 && i != 7 && i != 10 && i != 13 && i != 16 && i != 19 ==> 48
                    <= (#[trigger] text[i]) as int <= 57
        }),
{
    rfc3339_is_unique(t.text(), t.unix());
    let (y, rest) = (t.year_text(), t.rest_text());
    rest_text_by_place(t);
    two_digits_stand_for_the_number(t.year / 100);
    two_digits_stand_for_the_number(t.year % 100);
    two_digits_stand_for_the_number(t.month);
    assert(t.day <= 31);
    two_digits_stand_for_the_number(t.day);
    two_digits_stand_for_the_number(t.hour);
    two_digits_stand_for_the_number(t.minute);
    two_digits_stand_for_the_number(t.second);
    let text = t.text();
    assert(y.len() == 4);
    assert(text.len() == 20);
    assert(forall|i: int| 0 <= i < 4 ==> #[trigger] text[i] == y[i]);
    assert(forall|i: int| 4 <= i < 20 ==> #[trigger] text[i] == rest[i - 4]);
    assert(y[0] == two_digits(t.year / 100)[0] && y[1] == two_digits(t.year / 100)[1]);
    assert(y[2] == two_digits(t.year % 100)[0] && y[3] == two_digits(t.year % 100)[1]);
}

/// The calendar counts from the start of 1970, and a `Timestamp` holds every second
/// from the start of the year -262143 to the end of the year 262142.
pub proof fn timestamps_cover_their_years()
    ensures
        (Civil { year: 1970, month: 1, day: 1, hour: 0, minute: 0, second: 0 }).unix() == 0,
        MIN_UNIX_SECS == (Civil {
            year: -262143,
            month: 1,
            day: 1,
            hour: 0,
            minute: 0,
            second: 0,
        }).unix(),
        MAX_UNIX_SECS == (Civil {
            year: 262142,
            month: 12,
            day: 31,
            hour: 23,
            minute: 59,
            second: 59,
        }).unix(),
        forall|secs: int|
            has_four_digit_year(secs) <==> (Civil {
                year: 0,
                month: 1,
                day: 1,
                hour: 0,
                minute: 0,
                second: 0,
            }).unix() <= secs <= (Civil {
                year: 9999,
                month: 12,
                day: 31,
                hour: 23,
                minute: 59,
                second: 59,
            }).unix(),
{
    reveal_with_fuel(days_before_month, 13);
}

} // verus!

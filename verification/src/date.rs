//! Deletion dates: `YYYY-MM-DDTHH:MM:SS`, read as UTC.

use crate::text;
use vstd::prelude::*;
use vstd::utf8::*;

verus! {

/// A leap year of the Gregorian calendar.
pub open spec fn leap(y: nat) -> bool {
    y % 4 == 0 && (y % 100 != 0 || y % 400 == 0)
}

/// The number of days in a year.
pub open spec fn year_length(y: nat) -> nat {
    if leap(y) {
        366
    } else {
        365
    }
}

/// The number of days in a month of a year; none in a month that there is not.
pub open spec fn month_length(y: nat, m: nat) -> nat {
    if m == 2 {
        if leap(y) {
            29
        } else {
            28
        }
    } else if m == 4 || m == 6 || m == 9 || m == 11 {
        30
    } else if 1 <= m <= 12 {
        31
    } else {
        0
    }
}

/// The days from the start of 1970 to the start of year `y`.
pub open spec fn days_before_year(y: nat) -> nat
    decreases y,
{
    if y <= 1970 {
        0
    } else {
        days_before_year((y - 1) as nat) + year_length((y - 1) as nat)
    }
}

/// The days from the start of year `y` to the start of its month `m`.
pub open spec fn days_before_month(y: nat, m: nat) -> nat
    decreases m,
{
    if m <= 1 {
        0
    } else {
        days_before_month(y, (m - 1) as nat) + month_length(y, (m - 1) as nat)
    }
}

/// The days from the start of 1970 to a day; day zero counts as day one.
pub open spec fn day_number(y: nat, m: nat, d: nat) -> nat {
    days_before_year(y) + days_before_month(y, m) + if d > 0 {
        (d - 1) as nat
    } else {
        0
    }
}

/// The seconds from the start of 1970 to the moment that the six fields year,
/// month, day, hour, minute and second name.
pub open spec fn moment(f: Seq<nat>) -> nat {
    day_number(f[0], f[1], f[2]) * 86400 + f[3] * 3600 + f[4] * 60 + f[5]
}

/// Where field `k` starts in the bytes of a date.
pub open spec fn field_start(k: int) -> int {
    if k == 0 {
        0
    } else {
        3 * k + 2
    }
}

/// Where field `k` ends in the bytes of a date.
pub open spec fn field_end(k: int) -> int {
    3 * k + 4
}

/// The bytes of field `k`.
pub open spec fn field_bytes(b: Seq<u8>, k: int) -> Seq<u8> {
    b.subrange(field_start(k), field_end(k))
}

/// The numbers that the first `n` fields write, where all of them are numbers.
pub open spec fn read_fields(b: Seq<u8>, n: nat) -> Option<Seq<nat>>
    decreases n,
{
    if n == 0 {
        Some(seq![])
    } else {
        match (read_fields(b, (n - 1) as nat), text::number_value(field_bytes(b, n - 1))) {
            (Some(f), Some(v)) => Some(f.push(v)),
            _ => None,
        }
    }
}

/// The six fields of a date text: its white space trimmed, it has at least
/// nineteen bytes, and the fields stand at their places, whatever stands
/// between them. A field with part of a character in it is no number.
pub open spec fn read_date(s: Seq<char>) -> Option<Seq<nat>> {
    let b = encode_utf8(text::trimmed(s));
    if b.len() < 19 {
        None
    } else {
        read_fields(b, 6)
    }
}

/// The seconds from the start of 1970 that a date text names.
pub open spec fn date_seconds(s: Seq<char>) -> Option<nat> {
    match read_date(s) {
        Some(f) => Some(moment(f)),
        None => None,
    }
}

/// Whether `y` is a leap year.
pub fn is_leap(y: u64) -> (r: bool)
    ensures
        r == leap(y as nat),
{
    y % 4 == 0 && (y % 100 != 0 || y % 400 == 0)
}

/// A row of at most four digits writes a number of at most four digits.
proof fn lemma_short_number(b: Seq<u8>)
    requires
        b.len() <= 4,
    ensures
        text::number_value(b) matches Some(n) ==> n <= 9999,
{
    reveal_with_fuel(text::digits_value, 6);
    let d = text::without_plus(b);
    if text::number_value(b) is Some {
        if d.len() >= 1 {
            assert(text::is_digit(d[0]));
        }
        if d.len() >= 2 {
            assert(text::is_digit(d[1]));
        }
        if d.len() >= 3 {
            assert(text::is_digit(d[2]));
        }
        if d.len() >= 4 {
            assert(text::is_digit(d[3]));
        }
    }
}

/// A field that cannot be read decides the whole reading.
proof fn lemma_reading_stops(b: Seq<u8>, n: nat, m: nat)
    requires
        n <= m,
        read_fields(b, n) is None,
    ensures
        read_fields(b, m) is None,
    decreases m,
{
    if n < m {
        lemma_reading_stops(b, n, (m - 1) as nat);
    }
}

/// Reads the six fields of a date text.
fn read(s: &str) -> (r: Option<Vec<u64>>)
    ensures
        match r {
            Some(v) => {
                &&& read_date(s@) == Some(v@.map_values(|x: u64| x as nat))
                &&& v@.len() == 6
                &&& forall|i: int| 0 <= i < 6 ==> #[trigger] v@[i] <= 9999
            },
            None => read_date(s@) is None,
        },
{
    let t = text::trim(s);
    let b = t.as_str().as_bytes();
    if b.len() < 19 {
        return None;
    }
    let mut v: Vec<u64> = Vec::new();
    let mut k: usize = 0;
    assert(v@.map_values(|x: u64| x as nat) =~= seq![]);
    while k < 6
        invariant
            k <= 6,
            b@ == encode_utf8(text::trimmed(s@)),
            b@.len() >= 19,
            v@.len() == k,
            forall|i: int| 0 <= i < k ==> #[trigger] v@[i] <= 9999,
            read_fields(b@, k as nat) == Some(v@.map_values(|x: u64| x as nat)),
        decreases 6 - k,
    {
        let from: usize = if k == 0 {
            0
        } else {
            3 * k + 2
        };
        let part = vstd::slice::slice_subrange(b, from, 3 * k + 4);
        assert(part@ == field_bytes(b@, k as int));
        proof {
            lemma_short_number(part@);
        }
        match text::parse_number(part) {
            Some(n) => {
                let ghost before = v@;
                v.push(n);
                assert(v@.map_values(|x: u64| x as nat) =~= before.map_values(
                    |x: u64| x as nat,
                ).push(n as nat));
            },
            None => {
                proof {
                    lemma_reading_stops(b@, (k + 1) as nat, 6);
                }
                return None;
            },
        }
        k += 1;
    }
    Some(v)
}

/// The days before a year, for a year of at most four digits.
fn count_days_before_year(year: u64) -> (days: u64)
    requires
        year <= 9999,
    ensures
        days == days_before_year(year as nat),
        days <= year * 366,
{
    let mut days: u64 = 0;
    let mut y: u64 = 1970;
    while y < year
        invariant
            year <= 9999,
            1970 <= y,
            y <= year || y == 1970,
            days == days_before_year(y as nat),
            days <= (y - 1970) * 366,
        decreases year - y,
    {
        days += if is_leap(y) {
            366
        } else {
            365
        };
        y += 1;
    }
    days
}

/// The days before a month of a year, for a month of at most four digits.
fn count_days_before_month(year: u64, month: u64) -> (days: u64)
    requires
        month <= 9999,
    ensures
        days == days_before_month(year as nat, month as nat),
        days <= month * 31,
{
    let mut days: u64 = 0;
    let mut m: u64 = 1;
    while m < month
        invariant
            month <= 9999,
            1 <= m,
            m <= month || m == 1,
            days == days_before_month(year as nat, m as nat),
            days <= (m - 1) * 31,
        decreases month - m,
    {
        let length: u64 = if m == 2 {
            if is_leap(year) {
                29
            } else {
                28
            }
        } else if m == 4 || m == 6 || m == 9 || m == 11 {
            30
        } else if m <= 12 {
            31
        } else {
            0
        };
        days += length;
        m += 1;
    }
    days
}

/// The seconds from the start of 1970, in UTC, to the moment that
/// `YYYY-MM-DDTHH:MM:SS` names.
pub fn parse_iso_datetime(s: &str) -> (r: Option<u64>)
    ensures
        match r {
            Some(t) => date_seconds(s@) == Some(t as nat),
            None => date_seconds(s@) is None,
        },
        r matches Some(t) ==> t < 0x1_0000_0000_0000,
{
    match read(s) {
        Some(v) => {
            assert(v@[0] <= 9999 && v@[1] <= 9999 && v@[2] <= 9999 && v@[3] <= 9999 && v@[4] <= 9999
                && v@[5] <= 9999);
            let before_year = count_days_before_year(v[0]);
            let before_month = count_days_before_month(v[0], v[1]);
            let days: u64 = before_year + before_month + v[2].saturating_sub(1);
            Some(days * 86400 + v[3] * 3600 + v[4] * 60 + v[5])
        },
        None => None,
    }
}

/// A day of the calendar, from 1970 on.
pub open spec fn is_day(y: nat, m: nat, d: nat) -> bool {
    y >= 1970 && 1 <= m <= 12 && 1 <= d <= month_length(y, m)
}

/// The six fields of a moment of the calendar, from 1970 on.
pub open spec fn is_moment(f: Seq<nat>) -> bool {
    f.len() == 6 && is_day(f[0], f[1], f[2]) && f[3] < 24 && f[4] < 60 && f[5] < 60
}

/// The fields of `f` from `k` on stand before those of `g`.
pub open spec fn fields_before(f: Seq<nat>, g: Seq<nat>, k: int) -> bool
    decreases 6 - k,
{
    if k >= 6 {
        false
    } else if f[k] != g[k] {
        f[k] < g[k]
    } else {
        fields_before(f, g, k + 1)
    }
}

/// The character that stands before field `k` of a date stamp.
pub open spec fn separator(k: int) -> u8 {
    if k <= 2 {
        45
    } else if k == 3 {
        84
    } else {
        58
    }
}

/// Field `k` of a date stamp is all digits, and the separator stands before it.
pub open spec fn stamp_field(b: Seq<u8>, k: int) -> bool {
    &&& forall|i: int| field_start(k) <= i < field_end(k) ==> text::is_digit(#[trigger] b[i])
    &&& k > 0 ==> b[field_start(k) - 1] == separator(k)
}

/// The six numbers of a date stamp.
pub open spec fn stamp_fields(b: Seq<u8>) -> Seq<nat> {
    Seq::new(6, |k: int| text::digits_value(field_bytes(b, k)))
}

/// A well-formed date: `YYYY-MM-DDTHH:MM:SS` with digits in its fields, naming
/// a moment of the calendar.
pub open spec fn is_stamp(s: Seq<char>) -> bool {
    let b = encode_utf8(s);
    &&& b.len() == 19
    &&& forall|k: int| 0 <= k < 6 ==> #[trigger] stamp_field(b, k)
    &&& is_moment(stamp_fields(b))
}

/// The months of a year add up to the year.
proof fn lemma_months_make_year(y: nat)
    ensures
        days_before_month(y, 13) == year_length(y),
{
    reveal_with_fuel(days_before_month, 14);
}

/// Later years start later.
proof fn lemma_years_grow(y: nat, z: nat)
    requires
        1970 <= y < z,
    ensures
        days_before_year(y) + year_length(y) <= days_before_year(z),
    decreases z,
{
    if y + 1 < z {
        lemma_years_grow(y, (z - 1) as nat);
    }
}

/// Later months start later.
proof fn lemma_months_grow(y: nat, m: nat, n: nat)
    requires
        1 <= m < n,
    ensures
        days_before_month(y, m) + month_length(y, m) <= days_before_month(y, n),
    decreases n,
{
    if m + 1 < n {
        lemma_months_grow(y, m, (n - 1) as nat);
    }
}

/// The day after a day is numbered one more: the count of days follows the
/// calendar through the ends of months and years.
pub proof fn law_next_day(y: nat, m: nat, d: nat)
    requires
        is_day(y, m, d),
    ensures
        day_number(1970, 1, 1) == 0,
        d < month_length(y, m) ==> day_number(y, m, d + 1) == day_number(y, m, d) + 1,
        d == month_length(y, m) && m < 12 ==> day_number(y, m + 1, 1) == day_number(y, m, d) + 1,
        d == month_length(y, m) && m == 12 ==> day_number(y + 1, 1, 1) == day_number(y, m, d) + 1,
{
    lemma_months_make_year(y);
}

/// Moments are numbered in the order of the calendar.
pub proof fn law_moments_are_ordered(f: Seq<nat>, g: Seq<nat>)
    requires
        is_moment(f),
        is_moment(g),
    ensures
        fields_before(f, g, 0) <==> moment(f) < moment(g),
{
    reveal_with_fuel(fields_before, 7);
    let (y, m, d) = (f[0], f[1], f[2]);
    let (z, n, e) = (g[0], g[1], g[2]);
    lemma_months_make_year(y);
    lemma_months_make_year(z);
    lemma_months_grow(y, m, 13);
    lemma_months_grow(z, n, 13);
    if y < z {
        lemma_years_grow(y, z);
    } else if z < y {
        lemma_years_grow(z, y);
    } else if m < n {
        lemma_months_grow(y, m, n);
    } else if n < m {
        lemma_months_grow(y, n, m);
    }
}

/// Byte rows that agree up to `k` are ordered by what follows.
proof fn lemma_same_start(a: Seq<u8>, b: Seq<u8>, k: int)
    requires
        0 <= k <= a.len(),
        k <= b.len(),
        a.take(k) == b.take(k),
    ensures
        text::bytes_before(a, b) == text::bytes_before(a.skip(k), b.skip(k)),
    decreases k,
{
    if k == 0 {
        assert(a.skip(0) =~= a);
        assert(b.skip(0) =~= b);
    } else {
        assert(a[0] == a.take(k)[0]);
        assert(b[0] == b.take(k)[0]);
        let (c, d) = (a.drop_first(), b.drop_first());
        assert(c.take(k - 1) =~= a.take(k).drop_first());
        assert(d.take(k - 1) =~= b.take(k).drop_first());
        lemma_same_start(c, d, k - 1);
        assert(c.skip(k - 1) =~= a.skip(k));
        assert(d.skip(k - 1) =~= b.skip(k));
    }
}

/// Byte rows that differ before `k` are ordered by their starts.
proof fn lemma_different_start(a: Seq<u8>, b: Seq<u8>, k: int)
    requires
        0 <= k <= a.len(),
        k <= b.len(),
        a.take(k) != b.take(k),
    ensures
        text::bytes_before(a, b) == text::bytes_before(a.take(k), b.take(k)),
    decreases k,
{
    if k == 0 {
        assert(a.take(0) =~= b.take(0));
    } else {
        let (p, q) = (a.take(k), b.take(k));
        if a[0] == b[0] {
            let (c, d) = (a.drop_first(), b.drop_first());
            assert(c.take(k - 1) =~= p.drop_first());
            assert(d.take(k - 1) =~= q.drop_first());
            if p.drop_first() == q.drop_first() {
                assert(p =~= seq![a[0]] + p.drop_first());
                assert(q =~= seq![b[0]] + q.drop_first());
            }
            lemma_different_start(c, d, k - 1);
        }
    }
}

/// Rows of digits of one length are ordered as the numbers that they write.
proof fn lemma_digits_are_ordered(a: Seq<u8>, b: Seq<u8>)
    requires
        a.len() == b.len(),
        forall|i: int| 0 <= i < a.len() ==> text::is_digit(#[trigger] a[i]),
        forall|i: int| 0 <= i < b.len() ==> text::is_digit(#[trigger] b[i]),
    ensures
        text::bytes_before(a, b) <==> text::digits_value(a) < text::digits_value(b),
        a == b <==> text::digits_value(a) == text::digits_value(b),
    decreases a.len(),
{
    if a.len() > 0 {
        let n = a.len() - 1;
        let (c, d) = (a.drop_last(), b.drop_last());
        assert(a.take(n) =~= c);
        assert(b.take(n) =~= d);
        assert(text::is_digit(a[n]) && text::is_digit(b[n]));
        lemma_digits_are_ordered(c, d);
        if c == d {
            lemma_same_start(a, b, n);
            assert(a.skip(n) =~= seq![a[n]]);
            assert(b.skip(n) =~= seq![b[n]]);
            assert(text::bytes_before(a, b) <==> a[n] < b[n]) by {
                reveal_with_fuel(text::bytes_before, 2);
            }
            assert(a =~= c.push(a[n]));
            assert(b =~= d.push(b[n]));
        } else {
            lemma_different_start(a, b, n);
            if a == b {
                assert(c =~= d);
            }
        }
    } else {
        assert(a =~= b);
    }
}

/// From field `k` on, stamps are ordered as the numbers that they write.
proof fn lemma_stamp_order(a: Seq<u8>, b: Seq<u8>, k: int)
    requires
        0 <= k <= 6,
        a.len() == 19,
        b.len() == 19,
        forall|j: int| 0 <= j < 6 ==> #[trigger] stamp_field(a, j),
        forall|j: int| 0 <= j < 6 ==> #[trigger] stamp_field(b, j),
    ensures
        k < 6 ==> text::bytes_before(a.skip(field_start(k)), b.skip(field_start(k)))
            == fields_before(stamp_fields(a), stamp_fields(b), k),
    decreases 6 - k,
{
    if k < 6 {
        let from = field_start(k);
        let to = field_end(k);
        let (p, q) = (field_bytes(a, k), field_bytes(b, k));
        let (c, d) = (a.skip(from), b.skip(from));
        assert(stamp_field(a, k) && stamp_field(b, k));
        assert forall|i: int| 0 <= i < p.len() implies text::is_digit(#[trigger] p[i]) by {
            assert(p[i] == a[from + i]);
        }
        assert forall|i: int| 0 <= i < q.len() implies text::is_digit(#[trigger] q[i]) by {
            assert(q[i] == b[from + i]);
        }
        lemma_digits_are_ordered(p, q);
        assert(c.take(to - from) =~= p);
        assert(d.take(to - from) =~= q);
        if p == q {
            lemma_same_start(c, d, to - from);
            assert(c.skip(to - from) =~= a.skip(to));
            assert(d.skip(to - from) =~= b.skip(to));
            if k == 5 {
                assert(a.skip(19) =~= seq![]);
                assert(b.skip(19) =~= seq![]);
                reveal_with_fuel(fields_before, 3);
            } else {
                assert(stamp_field(a, k + 1) && stamp_field(b, k + 1));
                assert(a.skip(to).take(1) =~= seq![separator(k + 1)]);
                assert(b.skip(to).take(1) =~= seq![separator(k + 1)]);
                lemma_same_start(a.skip(to), b.skip(to), 1);
                assert(a.skip(to).skip(1) =~= a.skip(field_start(k + 1)));
                assert(b.skip(to).skip(1) =~= b.skip(field_start(k + 1)));
                lemma_stamp_order(a, b, k + 1);
            }
        } else {
            lemma_different_start(c, d, to - from);
        }
    }
}

/// A character numbered below 128 is an ASCII character.
proof fn lemma_ascii_char(c: char)
    ensures
        c as u32 <= 0x7f ==> '\0' <= c <= '\u{7f}',
{
}

/// A text whose bytes are all below 128 is ASCII.
proof fn lemma_ascii_bytes(s: Seq<char>)
    requires
        forall|i: int| 0 <= i < encode_utf8(s).len() ==> #[trigger] encode_utf8(s)[i] < 128,
    ensures
        is_ascii_chars(s),
    decreases s.len(),
{
    if s.len() > 0 {
        let b = encode_utf8(s);
        let c = s[0] as u32;
        encode_utf8_first_scalar(s);
        assert(encode_scalar(c)[0] == b[0]);
        let rest = encode_utf8(s.drop_first());
        assert forall|i: int| 0 <= i < rest.len() implies #[trigger] rest[i] < 128 by {
            assert(rest[i] == b[encode_scalar(c).len() + i]);
        }
        lemma_ascii_bytes(s.drop_first());
        assert(is_leading_byte_width_1(b[0]));
        assert(codepoint_width_1(b[0]) == c);
        let x = b[0];
        assert(x <= 0x7f ==> (x & 0x7f) as u32 == x as u32) by (bit_vector);
        assert(c == x as u32);
        lemma_ascii_char(s[0]);
        assert forall|i: int| 0 <= i < s.len() implies '\0' <= #[trigger] s[i] <= '\u{7f}' by {
            if i > 0 {
                assert(s[i] == s.drop_first()[i - 1]);
            }
        }
    }
}

/// A stamp reads as the moment that its fields name.
pub proof fn law_stamp_is_read(s: Seq<char>)
    requires
        is_stamp(s),
    ensures
        date_seconds(s) == Some(moment(stamp_fields(encode_utf8(s)))),
{
    let b = encode_utf8(s);
    assert forall|i: int| 0 <= i < b.len() implies #[trigger] b[i] < 128 by {
        let k = if i < 4 {
            0
        } else {
            (i - 1) / 3
        };
        assert(stamp_field(b, k));
        assert(i == field_start(k) - 1 || field_start(k) <= i < field_end(k));
        if field_start(k) <= i < field_end(k) {
            assert(text::is_digit(b[i]));
        }
    }
    lemma_ascii_bytes(s);
    is_ascii_chars_encode_utf8(s);
    assert(stamp_field(b, 0) && stamp_field(b, 5));
    assert(text::is_digit(b[0]) && text::is_digit(b[18]));
    assert(s[0] as u8 == b[0] && s[18] as u8 == b[18]);
    assert('\0' <= s[0] <= '\u{7f}' && '\0' <= s[18] <= '\u{7f}');
    assert(!text::is_space(s.first()) && !text::is_space(s.last()));
    assert(text::trimmed(s) == s);
    lemma_stamp_fields_read(b, 6);
    assert(stamp_fields(b).take(6) =~= stamp_fields(b));
}

/// The first `n` fields of a stamp are read as the numbers that they write.
proof fn lemma_stamp_fields_read(b: Seq<u8>, n: nat)
    requires
        n <= 6,
        b.len() == 19,
        forall|k: int| 0 <= k < 6 ==> #[trigger] stamp_field(b, k),
    ensures
        read_fields(b, n) == Some(stamp_fields(b).take(n as int)),
    decreases n,
{
    let f = stamp_fields(b);
    if n == 0 {
        assert(f.take(0) =~= seq![]);
    } else {
        let k = n - 1;
        lemma_stamp_fields_read(b, k as nat);
        assert(stamp_field(b, k));
        let p = field_bytes(b, k);
        assert forall|i: int| 0 <= i < p.len() implies text::is_digit(#[trigger] p[i]) by {
            assert(p[i] == b[field_start(k) + i]);
        }
        assert(text::is_digit(p[0]));
        assert(text::without_plus(p) == p);
        assert(f.take(n as int) =~= f.take(k).push(f[k]));
    }
}

/// A text with a byte from 128 on is no number.
proof fn lemma_no_ascii_number(p: Seq<u8>, i: int)
    requires
        0 <= i < p.len(),
        p[i] >= 128,
    ensures
        text::number_value(p) is None,
{
    let d = text::without_plus(p);
    let k = if d == p {
        i
    } else {
        i - 1
    };
    assert(d[k] == p[i]);
    assert(!text::is_digit(d[k]));
}

/// What stands before a continuation byte belongs to the same character.
proof fn lemma_before_continuation(b: Seq<u8>, i: int)
    requires
        valid_utf8(b),
        0 < i < b.len(),
        is_continuation_byte(b[i]),
    ensures
        b[i - 1] >= 128,
    decreases b.len(),
{
    let n = length_of_first_scalar(b);
    let rest = pop_first_scalar(b);
    if i >= n {
        assert(rest[i - n] == b[i]);
        if i > n {
            assert(rest[i - n - 1] == b[i - 1]);
            lemma_before_continuation(rest, i - n);
        }
    }
}

/// A date text that cuts a character with the edge of a field names no moment.
pub proof fn law_cut_character_is_no_date(s: Seq<char>, k: int)
    requires
        0 <= k < 6,
        ({
            let b = encode_utf8(text::trimmed(s));
            !is_char_boundary(b, field_start(k)) || !is_char_boundary(b, field_end(k))
        }),
    ensures
        date_seconds(s) is None,
{
    let t = text::trimmed(s);
    let b = encode_utf8(t);
    if b.len() >= 19 {
        encode_utf8_valid_utf8(t);
        let (from, to) = (field_start(k), field_end(k));
        let p = field_bytes(b, k);
        assert(p[0] == b[from] && p[p.len() - 1] == b[to - 1]);
        if !is_char_boundary(b, from) {
            is_char_boundary_start_end_of_seq(b);
            is_char_boundary_iff_not_is_continuation_byte(b, from);
            lemma_no_ascii_number(p, 0);
        } else {
            is_char_boundary_start_end_of_seq(b);
            is_char_boundary_iff_not_is_continuation_byte(b, to);
            lemma_before_continuation(b, to);
            lemma_no_ascii_number(p, p.len() - 1);
        }
        lemma_reading_stops(b, (k + 1) as nat, 6);
    }
}

/// Of two stamps the one that stands first in the order of strings names the
/// earlier moment.
pub proof fn law_stamps_sort_by_time(s: Seq<char>, t: Seq<char>)
    requires
        is_stamp(s),
        is_stamp(t),
    ensures
        text::text_before(s, t) <==> date_seconds(s)->0 < date_seconds(t)->0,
{
    let (a, b) = (encode_utf8(s), encode_utf8(t));
    law_stamp_is_read(s);
    law_stamp_is_read(t);
    lemma_stamp_order(a, b, 0);
    assert(a.skip(0) =~= a);
    assert(b.skip(0) =~= b);
    law_moments_are_ordered(stamp_fields(a), stamp_fields(b));
}

/// The days before a year, counted without going through the years: 365 for
/// each, one more for every fourth, one less for every hundredth and one more
/// for every four hundredth of those that are over.
pub proof fn law_days_before_a_year(y: nat)
    ensures
        y <= 1970 ==> days_before_year(y) == 0,
        y > 1970 ==> days_before_year(y) == 365 * (y - 1970) + (y - 1) / 4 - (y - 1) / 100 + (y - 1)
            / 400 - 477,
    decreases y,
{
    if y > 1970 {
        law_days_before_a_year((y - 1) as nat);
        lemma_leap_days(y - 1);
    }
}

/// One more year is a fourth, a hundredth or a four hundredth just where it
/// divides.
proof fn lemma_leap_days(p: int)
    requires
        p >= 1,
    ensures
        p / 4 == (p - 1) / 4 + if p % 4 == 0 {
            1int
        } else {
            0
        },
        p / 100 == (p - 1) / 100 + if p % 100 == 0 {
            1int
        } else {
            0
        },
        p / 400 == (p - 1) / 400 + if p % 400 == 0 {
            1int
        } else {
            0
        },
        p % 400 == 0 ==> p % 100 == 0,
        p % 100 == 0 ==> p % 4 == 0,
{
    assert(p == 4 * (p / 4) + p % 4 && p - 1 == 4 * ((p - 1) / 4) + (p - 1) % 4);
    assert(p == 100 * (p / 100) + p % 100 && p - 1 == 100 * ((p - 1) / 100) + (p - 1) % 100);
    assert(p == 400 * (p / 400) + p % 400 && p - 1 == 400 * ((p - 1) / 400) + (p - 1) % 400);
    assert(p % 400 == 0 ==> p == 100 * (4 * (p / 400)));
    assert(p % 100 == 0 ==> p == 4 * (25 * (p / 100)));
}

/// The days before a month, counted without going through the months.
pub proof fn law_days_before_a_month(y: nat, m: nat)
    ensures
        ({
            let extra: int = if y % 4 == 0 && y % 100 != 0 || y % 400 == 0 {
                1
            } else {
                0
            };
            &&& m <= 1 ==> days_before_month(y, m) == 0
            &&& m == 2 ==> days_before_month(y, m) == 31
            &&& 3 <= m <= 12 ==> days_before_month(y, m) == (367 * m - 362) / 12 - 2 + extra
            &&& m > 12 ==> days_before_month(y, m) == 365 + extra
        }),
    decreases m,
{
    reveal_with_fuel(days_before_month, 14);
    if m > 13 {
        law_days_before_a_month(y, (m - 1) as nat);
    }
}

/// A date names the seconds from the start of 1970 that its six numbers say, and
/// it names some just where it is long enough and all six are numbers. What
/// stands between them and behind them does not matter.
pub proof fn law_date_counts_seconds(s: Seq<char>)
    ensures
        ({
            let b = encode_utf8(text::trimmed(s));
            let year = text::number_value(b.subrange(0, 4));
            let month = text::number_value(b.subrange(5, 7));
            let day = text::number_value(b.subrange(8, 10));
            let hour = text::number_value(b.subrange(11, 13));
            let minute = text::number_value(b.subrange(14, 16));
            let second = text::number_value(b.subrange(17, 19));
            let before_day: int = if day->0 > 1 {
                day->0 - 1
            } else {
                0
            };
            &&& date_seconds(s) is Some <==> b.len() >= 19 && year is Some && month is Some
                && day is Some && hour is Some && minute is Some && second is Some
            &&& date_seconds(s) is Some ==> date_seconds(s)->0 == 86400 * (days_before_year(year->0)
                + days_before_month(year->0, month->0) + before_day) + 3600 * hour->0 + 60
                * minute->0 + second->0
        }),
{
    let b = encode_utf8(text::trimmed(s));
    reveal_with_fuel(read_fields, 7);
    assert(field_bytes(b, 0) == b.subrange(0, 4));
    assert(field_bytes(b, 1) == b.subrange(5, 7));
    assert(field_bytes(b, 2) == b.subrange(8, 10));
    assert(field_bytes(b, 3) == b.subrange(11, 13));
    assert(field_bytes(b, 4) == b.subrange(14, 16));
    assert(field_bytes(b, 5) == b.subrange(17, 19));
}

/// White space around a date does not matter.
pub proof fn law_white_space_around_a_date(a: Seq<char>, s: Seq<char>, b: Seq<char>)
    requires
        forall|i: int| 0 <= i < a.len() ==> text::is_space(#[trigger] a[i]),
        forall|i: int| 0 <= i < b.len() ==> text::is_space(#[trigger] b[i]),
    ensures
        date_seconds(a + s + b) == date_seconds(s),
{
    text::law_white_space_around_does_not_matter(a, s, b);
}

} // verus!

//! Strings as sequences of characters: comparison, search, trimming, lines and
//! decimal numbers.

use vstd::prelude::*;
use vstd::utf8::*;

verus! {

/// `String::push` appends one character to the end of the string.
pub assume_specification[ String::push ](s: &mut String, c: char)
    ensures
        final(s)@ == old(s)@.push(c),
;

/// The texts of a list of strings.
pub open spec fn texts(v: Seq<String>) -> Seq<Seq<char>> {
    v.map_values(|s: String| s@)
}

/// `p` stands somewhere in `s`.
pub open spec fn has_part(s: Seq<char>, p: Seq<char>) -> bool {
    exists|i: int| 0 <= i <= s.len() - p.len() && #[trigger] s.subrange(i, i + p.len()) == p
}

/// The characters with the Unicode property White_Space.
pub open spec fn is_space(c: char) -> bool {
    ||| '\u{9}' <= c <= '\u{d}'
    ||| c == ' '
    ||| c == '\u{85}'
    ||| c == '\u{a0}'
    ||| c == '\u{1680}'
    ||| '\u{2000}' <= c <= '\u{200a}'
    ||| c == '\u{2028}'
    ||| c == '\u{2029}'
    ||| c == '\u{202f}'
    ||| c == '\u{205f}'
    ||| c == '\u{3000}'
}

/// `s` without the white space at its start.
pub open spec fn trim_start(s: Seq<char>) -> Seq<char>
    decreases s.len(),
{
    if s.len() > 0 && is_space(s.first()) {
        trim_start(s.drop_first())
    } else {
        s
    }
}

/// `s` without the white space at its end.
pub open spec fn trim_end(s: Seq<char>) -> Seq<char>
    decreases s.len(),
{
    if s.len() > 0 && is_space(s.last()) {
        trim_end(s.drop_last())
    } else {
        s
    }
}

/// `s` without the white space at either end.
pub open spec fn trimmed(s: Seq<char>) -> Seq<char> {
    trim_end(trim_start(s))
}

/// The first place of `c` in `s`, or the length of `s` where there is none.
pub open spec fn first_place(s: Seq<char>, c: char) -> int
    decreases s.len(),
{
    if s.len() == 0 || s.first() == c {
        0
    } else {
        1 + first_place(s.drop_first(), c)
    }
}

/// `s` without a carriage return at its end.
pub open spec fn without_return(s: Seq<char>) -> Seq<char> {
    if s.len() > 0 && s.last() == '\r' {
        s.drop_last()
    } else {
        s
    }
}

/// The lines of `s`. A line ends before a line feed, or before a carriage
/// return and a line feed; the last one may end with the text.
pub open spec fn lines(s: Seq<char>) -> Seq<Seq<char>>
    decreases s.len(),
{
    let k = first_place(s, '\n');
    if s.len() == 0 {
        seq![]
    } else if k < 0 || k >= s.len() {
        seq![s]
    } else {
        seq![without_return(s.take(k))] + lines(s.skip(k + 1))
    }
}

/// The character of one decimal digit.
pub open spec fn digit_char(d: nat) -> char {
    (48 + d) as char
}

/// `n` in decimal, without leading zeros.
pub open spec fn decimal(n: nat) -> Seq<char>
    decreases n,
{
    if n < 10 {
        seq![digit_char(n)]
    } else {
        decimal(n / 10).push(digit_char(n % 10))
    }
}

/// An ASCII digit.
pub open spec fn is_digit(b: u8) -> bool {
    48 <= b <= 57
}

/// The number that a row of ASCII digits writes.
pub open spec fn digits_value(b: Seq<u8>) -> nat
    decreases b.len(),
{
    if b.len() == 0 {
        0
    } else {
        digits_value(b.drop_last()) * 10 + (b.last() - 48) as nat
    }
}

/// `b` without one leading plus sign.
pub open spec fn without_plus(b: Seq<u8>) -> Seq<u8> {
    if b.len() > 0 && b.first() == 43 {
        b.drop_first()
    } else {
        b
    }
}

/// The number that `b` writes: an optional plus sign and at least one digit.
pub open spec fn number_value(b: Seq<u8>) -> Option<nat> {
    let d = without_plus(b);
    if d.len() > 0 && forall|i: int| 0 <= i < d.len() ==> is_digit(#[trigger] d[i]) {
        Some(digits_value(d))
    } else {
        None
    }
}

/// `a` stands before `b` in the order of their bytes.
pub open spec fn bytes_before(a: Seq<u8>, b: Seq<u8>) -> bool
    decreases a.len(),
{
    if b.len() == 0 {
        false
    } else if a.len() == 0 {
        true
    } else if a.first() != b.first() {
        a.first() < b.first()
    } else {
        bytes_before(a.drop_first(), b.drop_first())
    }
}

/// `a` stands before `b` in the order of strings.
pub open spec fn text_before(a: Seq<char>, b: Seq<char>) -> bool {
    bytes_before(encode_utf8(a), encode_utf8(b))
}

/// Two texts with the same encoding are the same text.
pub proof fn lemma_encoding_is_injective(a: Seq<char>, b: Seq<char>)
    requires
        encode_utf8(a) == encode_utf8(b),
    ensures
        a == b,
{
    encode_utf8_decode_utf8(a);
    encode_utf8_decode_utf8(b);
}

/// The characters of a string, in order.
pub fn chars_of(s: &str) -> (v: Vec<char>)
    ensures
        v@ == s@,
{
    let mut v: Vec<char> = Vec::new();
    for c in it: s.chars()
        invariant
            it.seq() == s@,
            v@ == s@.take(it.index() as int),
    {
        v.push(c);
    }
    v
}

/// The characters from `from` up to `to` as a string.
pub fn string_of(v: &[char], from: usize, to: usize) -> (s: String)
    requires
        from <= to <= v@.len(),
    ensures
        s@ == v@.subrange(from as int, to as int),
{
    let mut s = String::new();
    let mut i: usize = from;
    while i < to
        invariant
            from <= i <= to <= v@.len(),
            s@ == v@.subrange(from as int, i as int),
        decreases to - i,
    {
        s.push(v[i]);
        i += 1;
    }
    s
}

/// Whether two strings are the same text.
pub fn str_eq(a: &str, b: &str) -> (r: bool)
    ensures
        r == (a@ == b@),
{
    let x = a.as_bytes();
    let y = b.as_bytes();
    if x.len() != y.len() {
        return false;
    }
    let mut i: usize = 0;
    while i < x.len()
        invariant
            i <= x@.len(),
            x@.len() == y@.len(),
            x@ == encode_utf8(a@),
            y@ == encode_utf8(b@),
            forall|j: int| 0 <= j < i ==> x@[j] == y@[j],
        decreases x.len() - i,
    {
        if x[i] != y[i] {
            return false;
        }
        i += 1;
    }
    assert(x@ =~= y@);
    proof {
        lemma_encoding_is_injective(a@, b@);
    }
    true
}

/// Whether `s` starts with `p`.
pub fn starts_with(s: &str, p: &str) -> (r: bool)
    ensures
        r == p@.is_prefix_of(s@),
{
    let v = chars_of(s);
    let w = chars_of(p);
    v.len() >= w.len() && part_at(&v, &w, 0)
}

/// Whether `w` stands in `v` at place `at`.
fn part_at(v: &Vec<char>, w: &Vec<char>, at: usize) -> (r: bool)
    requires
        at + w@.len() <= v@.len(),
    ensures
        r == (v@.subrange(at as int, at + w@.len()) == w@),
{
    let mut i: usize = 0;
    while i < w.len()
        invariant
            i <= w@.len(),
            at + w@.len() <= v@.len(),
            forall|j: int| 0 <= j < i ==> v@[at + j] == w@[j],
        decreases w.len() - i,
    {
        assert(at + i < v.len());
        if v[at + i] != w[i] {
            assert(v@.subrange(at as int, at + w@.len())[i as int] != w@[i as int]);
            return false;
        }
        i += 1;
    }
    assert(v@.subrange(at as int, at + w@.len()) =~= w@);
    true
}

/// Whether `p` stands somewhere in `s`.
pub fn contains(s: &str, p: &str) -> (r: bool)
    ensures
        r == has_part(s@, p@),
{
    let v = chars_of(s);
    let w = chars_of(p);
    if v.len() < w.len() {
        return false;
    }
    let last: usize = v.len() - w.len();
    let mut at: usize = 0;
    loop
        invariant
            v@ == s@,
            w@ == p@,
            last == v@.len() - w@.len(),
            at <= last,
            forall|i: int| 0 <= i < at ==> #[trigger] s@.subrange(i, i + p@.len()) != p@,
        decreases last - at,
    {
        if part_at(&v, &w, at) {
            return true;
        }
        if at == last {
            return false;
        }
        at += 1;
    }
}

/// What follows the prefix `p` in `s`, where `s` starts with it.
pub fn strip_prefix(s: &str, p: &str) -> (r: Option<String>)
    ensures
        match r {
            Some(rest) => p@.is_prefix_of(s@) && rest@ == s@.skip(p@.len() as int),
            None => !p@.is_prefix_of(s@),
        },
{
    let v = chars_of(s);
    let w = chars_of(p);
    if v.len() >= w.len() && part_at(&v, &w, 0) {
        let rest = string_of(&v, w.len(), v.len());
        assert(rest@ =~= s@.skip(p@.len() as int));
        Some(rest)
    } else {
        None
    }
}

/// Whether a character has the property White_Space.
pub fn is_white_space(c: char) -> (r: bool)
    ensures
        r == is_space(c),
{
    ('\u{9}' <= c && c <= '\u{d}') || c == ' ' || c == '\u{85}' || c == '\u{a0}' || c == '\u{1680}'
        || ('\u{2000}' <= c && c <= '\u{200a}') || c == '\u{2028}' || c == '\u{2029}' || c
        == '\u{202f}' || c == '\u{205f}' || c == '\u{3000}'
}

/// `s` without the white space at either end.
pub fn trim(s: &str) -> (t: String)
    ensures
        t@ == trimmed(s@),
{
    let v = chars_of(s);
    let mut from: usize = 0;
    assert(s@.skip(0) =~= s@);
    while from < v.len() && is_white_space(v[from])
        invariant
            v@ == s@,
            from <= v@.len(),
            trim_start(s@) == trim_start(s@.skip(from as int)),
        decreases v.len() - from,
    {
        assert(s@.skip(from as int).drop_first() =~= s@.skip(from + 1));
        from += 1;
    }
    let mut to: usize = v.len();
    let ghost rest = s@.skip(from as int);
    assert(trim_start(s@) == rest);
    assert(s@.subrange(from as int, to as int) =~= rest);
    while from < to && is_white_space(v[to - 1])
        invariant
            v@ == s@,
            from <= to <= v@.len(),
            trim_end(rest) == trim_end(s@.subrange(from as int, to as int)),
        decreases to,
    {
        assert(s@.subrange(from as int, to as int).drop_last() =~= s@.subrange(
            from as int,
            to - 1,
        ));
        to -= 1;
    }
    string_of(&v, from, to)
}

/// The lines of `s`.
pub fn lines_of(s: &str) -> (r: Vec<String>)
    ensures
        texts(r@) == lines(s@),
{
    let v = chars_of(s);
    let mut r: Vec<String> = Vec::new();
    let mut start: usize = 0;
    assert(s@.skip(0) =~= s@);
    assert(texts(r@) + lines(s@) =~= lines(s@));
    while start < v.len()
        invariant
            v@ == s@,
            start <= v@.len(),
            texts(r@) + lines(s@.skip(start as int)) == lines(s@),
        decreases v.len() - start,
    {
        let ghost rest = s@.skip(start as int);
        let mut end: usize = start;
        assert(rest.skip(0) =~= rest);
        while end < v.len() && v[end] != '\n'
            invariant
                v@ == s@,
                start <= end <= v@.len(),
                rest == s@.skip(start as int),
                first_place(rest, '\n') == end - start + first_place(
                    s@.skip(end as int),
                    '\n',
                ),
            decreases v.len() - end,
        {
            assert(s@.skip(end as int).drop_first() =~= s@.skip(end + 1));
            end += 1;
        }
        let ghost k = (end - start) as int;
        let ghost before = r@;
        if end == v.len() {
            let line = string_of(&v, start, end);
            assert(line@ =~= rest);
            r.push(line);
            assert(texts(r@) =~= texts(before).push(rest));
            start = end;
            assert(s@.skip(start as int) =~= seq![]);
            assert(texts(r@) + lines(s@.skip(start as int)) =~= texts(before) + lines(rest));
        } else {
            let stop: usize = if end > start && v[end - 1] == '\r' {
                end - 1
            } else {
                end
            };
            let line = string_of(&v, start, stop);
            assert(line@ =~= without_return(rest.take(k)));
            r.push(line);
            assert(texts(r@) =~= texts(before).push(line@));
            start = end + 1;
            assert(s@.skip(start as int) =~= rest.skip(k + 1));
            assert(lines(rest) == seq![line@] + lines(rest.skip(k + 1)));
            assert(texts(r@) + lines(s@.skip(start as int)) =~= texts(before) + lines(rest));
        }
    }
    assert(s@.skip(start as int) =~= seq![]);
    assert(texts(r@) + lines(s@.skip(start as int)) =~= texts(r@));
    r
}

/// `n` in decimal.
pub fn decimal_of(n: u64) -> (s: String)
    ensures
        s@ == decimal(n as nat),
    decreases n,
{
    if n < 10 {
        let mut s = String::new();
        s.push((48u8 + n as u8) as char);
        assert(s@ =~= decimal(n as nat));
        s
    } else {
        let mut s = decimal_of(n / 10);
        s.push((48u8 + (n % 10) as u8) as char);
        s
    }
}

/// The number that `b` writes, where it fits.
pub fn parse_number(b: &[u8]) -> (r: Option<u64>)
    ensures
        match r {
            Some(n) => number_value(b@) == Some(n as nat),
            None => match number_value(b@) {
                Some(n) => n > u64::MAX,
                None => true,
            },
        },
{
    let start: usize = if b.len() > 0 && b[0] == 43 {
        1
    } else {
        0
    };
    let ghost d = without_plus(b@);
    assert(d =~= b@.skip(start as int));
    if start == b.len() {
        return None;
    }
    let mut n: u64 = 0;
    let mut i: usize = start;
    let mut fits: bool = true;
    while i < b.len()
        invariant
            start <= i <= b@.len(),
            d == without_plus(b@),
            d == b@.skip(start as int),
            forall|j: int| 0 <= j < i - start ==> is_digit(#[trigger] d[j]),
            fits ==> n == digits_value(d.take(i - start)),
            !fits ==> digits_value(d.take(i - start)) > u64::MAX,
        decreases b.len() - i,
    {
        let c = b[i];
        assert(d[i - start] == c);
        if c < 48 || c > 57 {
            assert(!is_digit(d[i - start]));
            return None;
        }
        assert(d.take(i + 1 - start).drop_last() =~= d.take(i - start));
        assert(digits_value(d.take(i + 1 - start)) == digits_value(d.take(i - start)) * 10 + (c
            - 48));
        if fits {
            match n.checked_mul(10) {
                Some(m) => match m.checked_add((c - 48) as u64) {
                    Some(k) => {
                        n = k;
                    },
                    None => {
                        fits = false;
                    },
                },
                None => {
                    fits = false;
                },
            }
        }
        i += 1;
    }
    assert(d.take(i - start) =~= d);
    if fits {
        Some(n)
    } else {
        None
    }
}

/// Whether `a` stands before `b` in the order of strings.
pub fn stands_before(a: &str, b: &str) -> (r: bool)
    ensures
        r == text_before(a@, b@),
{
    let x = a.as_bytes();
    let y = b.as_bytes();
    let mut i: usize = 0;
    assert(x@.skip(0) =~= x@);
    assert(y@.skip(0) =~= y@);
    loop
        invariant
            i <= x@.len(),
            i <= y@.len(),
            x@ == encode_utf8(a@),
            y@ == encode_utf8(b@),
            bytes_before(x@, y@) == bytes_before(x@.skip(i as int), y@.skip(i as int)),
        decreases x.len() - i,
    {
        if i == y.len() {
            return false;
        }
        if i == x.len() {
            return true;
        }
        if x[i] != y[i] {
            return x[i] < y[i];
        }
        assert(x@.skip(i as int).drop_first() =~= x@.skip(i + 1));
        assert(y@.skip(i as int).drop_first() =~= y@.skip(i + 1));
        i += 1;
    }
}

/// A text stands in another just where that one is something, the text, and
/// something else.
pub proof fn law_part_stands_between(s: Seq<char>, p: Seq<char>)
    ensures
        has_part(s, p) <==> exists|a: Seq<char>, b: Seq<char>| s == #[trigger] (a + p + b),
{
    if has_part(s, p) {
        let i = choose|i: int|
            0 <= i <= s.len() - p.len() && #[trigger] s.subrange(i, i + p.len()) == p;
        assert(s =~= s.take(i) + s.subrange(i, i + p.len()) + s.skip(i + p.len()));
        assert(s == s.take(i) + p + s.skip(i + p.len()));
    }
    if exists|a: Seq<char>, b: Seq<char>| s == #[trigger] (a + p + b) {
        let (a, b) = choose|a: Seq<char>, b: Seq<char>| s == #[trigger] (a + p + b);
        let i = a.len() as int;
        assert(s.subrange(i, i + p.len()) =~= p);
    }
}

/// Every character of the text is white space.
spec fn is_blank(s: Seq<char>) -> bool {
    forall|i: int| 0 <= i < s.len() ==> is_space(#[trigger] s[i])
}

/// What is trimmed off the start is white space, and none is left there.
proof fn lemma_trim_start(s: Seq<char>)
    ensures
        exists|k: int|
            0 <= k <= s.len() && is_blank(s.take(k)) && trim_start(s) == #[trigger] s.skip(k),
        trim_start(s).len() > 0 ==> !is_space(trim_start(s)[0]),
    decreases s.len(),
{
    if s.len() > 0 && is_space(s.first()) {
        let t = s.drop_first();
        lemma_trim_start(t);
        let k = choose|k: int|
            0 <= k <= t.len() && is_blank(t.take(k)) && trim_start(t) == #[trigger] t.skip(k);
        assert(s.skip(k + 1) =~= t.skip(k));
        assert forall|i: int| 0 <= i < k + 1 implies is_space(#[trigger] s.take(k + 1)[i]) by {
            if i > 0 {
                assert(t.take(k)[i - 1] == s[i]);
            }
        }
    } else {
        assert(s.skip(0) =~= s);
        assert(is_blank(s.take(0)));
    }
}

/// What is trimmed off the end is white space, and none is left there.
proof fn lemma_trim_end(s: Seq<char>)
    ensures
        exists|k: int|
            0 <= k <= s.len() && is_blank(s.skip(k)) && trim_end(s) == #[trigger] s.take(k),
        trim_end(s).len() > 0 ==> !is_space(trim_end(s).last()),
    decreases s.len(),
{
    if s.len() > 0 && is_space(s.last()) {
        let t = s.drop_last();
        lemma_trim_end(t);
        let k = choose|k: int|
            0 <= k <= t.len() && is_blank(t.skip(k)) && trim_end(t) == #[trigger] t.take(k);
        assert(s.take(k) =~= t.take(k));
        assert forall|i: int| 0 <= i < s.len() - k implies is_space(#[trigger] s.skip(k)[i]) by {
            if i < t.len() - k {
                assert(t.skip(k)[i] == s[k + i]);
            }
        }
    } else {
        assert(s.take(s.len() as int) =~= s);
        assert(is_blank(s.skip(s.len() as int)));
    }
}

/// Trimming takes white space off both ends, and all of it: a text is white
/// space, the trimmed text, and white space, and the trimmed text neither starts
/// nor ends with any.
pub proof fn law_trimming_takes_white_space_off(s: Seq<char>)
    ensures
        exists|i: int, j: int|
            0 <= i <= j <= s.len() && trimmed(s) == #[trigger] s.subrange(i, j) && (forall|k: int|
                0 <= k < i || j <= k < s.len() ==> is_space(#[trigger] s[k])),
        trimmed(s).len() > 0 ==> !is_space(trimmed(s)[0]) && !is_space(trimmed(s).last()),
{
    lemma_trim_start(s);
    let i = choose|k: int|
        0 <= k <= s.len() && is_blank(s.take(k)) && trim_start(s) == #[trigger] s.skip(k);
    let t = s.skip(i);
    lemma_trim_end(t);
    let n = choose|k: int|
        0 <= k <= t.len() && is_blank(t.skip(k)) && trim_end(t) == #[trigger] t.take(k);
    let j = i + n;
    assert(s.subrange(i, j) =~= t.take(n));
    assert forall|k: int| 0 <= k < i || j <= k < s.len() implies is_space(#[trigger] s[k]) by {
        if k < i {
            assert(s.take(i)[k] == s[k]);
        } else {
            assert(t.skip(n)[k - j] == s[k]);
        }
    }
    if trimmed(s).len() > 0 {
        assert(trimmed(s)[0] == t[0]);
    }
}

/// White space around a text does not matter to what trimming leaves.
pub proof fn law_white_space_around_does_not_matter(a: Seq<char>, s: Seq<char>, b: Seq<char>)
    requires
        forall|i: int| 0 <= i < a.len() ==> is_space(#[trigger] a[i]),
        forall|i: int| 0 <= i < b.len() ==> is_space(#[trigger] b[i]),
    ensures
        trimmed(a + s + b) == trimmed(s),
{
    assert(a + s + b =~= a + (s + b));
    lemma_trim_start_skips(a, s + b);
    lemma_trim_start(s);
    let k = choose|k: int|
        0 <= k <= s.len() && is_blank(s.take(k)) && trim_start(s) == #[trigger] s.skip(k);
    assert(s + b =~= s.take(k) + (s.skip(k) + b));
    lemma_trim_start_skips(s.take(k), s.skip(k) + b);
    let t = s.skip(k);
    if t.len() > 0 {
        assert((t + b).first() == t[0]);
        assert(trim_start(t + b) == t + b);
        lemma_trim_end_skips(t, b);
    } else {
        assert(t + b =~= b + Seq::<char>::empty());
        lemma_trim_start_skips(b, seq![]);
        assert(t =~= seq![]);
    }
}

/// White space at the start is trimmed off.
proof fn lemma_trim_start_skips(a: Seq<char>, s: Seq<char>)
    requires
        is_blank(a),
    ensures
        trim_start(a + s) == trim_start(s),
    decreases a.len(),
{
    if a.len() == 0 {
        assert(a + s =~= s);
    } else {
        let t = a.drop_first();
        assert forall|i: int| 0 <= i < t.len() implies is_space(#[trigger] t[i]) by {
            assert(t[i] == a[i + 1]);
        }
        lemma_trim_start_skips(t, s);
        assert((a + s).drop_first() =~= t + s);
        assert((a + s).first() == a[0]);
    }
}

/// White space at the end is trimmed off.
proof fn lemma_trim_end_skips(s: Seq<char>, b: Seq<char>)
    requires
        is_blank(b),
    ensures
        trim_end(s + b) == trim_end(s),
    decreases b.len(),
{
    if b.len() == 0 {
        assert(s + b =~= s);
    } else {
        let t = b.drop_last();
        assert forall|i: int| 0 <= i < t.len() implies is_space(#[trigger] t[i]) by {
            assert(t[i] == b[i]);
        }
        lemma_trim_end_skips(s, t);
        assert((s + b).drop_last() =~= s + t);
        assert((s + b).last() == b[b.len() - 1]);
    }
}

/// The first line of a text ends at its first line feed, and the rest of the
/// text has the other lines. One carriage return before the line feed goes with
/// it.
pub proof fn law_lines_end_at_line_feeds(line: Seq<char>, rest: Seq<char>)
    requires
        !line.contains('\n'),
    ensures
        lines(line + seq!['\n'] + rest) == seq![
            if line.len() > 0 && line.last() == '\r' {
                line.drop_last()
            } else {
                line
            },
        ] + lines(rest),
        line.len() > 0 ==> lines(line) == seq![line],
        line.len() == 0 ==> lines(line).len() == 0,
{
    let s = line + seq!['\n'] + rest;
    lemma_first_place_in(line, rest);
    assert(s.take(line.len() as int) =~= line);
    assert(s.skip((line.len() + 1) as int) =~= rest);
}

/// A line feed behind a text without one is the first.
proof fn lemma_first_place_in(line: Seq<char>, rest: Seq<char>)
    requires
        !line.contains('\n'),
    ensures
        first_place(line + seq!['\n'] + rest, '\n') == line.len(),
        first_place(line, '\n') == line.len(),
    decreases line.len(),
{
    let s = line + seq!['\n'] + rest;
    if line.len() == 0 {
        assert(s[0] == '\n');
    } else {
        assert(line.contains(line[0]));
        let tail = line.drop_first();
        assert forall|i: int| 0 <= i < tail.len() implies tail[i] != '\n' by {
            assert(line.contains(line[i + 1]));
        }
        lemma_first_place_in(tail, rest);
        assert(s.drop_first() =~= tail + seq!['\n'] + rest);
        assert(s[0] == line[0]);
    }
}

/// A number is a row of digits, each worth ten times the next, with or without
/// a plus sign before it.
pub proof fn law_digits_make_numbers(b: Seq<u8>, d: u8)
    ensures
        48 <= d <= 57 ==> number_value(seq![d]) == Some((d - 48) as nat),
        48 <= d <= 57 ==> number_value(seq![43u8, d]) == Some((d - 48) as nat),
        number_value(b) matches Some(v) ==> 48 <= d <= 57 ==> number_value(b.push(d)) == Some(
            (v * 10 + (d - 48)) as nat,
        ),
        !(48 <= d <= 57) && b.len() > 0 ==> number_value(b.push(d)) is None,
        b.len() > 1 && number_value(b) is None ==> number_value(b.push(d)) is None,
        !(48 <= d <= 57) ==> number_value(seq![d]) is None,
        b.len() == 0 ==> number_value(b) is None,
{
    reveal_with_fuel(digits_value, 2);
    let one = seq![d];
    assert(one.drop_last() =~= seq![]);
    assert(one.last() == d && one[0] == d);
    let signed = seq![43u8, d];
    assert(signed.drop_first() =~= one);
    if without_plus(one) != one {
        assert(without_plus(one).len() == 0);
    } else {
        assert(is_digit(without_plus(one)[0]) == (48 <= d <= 57));
    }
    if b.len() > 0 {
        let e = b.push(d);
        let (x, y) = (without_plus(b), without_plus(e));
        assert(y =~= x.push(d));
        assert(y.drop_last() =~= x);
        assert(y[x.len() as int] == d);
        if number_value(b) is Some && 48 <= d <= 57 {
            assert forall|i: int| 0 <= i < y.len() implies is_digit(#[trigger] y[i]) by {
                if i < x.len() {
                    assert(y[i] == x[i]);
                }
            }
        }
        if !(48 <= d <= 57) {
            assert(!is_digit(y[x.len() as int]));
        }
        if b.len() > 1 && number_value(b) is None {
            let i = choose|i: int| 0 <= i < x.len() && !is_digit(#[trigger] x[i]);
            assert(y[i] == x[i]);
        }
    }
}

/// A number that is written in decimal reads back, and is written without
/// leading zeros.
pub proof fn law_decimal_reads_back(n: nat)
    ensures
        number_value(encode_utf8(decimal(n))) == Some(n),
        forall|i: int| 0 <= i < decimal(n).len() ==> '0' <= #[trigger] decimal(n)[i] <= '9',
        decimal(n).len() > 0,
        decimal(n)[0] == '0' ==> decimal(n).len() == 1,
    decreases n,
{
    let s = decimal(n);
    let d = digit_char(n % 10);
    assert('0' <= d <= '9');
    if n >= 10 {
        law_decimal_reads_back(n / 10);
        let t = decimal(n / 10);
        assert(s =~= t.push(d));
        assert(s[0] == t[0]);
        if t.len() == 1 {
            assert(n / 10 > 0);
            lemma_one_digit(n / 10);
        }
        assert forall|i: int| 0 <= i < s.len() implies '0' <= #[trigger] s[i] <= '9' by {
            if i < t.len() {
                assert(s[i] == t[i]);
            }
        }
    } else {
        assert(s =~= seq![d]);
    }
    lemma_digits_are_bytes(s);
    let b = encode_utf8(s);
    if n >= 10 {
        let t = decimal(n / 10);
        lemma_digits_are_bytes(t);
        assert(b =~= encode_utf8(t).push((48 + n % 10) as u8));
        law_digits_make_numbers(encode_utf8(t), (48 + n % 10) as u8);
    } else {
        assert(b =~= seq![(48 + n) as u8]);
        law_digits_make_numbers(b, (48 + n) as u8);
    }
}

/// A number of one digit that is not zero does not start with a zero.
proof fn lemma_one_digit(n: nat)
    requires
        n > 0,
        decimal(n).len() == 1,
    ensures
        decimal(n)[0] != '0',
{
    if n >= 10 {
        assert(decimal(n).len() == decimal(n / 10).len() + 1);
        lemma_decimal_is_not_empty(n / 10);
    }
}

proof fn lemma_decimal_is_not_empty(n: nat)
    ensures
        decimal(n).len() > 0,
{
}

/// The bytes of a text of digits are the digits.
proof fn lemma_digits_are_bytes(s: Seq<char>)
    requires
        forall|i: int| 0 <= i < s.len() ==> '0' <= #[trigger] s[i] <= '9',
    ensures
        encode_utf8(s).len() == s.len(),
        forall|i: int| 0 <= i < s.len() ==> #[trigger] encode_utf8(s)[i] == s[i] as u8,
{
    assert(is_ascii_chars(s)) by {
        assert forall|i: int| 0 <= i < s.len() implies '\0' <= #[trigger] s[i] <= '\u{7f}' by {
            assert('0' <= s[i] <= '9');
        }
    }
    is_ascii_chars_encode_utf8(s);
}

/// Of two rows of bytes the first stands before the second just where they
/// agree up to a place at which the first ends and the second does not, or at
/// which the first has the smaller byte.
pub proof fn law_order_is_decided_at_the_first_difference(a: Seq<u8>, b: Seq<u8>)
    ensures
        bytes_before(a, b) <==> exists|k: int|
            0 <= k <= a.len() && k < b.len() && #[trigger] a.take(k) == b.take(k) && (k == a.len()
                || a[k] < b[k]),
    decreases a.len(),
{
    let (c, d) = (a.drop_first(), b.drop_first());
    if a.len() > 0 && b.len() > 0 && a[0] == b[0] {
        law_order_is_decided_at_the_first_difference(c, d);
        if bytes_before(a, b) {
            let k = choose|k: int|
                0 <= k <= c.len() && k < d.len() && #[trigger] c.take(k) == d.take(k) && (k
                    == c.len() || c[k] < d[k]);
            assert(a.take(k + 1) =~= seq![a[0]] + c.take(k));
            assert(b.take(k + 1) =~= seq![b[0]] + d.take(k));
        }
        if exists|k: int|
            0 <= k <= a.len() && k < b.len() && #[trigger] a.take(k) == b.take(k) && (k == a.len()
                || a[k] < b[k]) {
            let k = choose|k: int|
                0 <= k <= a.len() && k < b.len() && #[trigger] a.take(k) == b.take(k) && (k
                    == a.len() || a[k] < b[k]);
            assert(k > 0);
            assert(c.take(k - 1) =~= a.take(k).drop_first());
            assert(d.take(k - 1) =~= b.take(k).drop_first());
        }
    } else {
        assert(a.take(0) =~= b.take(0));
        if exists|k: int|
            0 <= k <= a.len() && k < b.len() && #[trigger] a.take(k) == b.take(k) && (k == a.len()
                || a[k] < b[k]) {
            let k = choose|k: int|
                0 <= k <= a.len() && k < b.len() && #[trigger] a.take(k) == b.take(k) && (k
                    == a.len() || a[k] < b[k]);
            if k > 0 {
                assert(a.take(k)[0] == b.take(k)[0]);
            }
        }
    }
}

/// The texts of a list of strings are the texts of each, in order.
pub proof fn law_texts_are_those_of_each(v: Seq<String>)
    ensures
        texts(v).len() == v.len(),
        forall|i: int| 0 <= i < v.len() ==> #[trigger] texts(v)[i] == v[i]@,
{
}

} // verus!

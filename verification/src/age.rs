//! Ages such as `7d`, `2w` or `1M`.

use crate::text;
use vstd::prelude::*;
use vstd::utf8::*;

verus! {

/// An ASCII letter.
pub open spec fn is_letter(c: char) -> bool {
    'a' <= c <= 'z' || 'A' <= c <= 'Z'
}

/// The seconds of one unit of age. A month counts thirty days and a year 365.
pub open spec fn unit_seconds(unit: char) -> Option<nat> {
    if unit == 's' {
        Some(1)
    } else if unit == 'm' {
        Some(60)
    } else if unit == 'h' {
        Some(3600)
    } else if unit == 'd' {
        Some(86400)
    } else if unit == 'w' {
        Some(604800)
    } else if unit == 'M' {
        Some(2592000)
    } else if unit == 'y' {
        Some(31536000)
    } else {
        None
    }
}

/// The number of an age: what stands before the letter at the end.
pub open spec fn age_number(s: Seq<char>) -> Seq<char> {
    if s.len() > 0 && is_letter(s.last()) {
        s.drop_last()
    } else {
        s
    }
}

/// The unit of an age: the letter at its end, or else days.
pub open spec fn age_unit(s: Seq<char>) -> char {
    if s.len() > 0 && is_letter(s.last()) {
        s.last()
    } else {
        'd'
    }
}

/// The seconds that an age names, where 64 bits can count them.
pub open spec fn age_seconds(s: Seq<char>) -> Option<nat> {
    let t = text::trimmed(s);
    match (text::number_value(encode_utf8(age_number(t))), unit_seconds(age_unit(t))) {
        (Some(n), Some(unit)) => if n * unit <= u64::MAX {
            Some(n * unit)
        } else {
            None
        },
        _ => None,
    }
}

/// The seconds that an age names. What is no age gives `None`, and so does an
/// age of more seconds than 64 bits can count.
pub fn parse_age(s: &str) -> (r: Option<u64>)
    ensures
        match r {
            Some(n) => age_seconds(s@) == Some(n as nat),
            None => age_seconds(s@) is None,
        },
{
    let t = text::trim(s);
    let v = text::chars_of(t.as_str());
    let n = v.len();
    let lettered: bool = n > 0 && (('a' <= v[n - 1] && v[n - 1] <= 'z') || ('A' <= v[n - 1] && v[n
        - 1] <= 'Z'));
    let unit: char = if lettered {
        v[n - 1]
    } else {
        'd'
    };
    let end: usize = if lettered {
        n - 1
    } else {
        n
    };
    let number = text::string_of(&v, 0, end);
    assert(number@ =~= age_number(t@));
    let seconds: u64 = match unit {
        's' => 1,
        'm' => 60,
        'h' => 3600,
        'd' => 86400,
        'w' => 604800,
        'M' => 2592000,
        'y' => 31536000,
        _ => {
            return None;
        },
    };
    match text::parse_number(number.as_str().as_bytes()) {
        Some(k) => {
            k.checked_mul(seconds)
        },
        None => {
            proof {
                if let Some(n) = text::number_value(encode_utf8(number@)) {
                    assert(n * seconds >= n) by (nonlinear_arith)
                        requires
                            seconds >= 1,
                    ;
                }
            }
            None
        },
    }
}

/// A number without a letter counts days.
pub proof fn law_bare_number_counts_days(s: Seq<char>)
    requires
        s.len() > 0,
        text::trimmed(s) == s,
        !is_letter(s.last()),
    ensures
        age_seconds(s) == age_seconds(s.push('d')),
{
    let t = s.push('d');
    lemma_trimmed_start(s);
    assert(t.first() == s.first());
    assert(text::trimmed(t) == t);
    assert(t.drop_last() =~= s);
}

/// A text that is trimmed does not start with white space.
proof fn lemma_trimmed_start(s: Seq<char>)
    requires
        s.len() > 0,
        text::trimmed(s) == s,
    ensures
        !text::is_space(s.first()),
{
    lemma_trim_shortens(s);
    lemma_trim_end_shortens(text::trim_start(s));
    if text::is_space(s.first()) {
        lemma_trim_shortens(s.drop_first());
    }
}

proof fn lemma_trim_shortens(s: Seq<char>)
    ensures
        text::trim_start(s).len() <= s.len(),
    decreases s.len(),
{
    if s.len() > 0 && text::is_space(s.first()) {
        lemma_trim_shortens(s.drop_first());
    }
}

proof fn lemma_trim_end_shortens(s: Seq<char>)
    ensures
        text::trim_end(s).len() <= s.len(),
    decreases s.len(),
{
    if s.len() > 0 && text::is_space(s.last()) {
        lemma_trim_end_shortens(s.drop_last());
    }
}

/// An age is a number and a letter that says of what: seconds, minutes, hours,
/// days, weeks, months of thirty days or years of 365; no other letter will do.
/// It is no age where 64 bits cannot count its seconds.
pub proof fn law_letter_says_of_what(s: Seq<char>, number: Seq<char>, letter: char)
    requires
        text::trimmed(s) == number.push(letter),
    ensures
        ({
            let n = text::number_value(encode_utf8(number));
            let seconds = |unit: nat| if n is Some && n->0 * unit <= 0xffff_ffff_ffff_ffff {
                Some((n->0 * unit) as nat)
            } else {
                None
            };
            &&& letter == 's' ==> age_seconds(s) == seconds(1)
            &&& letter == 'm' ==> age_seconds(s) == seconds(60)
            &&& letter == 'h' ==> age_seconds(s) == seconds(60 * 60)
            &&& letter == 'd' ==> age_seconds(s) == seconds(24 * 60 * 60)
            &&& letter == 'w' ==> age_seconds(s) == seconds(7 * 24 * 60 * 60)
            &&& letter == 'M' ==> age_seconds(s) == seconds(30 * 24 * 60 * 60)
            &&& letter == 'y' ==> age_seconds(s) == seconds(365 * 24 * 60 * 60)
            &&& ('a' <= letter <= 'z' || 'A' <= letter <= 'Z') && letter != 's' && letter != 'm'
                && letter != 'h' && letter != 'd' && letter != 'w' && letter != 'M' && letter != 'y'
                ==> age_seconds(s) is None
        }),
{
    let t = text::trimmed(s);
    assert(t.last() == letter);
    assert(t.drop_last() =~= number);
}

/// A text without a letter at its end is an age where it is a number: so many
/// days.
pub proof fn law_no_letter_says_days(s: Seq<char>)
    requires
        ({
            let t = text::trimmed(s);
            t.len() == 0 || !('a' <= t.last() <= 'z' || 'A' <= t.last() <= 'Z')
        }),
    ensures
        ({
            let n = text::number_value(encode_utf8(text::trimmed(s)));
            age_seconds(s) == if n is Some && n->0 * 86400 <= 0xffff_ffff_ffff_ffff {
                Some((n->0 * 86400) as nat)
            } else {
                None
            }
        }),
        text::trimmed(s).len() == 0 ==> age_seconds(s) is None,
{
    let t = text::trimmed(s);
    if t.len() == 0 {
        assert(encode_utf8(t) =~= seq![]);
        text::law_digits_make_numbers(encode_utf8(t), 0);
    }
}

/// White space around an age does not matter.
pub proof fn law_white_space_around_an_age(a: Seq<char>, s: Seq<char>, b: Seq<char>)
    requires
        forall|i: int| 0 <= i < a.len() ==> text::is_space(#[trigger] a[i]),
        forall|i: int| 0 <= i < b.len() ==> text::is_space(#[trigger] b[i]),
    ensures
        age_seconds(a + s + b) == age_seconds(s),
{
    text::law_white_space_around_does_not_matter(a, s, b);
}

} // verus!

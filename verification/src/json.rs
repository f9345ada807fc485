//! Text inside JSON strings.

use crate::text;
use vstd::prelude::*;

verus! {

/// The lower-case hexadecimal digit of a value below sixteen.
pub open spec fn hex_char(v: nat) -> char {
    if v < 10 {
        (48 + v) as char
    } else {
        (87 + v) as char
    }
}

/// How one character is written inside a JSON string.
pub open spec fn escaped_char(c: char) -> Seq<char> {
    if c == '"' {
        seq!['\\', '"']
    } else if c == '\\' {
        seq!['\\', '\\']
    } else if c == '\n' {
        seq!['\\', 'n']
    } else if c == '\r' {
        seq!['\\', 'r']
    } else if c == '\t' {
        seq!['\\', 't']
    } else if c <= '\u{1f}' {
        seq!['\\', 'u', '0', '0', hex_char(c as nat / 16), hex_char(c as nat % 16)]
    } else {
        seq![c]
    }
}

/// How a text is written inside a JSON string.
pub open spec fn json_escaped(s: Seq<char>) -> Seq<char>
    decreases s.len(),
{
    if s.len() == 0 {
        seq![]
    } else {
        json_escaped(s.drop_last()) + escaped_char(s.last())
    }
}

/// The value of one hexadecimal digit.
pub open spec fn hex_char_value(c: char) -> Option<nat> {
    if '0' <= c <= '9' {
        Some((c as nat - 48) as nat)
    } else if 'a' <= c <= 'f' {
        Some((c as nat - 87) as nat)
    } else if 'A' <= c <= 'F' {
        Some((c as nat - 55) as nat)
    } else {
        None
    }
}

/// The character that the first escape of `s`, or its first character, stands
/// for in a JSON string, and how many characters it takes. Quotation marks and
/// control characters cannot stand there as they are; surrogates cannot be
/// escaped one by one.
pub open spec fn first_json_char(s: Seq<char>) -> Option<(char, int)> {
    if s.len() == 0 || s[0] == '"' || s[0] <= '\u{1f}' {
        None
    } else if s[0] != '\\' {
        Some((s[0], 1))
    } else if s.len() < 2 {
        None
    } else if s[1] == '"' || s[1] == '\\' || s[1] == '/' {
        Some((s[1], 2))
    } else if s[1] == 'n' {
        Some(('\n', 2))
    } else if s[1] == 'r' {
        Some(('\r', 2))
    } else if s[1] == 't' {
        Some(('\t', 2))
    } else if s[1] == 'b' {
        Some(('\u{8}', 2))
    } else if s[1] == 'f' {
        Some(('\u{c}', 2))
    } else if s[1] == 'u' && s.len() >= 6 {
        match (
            hex_char_value(s[2]),
            hex_char_value(s[3]),
            hex_char_value(s[4]),
            hex_char_value(s[5]),
        ) {
            (Some(a), Some(b), Some(c), Some(d)) => {
                let v = ((a * 16 + b) * 16 + c) * 16 + d;
                if 0xd800 <= v <= 0xdfff {
                    None
                } else {
                    Some((v as char, 6))
                }
            },
            _ => None,
        }
    } else {
        None
    }
}

/// The text that the inside of a JSON string stands for, where it is one.
pub open spec fn json_text(s: Seq<char>) -> Option<Seq<char>>
    decreases s.len(),
{
    if s.len() == 0 {
        Some(seq![])
    } else {
        match first_json_char(s) {
            Some((c, width)) => match json_text(s.skip(width)) {
                Some(rest) => Some(seq![c] + rest),
                None => None,
            },
            None => None,
        }
    }
}

/// The lower-case hexadecimal digit of a value below sixteen.
fn hex_of(v: u8) -> (c: char)
    requires
        v < 16,
    ensures
        c == hex_char(v as nat),
{
    if v < 10 {
        (48 + v) as char
    } else {
        (87 + v) as char
    }
}

/// The number of a control character.
fn code_of(c: char) -> (n: u8)
    requires
        c <= '\u{1f}',
    ensures
        n == c as nat,
{
    (c as u32) as u8
}

/// Writes a text as it stands inside a JSON string.
pub fn json_escape(s: &str) -> (r: String)
    ensures
        r@ == json_escaped(s@),
{
    let v = text::chars_of(s);
    let mut out = String::new();
    let mut i: usize = 0;
    assert(s@.take(0) =~= seq![]);
    while i < v.len()
        invariant
            v@ == s@,
            i <= v@.len(),
            out@ == json_escaped(s@.take(i as int)),
        decreases v.len() - i,
    {
        let c = v[i];
        let ghost before = out@;
        if c == '"' {
            out.push('\\');
            out.push('"');
        } else if c == '\\' {
            out.push('\\');
            out.push('\\');
        } else if c == '\n' {
            out.push('\\');
            out.push('n');
        } else if c == '\r' {
            out.push('\\');
            out.push('r');
        } else if c == '\t' {
            out.push('\\');
            out.push('t');
        } else if c <= '\u{1f}' {
            let n: u8 = code_of(c);
            out.push('\\');
            out.push('u');
            out.push('0');
            out.push('0');
            out.push(hex_of(n / 16));
            out.push(hex_of(n % 16));
        } else {
            out.push(c);
        }
        assert(out@ =~= before + escaped_char(c));
        assert(s@.take(i + 1).drop_last() =~= s@.take(i as int));
        i += 1;
    }
    assert(s@.take(i as int) =~= s@);
    out
}

/// Escaping takes a text one character at a time, from the front as well.
proof fn lemma_escaped_front(s: Seq<char>)
    requires
        s.len() > 0,
    ensures
        json_escaped(s) == escaped_char(s[0]) + json_escaped(s.drop_first()),
    decreases s.len(),
{
    if s.len() == 1 {
        assert(s.drop_last() =~= seq![]);
        assert(s.drop_first() =~= seq![]);
        assert(json_escaped(s) =~= escaped_char(s[0]) + json_escaped(s.drop_first()));
    } else {
        let t = s.drop_last();
        lemma_escaped_front(t);
        assert(s.drop_first().drop_last() =~= t.drop_first());
        assert(json_escaped(s) =~= escaped_char(s[0]) + json_escaped(s.drop_first()));
    }
}

/// One escaped character is read back as that character.
proof fn lemma_char_reads_back(c: char, rest: Seq<char>)
    ensures
        first_json_char(escaped_char(c) + rest) == Some((c, escaped_char(c).len() as int)),
{
    let s = escaped_char(c) + rest;
    if c <= '\u{1f}' && c != '\n' && c != '\r' && c != '\t' {
        let n = c as nat;
        assert(s[4] == hex_char(n / 16) && s[5] == hex_char(n % 16));
        assert(hex_char_value(s[4]) == Some(n / 16));
        assert(hex_char_value(s[5]) == Some(n % 16));
        assert(hex_char_value('0') == Some(0nat));
    }
}

/// A text written inside a JSON string reads back as that text, whatever
/// characters are in it: no quotation mark ends the string early, and no
/// control character stands in it.
pub proof fn law_escaped_text_reads_back(s: Seq<char>)
    ensures
        json_text(json_escaped(s)) == Some(s),
    decreases s.len(),
{
    if s.len() > 0 {
        let e = escaped_char(s[0]);
        let rest = json_escaped(s.drop_first());
        lemma_escaped_front(s);
        lemma_char_reads_back(s[0], rest);
        law_escaped_text_reads_back(s.drop_first());
        assert((e + rest).skip(e.len() as int) =~= rest);
        assert(seq![s[0]] + s.drop_first() =~= s);
    } else {
        assert(s =~= seq![]);
    }
}

/// What a JSON text is made of, as far as it holds no number and no `null`.
#[verifier::ext_equal]
pub enum Token {
    /// One of the six marks that give a JSON text its structure.
    Mark(char),
    /// A string.
    Text(Seq<char>),
    /// `true` or `false`.
    Truth(bool),
}

/// The character is one of the six marks that give a JSON text its structure.
pub open spec fn is_mark(c: char) -> bool {
    c == '[' || c == ']' || c == '{' || c == '}' || c == ':' || c == ','
}

/// The character may stand anywhere between the tokens of a JSON text.
pub open spec fn is_blank(c: char) -> bool {
    c == ' ' || c == '\n' || c == '\r' || c == '\t'
}

/// The text of a JSON string whose opening quotation mark stands just before
/// `s`, and what stands behind its closing quotation mark.
pub open spec fn string_end(s: Seq<char>) -> Option<(Seq<char>, Seq<char>)>
    decreases s.len(),
{
    if s.len() > 0 && s[0] == '"' {
        Some((seq![], s.skip(1)))
    } else {
        match first_json_char(s) {
            Some((c, width)) => match string_end(s.skip(width)) {
                Some((text, rest)) => Some((seq![c] + text, rest)),
                None => None,
            },
            None => None,
        }
    }
}

/// What stands behind a JSON string is shorter than it is with the string.
pub proof fn lemma_string_end_shortens(s: Seq<char>)
    ensures
        string_end(s) matches Some((text, rest)) ==> rest.len() < s.len(),
    decreases s.len(),
{
    if s.len() > 0 && s[0] != '"' {
        if let Some((c, width)) = first_json_char(s) {
            lemma_string_end_shortens(s.skip(width));
        }
    }
}

/// Tokens, with others in front of them.
pub open spec fn led(front: Seq<Token>, rest: Option<Seq<Token>>) -> Option<Seq<Token>> {
    match rest {
        Some(t) => Some(front + t),
        None => None,
    }
}

/// The tokens of a JSON text, where it is made of such.
#[verifier::opaque]
pub open spec fn tokens(s: Seq<char>) -> Option<Seq<Token>>
    decreases s.len(),
{
    if s.len() == 0 {
        Some(seq![])
    } else if is_blank(s[0]) {
        tokens(s.skip(1))
    } else if is_mark(s[0]) {
        led(seq![Token::Mark(s[0])], tokens(s.skip(1)))
    } else if s[0] == '"' {
        proof {
            lemma_string_end_shortens(s.skip(1));
        }
        match string_end(s.skip(1)) {
            Some((text, rest)) => led(seq![Token::Text(text)], tokens(rest)),
            None => None,
        }
    } else if seq!['t', 'r', 'u', 'e'].is_prefix_of(s) {
        led(seq![Token::Truth(true)], tokens(s.skip(4)))
    } else if seq!['f', 'a', 'l', 's', 'e'].is_prefix_of(s) {
        led(seq![Token::Truth(false)], tokens(s.skip(5)))
    } else {
        None
    }
}

/// A text as a JSON string.
pub open spec fn quoted(s: Seq<char>) -> Seq<char> {
    seq!['"'] + json_escaped(s) + seq!['"']
}

/// A text written inside a JSON string ends at the closing quotation mark.
proof fn lemma_string_end(s: Seq<char>, rest: Seq<char>)
    ensures
        string_end(json_escaped(s) + seq!['"'] + rest) == Some((s, rest)),
    decreases s.len(),
{
    let all = json_escaped(s) + seq!['"'] + rest;
    if s.len() > 0 {
        let e = escaped_char(s[0]);
        let more = json_escaped(s.drop_first()) + seq!['"'] + rest;
        lemma_escaped_front(s);
        assert(all =~= e + more);
        lemma_char_reads_back(s[0], more);
        lemma_string_end(s.drop_first(), rest);
        assert((e + more).skip(e.len() as int) =~= more);
        assert(seq![s[0]] + s.drop_first() =~= s);
        assert(e[0] != '"' && all[0] == e[0]);
    } else {
        assert(s =~= seq![]);
        assert(all[0] == '"');
        assert(all.skip(1) =~= rest);
    }
}

/// A text as a JSON string is one token, whatever characters are in it and
/// whatever stands behind it.
pub proof fn law_quoted_text_is_one_token(s: Seq<char>, rest: Seq<char>)
    ensures
        tokens(quoted(s) + rest) == led(seq![Token::Text(s)], tokens(rest)),
{
    reveal(tokens);
    let all = quoted(s) + rest;
    lemma_string_end(s, rest);
    assert(all[0] == '"');
    assert(all.skip(1) =~= json_escaped(s) + seq!['"'] + rest);
}

/// A mark is one token.
pub proof fn lemma_mark(c: char, rest: Seq<char>)
    requires
        is_mark(c),
    ensures
        tokens(seq![c] + rest) == led(seq![Token::Mark(c)], tokens(rest)),
{
    reveal(tokens);
    assert((seq![c] + rest).skip(1) =~= rest);
}

/// A blank is no token.
pub proof fn lemma_blank(c: char, rest: Seq<char>)
    requires
        is_blank(c),
    ensures
        tokens(seq![c] + rest) == tokens(rest),
{
    reveal(tokens);
    assert((seq![c] + rest).skip(1) =~= rest);
}

/// Nothing holds no token.
pub proof fn lemma_no_tokens(s: Seq<char>)
    requires
        s.len() == 0,
    ensures
        tokens(s) == Some(Seq::<Token>::empty()),
{
    reveal(tokens);
}

/// How a truth value is written.
pub open spec fn truth_text(b: bool) -> Seq<char> {
    if b {
        "true"@
    } else {
        "false"@
    }
}

/// A truth value is one token.
pub proof fn lemma_truth(b: bool, rest: Seq<char>)
    ensures
        tokens(truth_text(b) + rest) == led(seq![Token::Truth(b)], tokens(rest)),
{
    reveal(tokens);
    reveal_strlit("true");
    reveal_strlit("false");
    let yes = seq!['t', 'r', 'u', 'e'];
    let no = seq!['f', 'a', 'l', 's', 'e'];
    let word = truth_text(b);
    assert("true"@ =~= yes && "false"@ =~= no);
    let all = word + rest;
    assert(all.skip(word.len() as int) =~= rest);
    assert(all.subrange(0, word.len() as int) =~= word);
    assert(all[0] == word[0]);
    if !b && yes.is_prefix_of(all) {
        assert(all.subrange(0, 4)[0] == yes[0]);
    }
}

/// A text without quotation marks, backslashes and control characters is
/// written as it is.
pub proof fn lemma_plain_text_is_not_escaped(s: Seq<char>)
    requires
        forall|i: int|
            0 <= i < s.len() ==> #[trigger] s[i] != '"' && s[i] != '\\' && !(s[i] <= '\u{1f}'),
    ensures
        json_escaped(s) == s,
    decreases s.len(),
{
    if s.len() > 0 {
        lemma_plain_text_is_not_escaped(s.drop_last());
        assert(s.drop_last() + seq![s.last()] =~= s);
    } else {
        assert(s =~= seq![]);
    }
}

/// A text is escaped character by character: quotation marks and backslashes
/// behind a backslash, line feeds, carriage returns and tabs by their letters,
/// the other characters before the space by their numbers, and all others as
/// they are.
pub proof fn law_characters_are_escaped_one_by_one(s: Seq<char>, c: char)
    ensures
        json_escaped(seq![]) == Seq::<char>::empty(),
        c == '"' ==> json_escaped(s.push(c)) == json_escaped(s) + seq!['\\', '"'],
        c == '\\' ==> json_escaped(s.push(c)) == json_escaped(s) + seq!['\\', '\\'],
        c == '\n' ==> json_escaped(s.push(c)) == json_escaped(s) + seq!['\\', 'n'],
        c == '\r' ==> json_escaped(s.push(c)) == json_escaped(s) + seq!['\\', 'r'],
        c == '\t' ==> json_escaped(s.push(c)) == json_escaped(s) + seq!['\\', 't'],
        c as nat >= 32 && c != '"' && c != '\\' ==> json_escaped(s.push(c)) == json_escaped(s).push(
            c,
        ),
        (c as nat) < 32 && c != '\n' && c != '\r' && c != '\t' ==> json_escaped(s.push(c))
            == json_escaped(s) + seq![
            '\\',
            'u',
            '0',
            '0',
            if c as nat >= 16 {
                '1'
            } else {
                '0'
            },
            if c as nat % 16 < 10 {
                (48 + c as nat % 16) as char
            } else {
                (87 + c as nat % 16) as char
            },
        ],
{
    let t = s.push(c);
    assert(t.drop_last() =~= s);
    assert(t.last() == c);
    assert(json_escaped(t) == json_escaped(s) + escaped_char(c));
    assert(json_escaped(s) + seq![c] =~= json_escaped(s).push(c));
}

} // verus!

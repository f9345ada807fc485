//! The `list` command.

use crate::age;
use crate::entries;
use crate::info::{Entry, TrashEntry};
use crate::json;
use crate::json::Token;
use crate::paths;
use crate::report;
use crate::report::Report;
use crate::text;
use vstd::prelude::*;

verus! {

/// What `list` is asked to show.
pub struct ListOptions {
    /// Only items that are at least this many seconds old.
    pub older_than: Option<u64>,
    /// Only items that were trashed from under the current directory.
    pub project: bool,
    /// As JSON.
    pub json: bool,
}

/// Why the arguments of `list` are refused.
pub enum ListArgError {
    MissingAge,
    InvalidAge(String),
    UnknownOption(String),
}

/// What comes of reading the arguments of `list`.
pub enum ListReading {
    Options(ListOptions),
    MissingAge,
    InvalidAge(Seq<char>),
    UnknownOption(Seq<char>),
}

/// Reads arguments of `list`, one after the other, up to the first that is
/// refused.
pub open spec fn read_list_args(args: Seq<Seq<char>>, o: ListOptions) -> ListReading
    decreases args.len(),
{
    if args.len() == 0 {
        ListReading::Options(o)
    } else if args[0] == "--older"@ {
        if args.len() < 2 {
            ListReading::MissingAge
        } else {
            match age::age_seconds(args[1]) {
                Some(n) => read_list_args(
                    args.skip(2),
                    ListOptions { older_than: Some(n as u64), ..o },
                ),
                None => ListReading::InvalidAge(args[1]),
            }
        }
    } else if args[0] == "--project"@ {
        read_list_args(args.skip(1), ListOptions { project: true, ..o })
    } else if args[0] == "--json"@ {
        read_list_args(args.skip(1), ListOptions { json: true, ..o })
    } else {
        ListReading::UnknownOption(args[0])
    }
}

/// What `list` shows unless it is told otherwise.
pub open spec fn list_defaults() -> ListOptions {
    ListOptions { older_than: None, project: false, json: false }
}

/// What comes of reading all arguments of `list`.
pub open spec fn list_reading(args: Seq<String>) -> ListReading {
    read_list_args(text::texts(args), list_defaults())
}

/// The reading that a result tells of.
pub open spec fn list_result(r: Result<ListOptions, ListArgError>) -> ListReading {
    match r {
        Ok(o) => ListReading::Options(o),
        Err(ListArgError::MissingAge) => ListReading::MissingAge,
        Err(ListArgError::InvalidAge(s)) => ListReading::InvalidAge(s@),
        Err(ListArgError::UnknownOption(s)) => ListReading::UnknownOption(s@),
    }
}

/// How an error is worded.
pub open spec fn list_error_text(e: ListArgError) -> Seq<char> {
    match e {
        ListArgError::MissingAge => "trash list: --older requires an age (e.g. 7d)"@,
        ListArgError::InvalidAge(s) => "trash list: invalid age '"@ + s@ + "'"@,
        ListArgError::UnknownOption(s) => "trash list: unknown option '"@ + s@ + "'"@,
    }
}

impl ListArgError {
    /// How the arguments are refused.
    pub fn report(&self) -> (r: Report)
        ensures
            r@ == report::refusal(list_error_text(*self)),
    {
        Report::refusal(self.message())
    }

    /// How the error is worded.
    pub fn message(&self) -> (s: String)
        ensures
            s@ == list_error_text(*self),
    {
        match self {
            ListArgError::MissingAge => {
                "trash list: --older requires an age (e.g. 7d)".to_owned()
            },
            ListArgError::InvalidAge(a) => {
                let mut s = "trash list: invalid age '".to_owned();
                s.append(a.as_str());
                s.append("'");
                s
            },
            ListArgError::UnknownOption(a) => {
                let mut s = "trash list: unknown option '".to_owned();
                s.append(a.as_str());
                s.append("'");
                s
            },
        }
    }
}

/// Reads the arguments of `list`.
pub fn parse_list_args(args: &[String]) -> (r: Result<ListOptions, ListArgError>)
    ensures
        list_result(r) == list_reading(args@),
{
    let ghost all = text::texts(args@);
    let mut o = ListOptions { older_than: None, project: false, json: false };
    let mut i: usize = 0;
    assert(all.skip(0) =~= all);
    while i < args.len()
        invariant
            i <= args@.len(),
            all == text::texts(args@),
            list_reading(args@) == read_list_args(all.skip(i as int), o),
        decreases args.len() - i,
    {
        let ghost rest = all.skip(i as int);
        let arg = args[i].as_str();
        assert(rest[0] == arg@);
        assert(rest.skip(1) =~= all.skip(i + 1));
        if text::str_eq(arg, "--older") {
            if args.len() - i < 2 {
                return Err(ListArgError::MissingAge);
            }
            let value = args[i + 1].as_str();
            assert(rest[1] == value@);
            assert(rest.skip(2) =~= all.skip(i + 2));
            match age::parse_age(value) {
                Some(n) => {
                    o = ListOptions { older_than: Some(n), ..o };
                },
                None => {
                    return Err(ListArgError::InvalidAge(args[i + 1].clone()));
                },
            }
            i += 2;
        } else if text::str_eq(arg, "--project") {
            o = ListOptions { project: true, ..o };
            i += 1;
        } else if text::str_eq(arg, "--json") {
            o = ListOptions { json: true, ..o };
            i += 1;
        } else {
            return Err(ListArgError::UnknownOption(args[i].clone()));
        }
    }
    assert(all.skip(i as int) =~= seq![]);
    Ok(o)
}

/// The item was deleted at least `age` seconds ago, or it is not known when.
pub open spec fn is_older(e: Entry, age: nat, now: int) -> bool {
    e.time matches Some(t) ==> now - t >= age
}

/// The item is shown.
pub open spec fn is_listed(e: Entry, o: ListOptions, now: int, cwd: Seq<char>) -> bool {
    &&& o.older_than matches Some(a) ==> is_older(e, a as nat, now)
    &&& o.project ==> paths::is_under(e.path, cwd)
}

/// The items that are shown, in their order.
pub open spec fn listed(s: Seq<Entry>, o: ListOptions, now: int, cwd: Seq<char>) -> Seq<Entry> {
    s.filter(|e: Entry| is_listed(e, o, now, cwd))
}

/// An item as a JSON object on a line of its own.
pub open spec fn json_item(e: Entry) -> Seq<char> {
    let path = if e.path.len() == 0 {
        "(trashed externally)"@
    } else {
        e.path
    };
    "\n  {\"name\":\""@ + json::json_escaped(e.name) + "\",\"path\":\""@ + json::json_escaped(path)
        + "\",\"date\":\""@ + json::json_escaped(e.date) + "\",\"in_trash\":"@ + (if e.exists {
        "true"@
    } else {
        "false"@
    }) + "}"@
}

/// Items as JSON objects with commas between them.
pub open spec fn json_items(s: Seq<Entry>) -> Seq<char>
    decreases s.len(),
{
    if s.len() == 0 {
        seq![]
    } else if s.len() == 1 {
        json_item(s[0])
    } else {
        json_items(s.drop_last()) + ","@ + json_item(s.last())
    }
}

/// A text with spaces behind it, up to a width.
pub open spec fn padded(s: Seq<char>, width: int) -> Seq<char>
    decreases width - s.len(),
{
    if s.len() >= width {
        s
    } else {
        padded(s.push(' '), width)
    }
}

/// A date in a column of nineteen characters, or that it is not known.
pub open spec fn date_column(date: Seq<char>) -> Seq<char> {
    if date.len() == 0 {
        "unknown     "@
    } else if date.len() > 19 {
        date.take(19)
    } else {
        padded(date, 19)
    }
}

/// An item as a line: its date, where it came from and whether it is missing.
pub open spec fn row(e: Entry) -> Seq<char> {
    date_column(e.date) + "  "@ + (if e.path.len() == 0 {
        e.name + " (trashed externally)"@
    } else {
        e.path
    }) + (if e.exists {
        seq![]
    } else {
        " [missing]"@
    }) + "\n"@
}

/// Items as lines.
pub open spec fn rows(s: Seq<Entry>) -> Seq<char>
    decreases s.len(),
{
    if s.len() == 0 {
        seq![]
    } else {
        rows(s.drop_last()) + row(s.last())
    }
}

/// What `list` prints of the items that it shows.
pub open spec fn list_output(s: Seq<Entry>, as_json: bool) -> Seq<char> {
    if as_json {
        "["@ + json_items(s) + "\n]\n"@
    } else if s.len() == 0 {
        "Trash is empty.\n"@
    } else {
        rows(s)
    }
}

/// Whether an item is at least `age` seconds old, as far as is known.
pub fn older(e: &TrashEntry, age: u64, now: i64) -> (r: bool)
    ensures
        r == is_older(e@, age as nat, now as int),
{
    match e.deletion_time {
        Some(t) => now >= 0 && t <= now as u64 && now as u64 - t >= age,
        None => true,
    }
}

/// Whether an item is shown.
fn shows(e: &TrashEntry, o: &ListOptions, now: i64, cwd: &str) -> (r: bool)
    ensures
        r == is_listed(e@, *o, now as int, cwd@),
{
    let old: bool = match o.older_than {
        Some(a) => older(e, a, now),
        None => true,
    };
    old && (!o.project || paths::stands_under(e.original_path.as_str(), cwd))
}

/// Appends an item as a JSON object.
fn push_json_item(out: &mut String, e: &TrashEntry)
    ensures
        final(out)@ == old(out)@ + json_item(e@),
{
    let ghost before = out@;
    out.append("\n  {\"name\":\"");
    out.append(json::json_escape(e.trash_filename.as_str()).as_str());
    out.append("\",\"path\":\"");
    if e.original_path.as_str().is_empty() {
        out.append(json::json_escape("(trashed externally)").as_str());
    } else {
        out.append(json::json_escape(e.original_path.as_str()).as_str());
    }
    out.append("\",\"date\":\"");
    out.append(json::json_escape(e.deletion_date.as_str()).as_str());
    out.append("\",\"in_trash\":");
    if e.exists_in_trash {
        out.append("true");
    } else {
        out.append("false");
    }
    out.append("}");
    assert(out@ =~= before + json_item(e@));
}

/// A date in a column of nineteen characters, or that it is not known.
fn date_cell(date: &str) -> (r: String)
    ensures
        r@ == date_column(date@),
{
    let v = text::chars_of(date);
    let mut n: usize = v.len();
    if n == 0 {
        return "unknown     ".to_owned();
    }
    if n > 19 {
        let r = text::string_of(&v, 0, 19);
        assert(r@ =~= date@.take(19));
        return r;
    }
    let mut r = date.to_owned();
    while n < 19
        invariant
            n == r@.len(),
            padded(r@, 19) == padded(date@, 19),
        decreases 19 - n,
    {
        r.push(' ');
        n += 1;
    }
    r
}

/// Appends an item as a line.
fn push_row(out: &mut String, e: &TrashEntry)
    ensures
        final(out)@ == old(out)@ + row(e@),
{
    let ghost before = out@;
    out.append(date_cell(e.deletion_date.as_str()).as_str());
    out.append("  ");
    if e.original_path.as_str().is_empty() {
        out.append(e.trash_filename.as_str());
        out.append(" (trashed externally)");
    } else {
        out.append(e.original_path.as_str());
    }
    if !e.exists_in_trash {
        out.append(" [missing]");
    }
    out.append("\n");
    assert(out@ =~= before + row(e@));
}

/// What `list` prints.
pub fn cmd_list(items: &[TrashEntry], o: &ListOptions, now: i64, cwd: &str) -> (out: String)
    ensures
        out@ == list_output(listed(entries::views(items@), *o, now as int, cwd@), o.json),
{
    let ghost all = entries::views(items@);
    let ghost show = |e: Entry| is_listed(e, *o, now as int, cwd@);
    let mut out = String::new();
    if o.json {
        out.append("[");
    }
    let ghost head = out@;
    let mut shown: usize = 0;
    let mut i: usize = 0;
    proof {
        reveal(Seq::filter);
        assert(all.take(0) =~= seq![]);
        assert(out@ =~= head + (if o.json {
            json_items(all.take(0).filter(show))
        } else {
            rows(all.take(0).filter(show))
        }));
    }
    while i < items.len()
        invariant
            i <= items@.len(),
            all == entries::views(items@),
            show == (|e: Entry| is_listed(e, *o, now as int, cwd@)),
            shown <= i,
            shown == all.take(i as int).filter(show).len(),
            out@ == head + (if o.json {
                json_items(all.take(i as int).filter(show))
            } else {
                rows(all.take(i as int).filter(show))
            }),
        decreases items.len() - i,
    {
        let ghost before = all.take(i as int).filter(show);
        let ghost after = all.take(i + 1).filter(show);
        assert(all.take(i + 1).drop_last() =~= all.take(i as int));
        assert(all[i as int] == items@[i as int]@);
        proof {
            reveal(Seq::filter);
        }
        if shows(&items[i], o, now, cwd) {
            assert(after == before.push(all[i as int]));
            assert(after.drop_last() =~= before);
            if o.json {
                if shown > 0 {
                    out.append(",");
                }
                push_json_item(&mut out, &items[i]);
                assert(out@ =~= head + json_items(after));
            } else {
                push_row(&mut out, &items[i]);
                assert(out@ =~= head + rows(after));
            }
            shown += 1;
        } else {
            assert(after == before);
        }
        i += 1;
    }
    assert(all.take(i as int) =~= all);
    if o.json {
        out.append("\n]\n");
    } else if shown == 0 {
        out.append("Trash is empty.\n");
        assert(out@ =~= "Trash is empty.\n"@);
    }
    assert(out@ =~= list_output(listed(all, *o, now as int, cwd@), o.json));
    out
}

/// What `list` reports; it never fails.
pub fn list_report(items: &[TrashEntry], o: &ListOptions, now: i64, cwd: &str) -> (r: Report)
    ensures
        r@ == report::success(
            list_output(listed(entries::views(items@), *o, now as int, cwd@), o.json),
        ),
{
    Report::success(cmd_list(items, o, now, cwd))
}

/// Without options every item is shown.
pub proof fn law_plain_list_shows_all(s: Seq<Entry>, now: int, cwd: Seq<char>)
    ensures
        listed(s, list_defaults(), now, cwd) == s,
    decreases s.len(),
{
    reveal(Seq::filter);
    if s.len() > 0 {
        law_plain_list_shows_all(s.drop_last(), now, cwd);
        assert(s.drop_last().push(s.last()) =~= s);
    } else {
        assert(listed(s, list_defaults(), now, cwd) =~= s);
    }
}

/// An age only ever hides items, and a greater age hides at least as many.
pub proof fn law_greater_age_shows_fewer(
    e: Entry,
    o: ListOptions,
    p: ListOptions,
    now: int,
    cwd: Seq<char>,
)
    requires
        o.project == p.project,
        p.older_than matches Some(b) && (o.older_than matches Some(a) ==> a <= b),
        is_listed(e, p, now, cwd),
    ensures
        is_listed(e, o, now, cwd),
{
}

/// The date takes the same room in every line, unless it is not known.
pub proof fn law_dates_take_one_column(date: Seq<char>)
    requires
        date.len() > 0,
    ensures
        date_column(date).len() == 19,
        date.len() >= 19 ==> date_column(date) == date.take(19),
{
    if date.len() <= 19 {
        lemma_padded(date, 19);
        assert(date.len() == 19 ==> date.take(19) =~= date);
    }
}

/// Padding fills up to the width.
proof fn lemma_padded(s: Seq<char>, width: int)
    requires
        s.len() <= width,
    ensures
        padded(s, width).len() == width,
        s.len() == width ==> padded(s, width) == s,
    decreases width - s.len(),
{
    if s.len() < width {
        lemma_padded(s.push(' '), width);
    }
}

/// An item as a JSON object.
pub open spec fn item_tokens(e: Entry) -> Seq<Token> {
    let path = if e.path.len() == 0 {
        "(trashed externally)"@
    } else {
        e.path
    };
    seq![
        Token::Mark('{'),
        Token::Text("name"@),
        Token::Mark(':'),
        Token::Text(e.name),
        Token::Mark(','),
        Token::Text("path"@),
        Token::Mark(':'),
        Token::Text(path),
        Token::Mark(','),
        Token::Text("date"@),
        Token::Mark(':'),
        Token::Text(e.date),
        Token::Mark(','),
        Token::Text("in_trash"@),
        Token::Mark(':'),
        Token::Truth(e.exists),
        Token::Mark('}'),
    ]
}

/// Items as JSON objects with commas between them.
pub open spec fn items_tokens(s: Seq<Entry>) -> Seq<Token>
    decreases s.len(),
{
    if s.len() == 0 {
        seq![]
    } else if s.len() == 1 {
        item_tokens(s[0])
    } else {
        items_tokens(s.drop_last()) + seq![Token::Mark(',')] + item_tokens(s.last())
    }
}

/// What stands between two values in an object: the end of a string, and the
/// name of the next value.
spec fn between(key: Seq<char>) -> Seq<char> {
    seq!['"', ','] + json::quoted(key) + seq![':']
}

/// Tokens in front of tokens in front of others are all in front of these.
proof fn lemma_led(a: Seq<Token>, b: Seq<Token>, rest: Option<Seq<Token>>)
    ensures
        json::led(a, json::led(b, rest)) == json::led(a + b, rest),
{
    if let Some(t) = rest {
        assert(a + (b + t) =~= (a + b) + t);
    }
}

/// A string value, and the name of the next value behind it.
proof fn lemma_value_and_key(value: Seq<char>, key: Seq<char>, rest: Seq<char>)
    ensures
        json::tokens(seq!['"'] + (json::json_escaped(value) + (between(key) + rest))) == json::led(
            seq![Token::Text(value), Token::Mark(','), Token::Text(key), Token::Mark(':')],
            json::tokens(rest),
        ),
{
    let r3 = seq![':'] + rest;
    let r2 = json::quoted(key) + r3;
    let r1 = seq![','] + r2;
    assert(between(key) + rest =~= seq!['"'] + r1);
    assert(seq!['"'] + (json::json_escaped(value) + (seq!['"'] + r1)) =~= json::quoted(value) + r1);
    json::law_quoted_text_is_one_token(value, r1);
    json::lemma_mark(',', r2);
    json::law_quoted_text_is_one_token(key, r3);
    json::lemma_mark(':', rest);
    if let Some(t) = json::tokens(rest) {
        assert(seq![Token::Text(value)] + (seq![Token::Mark(',')] + (seq![Token::Text(key)] + (seq![
            Token::Mark(':'),
        ] + t))) =~= seq![Token::Text(value), Token::Mark(','), Token::Text(key), Token::Mark(':')]
            + t);
    }
}

/// What an item's object starts with.
proof fn lemma_item_start(rest: Seq<char>)
    ensures
        json::tokens("\n  {\"name\":\""@ + rest) == json::led(
            seq![Token::Mark('{'), Token::Text("name"@), Token::Mark(':')],
            json::tokens(seq!['"'] + rest),
        ),
{
    reveal_strlit("\n  {\"name\":\"");
    reveal_strlit("name");
    json::lemma_plain_text_is_not_escaped("name"@);
    let r5 = seq!['"'] + rest;
    let r4 = seq![':'] + r5;
    let r3 = json::quoted("name"@) + r4;
    let r2 = seq!['{'] + r3;
    let r1 = seq![' '] + r2;
    let r0 = seq![' '] + r1;
    assert(json::quoted("name"@) =~= seq!['"', 'n', 'a', 'm', 'e', '"']);
    assert("\n  {\"name\":\""@ + rest =~= seq!['\n'] + r0);
    json::lemma_blank('\n', r0);
    json::lemma_blank(' ', r1);
    json::lemma_blank(' ', r2);
    json::lemma_mark('{', r3);
    json::law_quoted_text_is_one_token("name"@, r4);
    json::lemma_mark(':', r5);
    if let Some(t) = json::tokens(r5) {
        assert(seq![Token::Mark('{')] + (seq![Token::Text("name"@)] + (seq![Token::Mark(':')] + t))
            =~= seq![Token::Mark('{'), Token::Text("name"@), Token::Mark(':')] + t);
    }
}

/// The names of the other values are written as they are.
proof fn lemma_keys()
    ensures
        "\",\"path\":\""@ == between("path"@) + seq!['"'],
        "\",\"date\":\""@ == between("date"@) + seq!['"'],
        "\",\"in_trash\":"@ == between("in_trash"@),
        "}"@ == seq!['}'],
{
    reveal_strlit("\",\"path\":\"");
    reveal_strlit("\",\"date\":\"");
    reveal_strlit("\",\"in_trash\":");
    reveal_strlit("}");
    reveal_strlit("path");
    reveal_strlit("date");
    reveal_strlit("in_trash");
    json::lemma_plain_text_is_not_escaped("path"@);
    json::lemma_plain_text_is_not_escaped("date"@);
    json::lemma_plain_text_is_not_escaped("in_trash"@);
    assert("\",\"path\":\""@ =~= between("path"@) + seq!['"']);
    assert("\",\"date\":\""@ =~= between("date"@) + seq!['"']);
    assert("\",\"in_trash\":"@ =~= between("in_trash"@));
    assert("}"@ =~= seq!['}']);
}

/// Texts may be joined in any order.
proof fn lemma_joined(a: Seq<char>, b: Seq<char>, c: Seq<char>)
    ensures
        a + b + c == a + (b + c),
{
    assert(a + b + c =~= a + (b + c));
}

/// How an item is written, from its start.
proof fn lemma_item_from_start(e: Entry, path: Seq<char>, rest: Seq<char>)
    requires
        path == if e.path.len() == 0 {
            "(trashed externally)"@
        } else {
            e.path
        },
    ensures
        json_item(e) + rest == "\n  {\"name\":\""@ + (json::json_escaped(e.name) + (between(
            "path"@,
        ) + (seq!['"'] + (json::json_escaped(path) + (between("date"@) + (seq!['"'] + (
        json::json_escaped(e.date) + (between("in_trash"@) + (json::truth_text(e.exists) + (
        seq!['}'] + rest)))))))))),
{
    lemma_keys();
    let q = seq!['"'];
    let start = "\n  {\"name\":\""@;
    let a = json::json_escaped(e.name);
    let b = json::json_escaped(path);
    let d = json::json_escaped(e.date);
    let kb = between("path"@);
    let kd = between("date"@);
    let kt = between("in_trash"@);
    let t = json::truth_text(e.exists);
    let p1 = start + a;
    let p2 = p1 + (kb + q);
    let p3 = p2 + b;
    let p4 = p3 + (kd + q);
    let p5 = p4 + d;
    let p6 = p5 + kt;
    let p7 = p6 + t;
    assert(json_item(e) == p7 + seq!['}']);
    let r7 = seq!['}'] + rest;
    let r6 = t + r7;
    let r5 = kt + r6;
    let r4 = d + r5;
    let r3 = q + r4;
    let r2 = b + (kd + r3);
    let r1 = q + r2;
    lemma_joined(p7, seq!['}'], rest);
    lemma_joined(p6, t, r7);
    lemma_joined(p5, kt, r6);
    lemma_joined(p4, d, r5);
    lemma_joined(p3, kd + q, r4);
    lemma_joined(kd, q, r4);
    lemma_joined(p2, b, kd + r3);
    lemma_joined(p1, kb + q, r2);
    lemma_joined(kb, q, r2);
    lemma_joined(start, a, kb + r1);
}

/// An item reads as its object.
proof fn lemma_item_tokens(e: Entry, rest: Seq<char>)
    ensures
        json::tokens(json_item(e) + rest) == json::led(item_tokens(e), json::tokens(rest)),
{
    let path = if e.path.len() == 0 {
        "(trashed externally)"@
    } else {
        e.path
    };
    let q = seq!['"'];
    let r7 = seq!['}'] + rest;
    let r6 = json::truth_text(e.exists) + r7;
    let r4 = json::json_escaped(e.date) + (between("in_trash"@) + r6);
    let r2 = json::json_escaped(path) + (between("date"@) + (q + r4));
    let r0 = json::json_escaped(e.name) + (between("path"@) + (q + r2));
    lemma_item_from_start(e, path, rest);
    lemma_item_start(r0);
    lemma_value_and_key(e.name, "path"@, q + r2);
    lemma_value_and_key(path, "date"@, q + r4);
    lemma_value_and_key(e.date, "in_trash"@, r6);
    json::lemma_truth(e.exists, r7);
    json::lemma_mark('}', rest);
    let t0 = seq![Token::Mark('{'), Token::Text("name"@), Token::Mark(':')];
    let t1 = seq![Token::Text(e.name), Token::Mark(','), Token::Text("path"@), Token::Mark(':')];
    let t2 = seq![Token::Text(path), Token::Mark(','), Token::Text("date"@), Token::Mark(':')];
    let t3 = seq![Token::Text(e.date), Token::Mark(','), Token::Text("in_trash"@), Token::Mark(':')];
    let t4 = seq![Token::Truth(e.exists)];
    let t5 = seq![Token::Mark('}')];
    let end = json::tokens(rest);
    lemma_led(t4, t5, end);
    lemma_led(t3, t4 + t5, end);
    lemma_led(t2, t3 + (t4 + t5), end);
    lemma_led(t1, t2 + (t3 + (t4 + t5)), end);
    lemma_led(t0, t1 + (t2 + (t3 + (t4 + t5))), end);
    lemma_item_parts(e, path);
}

/// The tokens of an item, by the values in it.
proof fn lemma_item_parts(e: Entry, path: Seq<char>)
    requires
        path == if e.path.len() == 0 {
            "(trashed externally)"@
        } else {
            e.path
        },
    ensures
        item_tokens(e) == seq![Token::Mark('{'), Token::Text("name"@), Token::Mark(':')] + (seq![
            Token::Text(e.name),
            Token::Mark(','),
            Token::Text("path"@),
            Token::Mark(':'),
        ] + (seq![Token::Text(path), Token::Mark(','), Token::Text("date"@), Token::Mark(':')] + (
        seq![Token::Text(e.date), Token::Mark(','), Token::Text("in_trash"@), Token::Mark(':')] + (
        seq![Token::Truth(e.exists)] + seq![Token::Mark('}')])))),
{
}

/// Items read as their objects.
proof fn lemma_items_tokens(s: Seq<Entry>, rest: Seq<char>)
    ensures
        json::tokens(json_items(s) + rest) == json::led(items_tokens(s), json::tokens(rest)),
    decreases s.len(),
{
    reveal_strlit(",");
    if s.len() == 0 {
        assert(json_items(s) + rest =~= rest);
        if let Some(x) = json::tokens(rest) {
            assert(items_tokens(s) + x =~= x);
        }
    } else if s.len() == 1 {
        lemma_item_tokens(s[0], rest);
    } else {
        let last = json_item(s.last()) + rest;
        let more = seq![','] + last;
        assert(","@ =~= seq![',']);
        assert(json_items(s) + rest =~= json_items(s.drop_last()) + more);
        lemma_items_tokens(s.drop_last(), more);
        json::lemma_mark(',', last);
        lemma_item_tokens(s.last(), rest);
        if let Some(x) = json::tokens(rest) {
            assert(items_tokens(s.drop_last()) + (seq![Token::Mark(',')] + (item_tokens(s.last())
                + x)) =~= items_tokens(s) + x);
        }
    }
}

/// What `list` prints as JSON is an array with one object for each item that is
/// shown, in order, whatever characters their names, paths and dates hold.
pub proof fn law_json_list_is_an_array(s: Seq<Entry>)
    ensures
        json::tokens(list_output(s, true)) == Some(
            seq![Token::Mark('[')] + items_tokens(s) + seq![Token::Mark(']')],
        ),
{
    reveal_strlit("[");
    reveal_strlit("\n]\n");
    let none: Seq<char> = seq![];
    let close = seq![']'] + (seq!['\n'] + none);
    let tail = seq!['\n'] + close;
    let inner = json_items(s) + tail;
    assert("["@ =~= seq!['[']);
    assert("\n]\n"@ =~= tail);
    assert(list_output(s, true) =~= seq!['['] + inner);
    json::lemma_mark('[', inner);
    lemma_items_tokens(s, tail);
    json::lemma_blank('\n', close);
    json::lemma_mark(']', seq!['\n'] + none);
    json::lemma_blank('\n', none);
    json::lemma_no_tokens(none);
    assert(json::tokens(list_output(s, true))->0 =~= seq![Token::Mark('[')] + items_tokens(s) + seq![
        Token::Mark(']'),
    ]);
}

/// An item is shown just where every filter that is asked for lets it through:
/// under an age, one that is known to be younger is not, whatever else is asked
/// for; under `--project`, one from elsewhere is not.
pub proof fn law_every_filter_counts(e: Entry, o: ListOptions, now: int, cwd: Seq<char>)
    ensures
        e.time is Some && o.older_than is Some && now < e.time->0 + o.older_than->0 ==> !is_listed(
            e,
            o,
            now,
            cwd,
        ),
        o.project && !paths::is_under(e.path, cwd) ==> !is_listed(e, o, now, cwd),
        (o.older_than is None || e.time is None || e.time->0 + o.older_than->0 <= now) && (!o.project
            || paths::is_under(e.path, cwd)) ==> is_listed(e, o, now, cwd),
{
}

/// What is shown with an age and `--project` is what is shown with each of them
/// alone, in the same order; and asking for JSON makes no difference.
pub proof fn law_filters_combine(
    e: Entry,
    age: Option<u64>,
    project: bool,
    json: bool,
    other: bool,
    now: int,
    cwd: Seq<char>,
)
    ensures
        is_listed(e, ListOptions { older_than: age, project, json }, now, cwd) <==> is_listed(
            e,
            ListOptions { older_than: age, project: false, json: other },
            now,
            cwd,
        ) && is_listed(e, ListOptions { older_than: None, project, json: other }, now, cwd),
        is_listed(e, ListOptions { older_than: None, project: false, json }, now, cwd),
{
}

/// Each item is shown or not by itself, and those that are keep their order.
pub proof fn law_items_are_shown_one_by_one(
    s: Seq<Entry>,
    e: Entry,
    o: ListOptions,
    now: int,
    cwd: Seq<char>,
)
    ensures
        listed(seq![], o, now, cwd) == Seq::<Entry>::empty(),
        listed(s.push(e), o, now, cwd) == if is_listed(e, o, now, cwd) {
            listed(s, o, now, cwd).push(e)
        } else {
            listed(s, o, now, cwd)
        },
{
    reveal(Seq::filter);
    assert(s.push(e).drop_last() =~= s);
    let none = Seq::<Entry>::empty();
    assert(listed(none, o, now, cwd) =~= seq![]);
}

/// The table has one line for each item, in order, and says so where there is
/// none.
pub proof fn law_table_has_one_line_for_each_item(s: Seq<Entry>, e: Entry)
    ensures
        list_output(seq![], false) == "Trash is empty.\n"@,
        list_output(seq![e], false) == row(e),
        s.len() > 0 ==> list_output(s.push(e), false) == list_output(s, false) + row(e),
{
    assert(s.push(e).drop_last() =~= s);
    let one = seq![e];
    assert(one.drop_last() =~= seq![]);
    reveal_with_fuel(rows, 2);
    assert(rows(one) =~= row(e));
}

/// A line shows the date in nineteen characters, two spaces, and where the item
/// came from, or else its name and that it is not known; and it says where the
/// item is missing. Nothing else of the item shows.
pub proof fn law_lines_show_date_and_path(e: Entry)
    ensures
        ({
            let column = row(e).take(19);
            let from = if e.path.len() > 0 {
                e.path
            } else {
                e.name + " (trashed externally)"@
            };
            let end = if e.exists {
                "\n"@
            } else {
                " [missing]"@ + "\n"@
            };
            &&& e.date.len() == 0 ==> row(e) == "unknown     "@ + "  "@ + from + end
            &&& e.date.len() > 0 ==> row(e) == column + "  "@ + from + end
            &&& e.date.len() >= 19 ==> column == e.date.take(19)
            &&& 0 < e.date.len() < 19 ==> column.take(e.date.len() as int) == e.date && (forall|i: int|
                e.date.len() <= i < 19 ==> #[trigger] column[i] == ' ')
        }),
{
    let from = if e.path.len() > 0 {
        e.path
    } else {
        e.name + " (trashed externally)"@
    };
    let end = if e.exists {
        "\n"@
    } else {
        " [missing]"@ + "\n"@
    };
    let cell = date_column(e.date);
    assert(row(e) =~= cell + "  "@ + from + end);
    if e.date.len() > 0 {
        law_dates_take_one_column(e.date);
        assert(row(e).take(19) =~= cell);
        if e.date.len() <= 19 {
            lemma_padding_is_spaces(e.date, 19);
        }
    }
}

/// Padding leaves a text as it is and puts spaces behind it.
proof fn lemma_padding_is_spaces(s: Seq<char>, width: int)
    requires
        s.len() <= width,
    ensures
        padded(s, width).len() == width,
        padded(s, width).take(s.len() as int) == s,
        forall|i: int| s.len() <= i < width ==> #[trigger] padded(s, width)[i] == ' ',
    decreases width - s.len(),
{
    let p = padded(s, width);
    if s.len() < width {
        let t = s.push(' ');
        lemma_padding_is_spaces(t, width);
        assert(p.take(s.len() as int) =~= p.take(t.len() as int).take(s.len() as int));
        assert(t.take(s.len() as int) =~= s);
        assert(p[s.len() as int] == p.take(t.len() as int)[s.len() as int]);
    } else {
        assert(s.take(s.len() as int) =~= s);
    }
}

/// As JSON, each item is an object of four members, with a comma between one and
/// the next: its name, where it came from, its date as it is written down, and
/// whether it is still there.
pub proof fn law_json_shows_four_members(s: Seq<Entry>, e: Entry)
    ensures
        json::tokens(list_output(seq![], true)) == Some(seq![Token::Mark('['), Token::Mark(']')]),
        ({
            let from = if e.path.len() > 0 {
                e.path
            } else {
                "(trashed externally)"@
            };
            let before = json::tokens(list_output(s, true));
            let after = json::tokens(list_output(s.push(e), true));
            let object = seq![
                Token::Mark('{'),
                Token::Text("name"@),
                Token::Mark(':'),
                Token::Text(e.name),
                Token::Mark(','),
                Token::Text("path"@),
                Token::Mark(':'),
                Token::Text(from),
                Token::Mark(','),
                Token::Text("date"@),
                Token::Mark(':'),
                Token::Text(e.date),
                Token::Mark(','),
                Token::Text("in_trash"@),
                Token::Mark(':'),
                Token::Truth(e.exists),
                Token::Mark('}'),
            ];
            &&& before is Some && after is Some
            &&& before->0.len() >= 2
            &&& before->0.last() == Token::Mark(']')
            &&& s.len() == 0 ==> after->0 == before->0.drop_last() + object + seq![Token::Mark(']')]
            &&& s.len() > 0 ==> after->0 == before->0.drop_last() + seq![Token::Mark(',')] + object
                + seq![Token::Mark(']')]
        }),
{
    let none = Seq::<Entry>::empty();
    law_json_list_is_an_array(none);
    law_json_list_is_an_array(s);
    law_json_list_is_an_array(s.push(e));
    let open = seq![Token::Mark('[')];
    let close = seq![Token::Mark(']')];
    assert(open + items_tokens(none) + close =~= seq![Token::Mark('['), Token::Mark(']')]);
    let before = open + items_tokens(s) + close;
    assert(before.drop_last() =~= open + items_tokens(s));
    assert(s.push(e).drop_last() =~= s);
    if s.len() == 0 {
        assert(before.drop_last() + item_tokens(e) + close =~= open + items_tokens(s.push(e))
            + close);
    } else {
        assert(before.drop_last() + seq![Token::Mark(',')] + item_tokens(e) + close =~= open
            + items_tokens(s.push(e)) + close);
    }
}

/// Each word says one thing and leaves the others as they are, whatever stands
/// behind it: the last age counts, and the first word that is refused.
pub proof fn law_list_words_say_one_thing(
    o: ListOptions,
    value: Seq<char>,
    rest: Seq<Seq<char>>,
)
    ensures
        read_list_args(seq![], o) == ListReading::Options(o),
        read_list_args(seq!["--project"@] + rest, o) == read_list_args(
            rest,
            ListOptions { older_than: o.older_than, project: true, json: o.json },
        ),
        read_list_args(seq!["--json"@] + rest, o) == read_list_args(
            rest,
            ListOptions { older_than: o.older_than, project: o.project, json: true },
        ),
        age::age_seconds(value) matches Some(n) ==> read_list_args(
            seq!["--older"@, value] + rest,
            o,
        ) == read_list_args(
            rest,
            ListOptions { older_than: Some(n as u64), project: o.project, json: o.json },
        ),
        age::age_seconds(value) is None ==> read_list_args(seq!["--older"@, value] + rest, o)
            == ListReading::InvalidAge(value),
        read_list_args(seq!["--older"@], o) == ListReading::MissingAge,
        value != "--older"@ && value != "--project"@ && value != "--json"@ ==> read_list_args(
            seq![value] + rest,
            o,
        ) == ListReading::UnknownOption(value),
{
    reveal_strlit("--older");
    reveal_strlit("--project");
    reveal_strlit("--json");
    assert("--older"@.len() == 7 && "--project"@.len() == 9 && "--json"@.len() == 6);
    assert((seq!["--project"@] + rest).skip(1) =~= rest);
    assert((seq!["--json"@] + rest).skip(1) =~= rest);
    assert((seq!["--older"@, value] + rest).skip(2) =~= rest);
}

/// How each refusal of `list` is worded.
pub proof fn law_list_refusals(s: String)
    ensures
        list_error_text(ListArgError::MissingAge)
            == "trash list: --older requires an age (e.g. 7d)"@,
        list_error_text(ListArgError::InvalidAge(s)) == "trash list: invalid age '"@ + s@ + "'"@,
        list_error_text(ListArgError::UnknownOption(s)) == "trash list: unknown option '"@ + s@
            + "'"@,
        list_defaults() == (ListOptions { older_than: None, project: false, json: false }),
{
}

/// A run reads all arguments, from nothing, and hands on what it reads.
pub proof fn law_list_reads_all(args: Seq<String>, o: ListOptions, s: String)
    ensures
        list_reading(args) == read_list_args(
            Seq::new(args.len(), |i: int| args[i]@),
            ListOptions { older_than: None, project: false, json: false },
        ),
        list_result(Ok(o)) == ListReading::Options(o),
        list_result(Err(ListArgError::MissingAge)) == ListReading::MissingAge,
        list_result(Err(ListArgError::InvalidAge(s))) == ListReading::InvalidAge(s@),
        list_result(Err(ListArgError::UnknownOption(s))) == ListReading::UnknownOption(s@),
{
    assert(text::texts(args) =~= Seq::new(args.len(), |i: int| args[i]@));
}

} // verus!

//! `.trashinfo` files: where a trashed item came from, and when.

use crate::date;
use crate::paths;
use crate::percent;
use crate::text;
use vstd::prelude::*;
use vstd::utf8::*;

verus! {

/// An item of the trash.
pub struct TrashEntry {
    /// The item's name in the trash directory.
    pub trash_filename: String,
    /// The path that it was trashed from; empty where it is not known.
    pub original_path: String,
    /// The date of its deletion as it is written down; empty where there is none.
    pub deletion_date: String,
    /// The seconds from the start of 1970 to its deletion, where the date could
    /// be read.
    pub deletion_time: Option<u64>,
    /// Whether the item itself is still there.
    pub exists_in_trash: bool,
}

/// What there is to know of an item of the trash.
#[verifier::ext_equal]
pub struct Entry {
    pub name: Seq<char>,
    pub path: Seq<char>,
    pub date: Seq<char>,
    pub time: Option<nat>,
    pub exists: bool,
}

impl View for TrashEntry {
    type V = Entry;

    open spec fn view(&self) -> Entry {
        Entry {
            name: self.trash_filename@,
            path: self.original_path@,
            date: self.deletion_date@,
            time: match self.deletion_time {
                Some(t) => Some(t as nat),
                None => None,
            },
            exists: self.exists_in_trash,
        }
    }
}

/// The value of the last line that starts with `key`; empty where none does.
pub open spec fn last_value(lines: Seq<Seq<char>>, key: Seq<char>) -> Seq<char>
    decreases lines.len(),
{
    if lines.len() == 0 {
        seq![]
    } else if key.is_prefix_of(lines.last()) {
        lines.last().skip(key.len() as int)
    } else {
        last_value(lines.drop_last(), key)
    }
}

/// The path that a `.trashinfo` file writes down, still percent-encoded.
pub open spec fn written_path(content: Seq<char>) -> Seq<char> {
    last_value(text::lines(content), "Path="@)
}

/// The date that a `.trashinfo` file writes down.
pub open spec fn written_date(content: Seq<char>) -> Seq<char> {
    last_value(text::lines(content), "DeletionDate="@)
}

/// What the `.trashinfo` file at a path says of its item; nothing where it
/// gives no path.
pub open spec fn read_entry(file: Seq<char>, content: Seq<char>, exists: bool) -> Option<Entry> {
    let path = percent::percent_decoded(written_path(content));
    let date = written_date(content);
    if path.len() == 0 {
        None
    } else {
        Some(
            Entry {
                name: paths::path_stem(file),
                path,
                date,
                time: date::date_seconds(date),
                exists,
            },
        )
    }
}

/// A `.trashinfo` file with these values in its two lines.
pub open spec fn info_lines(path: Seq<char>, date: Seq<char>) -> Seq<char> {
    "[Trash Info]\nPath="@ + path + "\nDeletionDate="@ + date + "\n"@
}

/// A date, up to the end of its first line.
pub open spec fn date_line(date: Seq<char>) -> Seq<char> {
    without_returns(date.take(text::first_place(date, '\n')))
}

/// `s` without the carriage returns at its end.
pub open spec fn without_returns(s: Seq<char>) -> Seq<char>
    decreases s.len(),
{
    if s.len() > 0 && s.last() == '\r' {
        without_returns(s.drop_last())
    } else {
        s
    }
}

/// What is written down of an item: the path that it came from, percent-encoded,
/// and the date of its deletion.
pub open spec fn info_text(path: Seq<char>, date: Seq<char>) -> Seq<char> {
    info_lines(percent::percent_encoded(path), date_line(date))
}

/// No line starts with both keys.
proof fn lemma_keys_differ(line: Seq<char>)
    ensures
        !("Path="@.is_prefix_of(line) && "DeletionDate="@.is_prefix_of(line)),
{
    reveal_strlit("Path=");
    reveal_strlit("DeletionDate=");
    if "Path="@.is_prefix_of(line) && "DeletionDate="@.is_prefix_of(line) {
        assert(line.subrange(0, 5)[0] == line[0]);
        assert(line.subrange(0, 13)[0] == line[0]);
    }
}

/// The empty text stands for itself.
proof fn lemma_empty_path()
    ensures
        percent::percent_decoded(seq![]) == Seq::<char>::empty(),
{
    let b = encode_utf8(seq![]);
    assert(b =~= seq![]);
    assert(percent::unescaped(b) =~= seq![]);
    assert(decode_utf8(b) =~= seq![]);
}

/// The values of the path line and of the date line.
fn written_values(content: &str) -> (r: (String, String))
    ensures
        r.0@ == written_path(content@),
        r.1@ == written_date(content@),
{
    let lines = text::lines_of(content);
    let ghost all = text::texts(lines@);
    let mut path = String::new();
    let mut date = String::new();
    let mut i: usize = 0;
    assert(all.take(0) =~= seq![]);
    while i < lines.len()
        invariant
            all == text::texts(lines@),
            i <= lines@.len(),
            path@ == last_value(all.take(i as int), "Path="@),
            date@ == last_value(all.take(i as int), "DeletionDate="@),
        decreases lines.len() - i,
    {
        let line = lines[i].as_str();
        assert(all.take(i + 1).drop_last() =~= all.take(i as int));
        assert(all.take(i + 1).last() == line@);
        proof {
            lemma_keys_differ(line@);
        }
        match text::strip_prefix(line, "Path=") {
            Some(value) => {
                path = value;
            },
            None => {
                match text::strip_prefix(line, "DeletionDate=") {
                    Some(value) => {
                        date = value;
                    },
                    None => {},
                }
            },
        }
        i += 1;
    }
    assert(all.take(i as int) =~= all);
    (path, date)
}

/// What the `.trashinfo` file at a path says of its item.
pub fn read_trash_info(file: &str, content: &str, exists_in_trash: bool) -> (r: Option<TrashEntry>)
    ensures
        r is None <==> written_path(content@).len() == 0,
        match r {
            Some(e) => read_entry(file@, content@, exists_in_trash) == Some(e@),
            None => read_entry(file@, content@, exists_in_trash) is None,
        },
{
    let (path, deletion_date) = written_values(content);
    if path.as_str().is_empty() {
        proof {
            assert(path@ =~= seq![]);
            lemma_empty_path();
        }
        return None;
    }
    let original_path = percent::percent_decode(path.as_str());
    let trash_filename = paths::path_stem_of(file);
    let deletion_time = date::parse_iso_datetime(deletion_date.as_str());
    Some(
        TrashEntry { trash_filename, original_path, deletion_date, deletion_time, exists_in_trash },
    )
}

/// A date, up to the end of its first line.
fn first_line_of(date: &str) -> (r: String)
    ensures
        r@ == date_line(date@),
{
    let v = text::chars_of(date);
    let mut n: usize = 0;
    assert(v@.skip(0) =~= v@);
    while n < v.len() && v[n] != '\n'
        invariant
            n <= v@.len(),
            text::first_place(v@, '\n') == n + text::first_place(v@.skip(n as int), '\n'),
        decreases v.len() - n,
    {
        assert(v@.skip(n as int).first() == v@[n as int]);
        assert(v@.skip(n as int).drop_first() =~= v@.skip(n + 1));
        n += 1;
    }
    if n < v.len() {
        assert(v@.skip(n as int).first() == v@[n as int]);
    }
    assert(text::first_place(v@, '\n') == n);
    let ghost line = v@.take(n as int);
    while n > 0 && v[n - 1] == '\r'
        invariant
            n <= v@.len(),
            without_returns(v@.take(n as int)) == without_returns(line),
        decreases n,
    {
        assert(v@.take(n as int).drop_last() =~= v@.take(n - 1));
        assert(v@.take(n as int).last() == v@[n - 1]);
        n -= 1;
    }
    if n > 0 {
        assert(v@.take(n as int).last() == v@[n - 1]);
    }
    let r = text::string_of(&v, 0, n);
    assert(r@ =~= v@.take(n as int));
    r
}

/// What to write into the `.trashinfo` file of an item.
pub fn write_trash_info(original_path: &str, now: &str) -> (s: String)
    ensures
        s@ == info_text(original_path@, now@),
{
    let mut s = "[Trash Info]\nPath=".to_owned();
    s.append(percent::percent_encode(original_path).as_str());
    s.append("\nDeletionDate=");
    s.append(first_line_of(now).as_str());
    s.append("\n");
    s
}

/// The date to write down: what the clock program printed, as text and
/// trimmed, or else the seconds since the epoch.
pub fn now_iso(printed: Option<&[u8]>, epoch_seconds: u64) -> (s: String)
    ensures
        s@ == match printed {
            Some(p) => text::trimmed(percent::lossy_text(p@)),
            None => "epoch+"@ + text::decimal(epoch_seconds as nat),
        },
{
    match printed {
        Some(p) => text::trim(percent::from_utf8_lossy(p).as_str()),
        None => {
            let mut s = "epoch+".to_owned();
            s.append(text::decimal_of(epoch_seconds).as_str());
            s
        },
    }
}

/// The first line of a text ends at its first line feed.
proof fn lemma_first_line(line: Seq<char>, rest: Seq<char>)
    requires
        !line.contains('\n'),
    ensures
        text::lines(line + "\n"@ + rest) == seq![text::without_return(line)] + text::lines(rest),
{
    reveal_strlit("\n");
    let s = line + "\n"@ + rest;
    lemma_first_place(line, rest);
    assert(s.take(line.len() as int) =~= line);
    assert(s.skip((line.len() + 1) as int) =~= rest);
}

/// A line feed behind a text without one is the first.
proof fn lemma_first_place(line: Seq<char>, rest: Seq<char>)
    requires
        !line.contains('\n'),
    ensures
        text::first_place(line + "\n"@ + rest, '\n') == line.len(),
    decreases line.len(),
{
    reveal_strlit("\n");
    let s = line + "\n"@ + rest;
    if line.len() == 0 {
        assert(s[0] == '\n');
    } else {
        assert(line.contains(line[0]));
        let tail = line.drop_first();
        assert forall|i: int| 0 <= i < tail.len() implies tail[i] != '\n' by {
            assert(line.contains(line[i + 1]));
        }
        lemma_first_place(tail, rest);
        assert(s.drop_first() =~= tail + "\n"@ + rest);
        assert(s[0] == line[0]);
    }
}

/// The two lines of a `.trashinfo` file hold what was put into them.
proof fn lemma_written_values(path: Seq<char>, date: Seq<char>)
    requires
        !path.contains('\n'),
        path.len() > 0 ==> path.last() != '\r',
        !date.contains('\n'),
        date.len() > 0 ==> date.last() != '\r',
    ensures
        written_path(info_lines(path, date)) == path,
        written_date(info_lines(path, date)) == date,
{
    reveal_strlit("[Trash Info]\nPath=");
    reveal_strlit("[Trash Info]");
    reveal_strlit("Path=");
    reveal_strlit("\nDeletionDate=");
    reveal_strlit("DeletionDate=");
    reveal_strlit("\n");
    let (head, first, second) = ("[Trash Info]"@, "Path="@ + path, "DeletionDate="@ + date);
    let end = Seq::<char>::empty();
    let last = second + "\n"@ + end;
    let middle = first + "\n"@ + last;
    let content = info_lines(path, date);
    assert(content =~= head + "\n"@ + middle);
    assert forall|i: int| 0 <= i < first.len() implies first[i] != '\n' by {
        if i >= 5 {
            assert(path.contains(path[i - 5]));
        }
    }
    assert forall|i: int| 0 <= i < second.len() implies second[i] != '\n' by {
        if i >= 13 {
            assert(date.contains(date[i - 13]));
        }
    }
    lemma_first_line(head, middle);
    lemma_first_line(first, last);
    lemma_first_line(second, end);
    let lines = text::lines(content);
    assert(lines =~= seq![head, first, second]);
    assert(lines.drop_last() =~= seq![head, first]);
    lemma_keys_differ(second);
    assert("DeletionDate="@.is_prefix_of(second));
    assert("Path="@.is_prefix_of(first));
    assert(second.skip(13) =~= date);
    assert(first.skip(5) =~= path);
    assert(last_value(lines.drop_last(), "Path="@) == path);
}

/// A line of a date has no end of a line in it, and no carriage return at its
/// end.
proof fn lemma_date_line(date: Seq<char>)
    ensures
        !date_line(date).contains('\n'),
        date_line(date).len() > 0 ==> date_line(date).last() != '\r',
{
    lemma_up_to_first(date);
    lemma_without_returns(date.take(text::first_place(date, '\n')));
}

/// Up to the first line feed there is none.
proof fn lemma_up_to_first(s: Seq<char>)
    ensures
        0 <= text::first_place(s, '\n') <= s.len(),
        !s.take(text::first_place(s, '\n')).contains('\n'),
    decreases s.len(),
{
    if s.len() > 0 && s.first() != '\n' {
        let t = s.drop_first();
        lemma_up_to_first(t);
        let k = text::first_place(t, '\n');
        let line = s.take(k + 1);
        assert forall|i: int| 0 <= i < line.len() implies line[i] != '\n' by {
            if i > 0 {
                assert(s[i] == t.take(k)[i - 1]);
                assert(t.take(k).contains(t.take(k)[i - 1]));
            }
        }
    }
}

/// Only carriage returns at the end go.
proof fn lemma_without_returns(s: Seq<char>)
    ensures
        without_returns(s).is_prefix_of(s),
        without_returns(s).len() > 0 ==> without_returns(s).last() != '\r',
        !s.contains('\n') ==> !without_returns(s).contains('\n'),
    decreases s.len(),
{
    if s.len() > 0 && s.last() == '\r' {
        lemma_without_returns(s.drop_last());
        if s.drop_last().contains('\n') {
            let k = s.drop_last().index_of('\n');
            assert(s[k] == '\n');
        }
        let w = without_returns(s);
        assert(s.subrange(0, w.len() as int) =~= s.drop_last().subrange(0, w.len() as int));
    } else {
        assert(s.subrange(0, s.len() as int) =~= s);
    }
}

/// What is written down of an item is read back: its name from the name of the
/// file, the path that it came from and the date of its deletion from the
/// lines. That holds of every path but the empty one, and of every date; of a
/// date of several lines the first one is written.
pub proof fn law_written_info_is_read_back(
    item: Seq<char>,
    path: Seq<char>,
    date: Seq<char>,
    exists: bool,
)
    requires
        item.len() > 0,
        !item.contains('/'),
        path.len() > 0,
    ensures
        read_entry(paths::info_name(item), info_text(path, date), exists) == Some(
            Entry {
                name: item,
                path,
                date: date_line(date),
                time: date::date_seconds(date_line(date)),
                exists,
            },
        ),
{
    let e = percent::percent_encoded(path);
    percent::law_written_path_is_one_line(path);
    percent::law_written_path_reads_back(path);
    if e.len() > 0 {
        assert(e.contains(e.last()));
    }
    lemma_date_line(date);
    lemma_written_values(e, date_line(date));
    paths::law_info_name_names_item(item);
}

/// A date of one line is written as it is.
pub proof fn law_plain_date_is_kept(date: Seq<char>)
    requires
        !date.contains('\n'),
        date.len() > 0 ==> date.last() != '\r',
    ensures
        date_line(date) == date,
{
    lemma_up_to_first(date);
    lemma_no_line_feed(date);
    assert(date.take(date.len() as int) =~= date);
}

/// Where there is no line feed, the first place of one is the end.
proof fn lemma_no_line_feed(s: Seq<char>)
    requires
        !s.contains('\n'),
    ensures
        text::first_place(s, '\n') == s.len(),
    decreases s.len(),
{
    if s.len() > 0 {
        assert(s.contains(s.first()));
        assert forall|i: int| 0 <= i < s.drop_first().len() implies s.drop_first()[i] != '\n' by {
            assert(s.contains(s[i + 1]));
        }
        lemma_no_line_feed(s.drop_first());
    }
}

/// What other programs write down of an item is read back as well, in whichever
/// encoding they write the path.
pub proof fn law_encoded_info_is_read_back(
    item: Seq<char>,
    path: Seq<char>,
    encoded: Seq<char>,
    date: Seq<char>,
    exists: bool,
)
    requires
        item.len() > 0,
        !item.contains('/'),
        path.len() > 0,
        percent::is_encoding(encode_utf8(encoded), encode_utf8(path)),
        !encoded.contains('\n'),
        encoded.last() != '\r',
        !date.contains('\n'),
        date.len() > 0 ==> date.last() != '\r',
    ensures
        read_entry(paths::info_name(item), info_lines(encoded, date), exists) == Some(
            Entry { name: item, path, date, time: date::date_seconds(date), exists },
        ),
{
    lemma_written_values(encoded, date);
    percent::law_encoded_text_reads_back(path, encoded);
    paths::law_info_name_names_item(item);
}

/// The value of a key is what stands behind it in the last line that starts with
/// it.
proof fn lemma_last_value(lines: Seq<Seq<char>>, key: Seq<char>, i: int)
    requires
        0 <= i < lines.len(),
        key.is_prefix_of(lines[i]),
        forall|j: int| i < j < lines.len() ==> !key.is_prefix_of(#[trigger] lines[j]),
    ensures
        last_value(lines, key) == lines[i].skip(key.len() as int),
    decreases lines.len(),
{
    if i < lines.len() - 1 {
        assert(!key.is_prefix_of(lines[lines.len() - 1]));
        let t = lines.drop_last();
        assert forall|j: int| i < j < t.len() implies !key.is_prefix_of(#[trigger] t[j]) by {
            assert(t[j] == lines[j]);
        }
        lemma_last_value(t, key, i);
    }
}

proof fn lemma_no_value(lines: Seq<Seq<char>>, key: Seq<char>)
    requires
        forall|j: int| 0 <= j < lines.len() ==> !key.is_prefix_of(#[trigger] lines[j]),
    ensures
        last_value(lines, key).len() == 0,
    decreases lines.len(),
{
    if lines.len() > 0 {
        assert(!key.is_prefix_of(lines[lines.len() - 1]));
        let t = lines.drop_last();
        assert forall|j: int| 0 <= j < t.len() implies !key.is_prefix_of(#[trigger] t[j]) by {
            assert(t[j] == lines[j]);
        }
        lemma_no_value(t, key);
    }
}

/// Of several lines that give a path the last one counts, and so with dates,
/// whatever other lines there are.
pub proof fn law_last_line_counts(content: Seq<char>, i: int, value: Seq<char>)
    requires
        0 <= i < text::lines(content).len(),
    ensures
        ({
            let lines = text::lines(content);
            &&& lines[i] == "Path="@ + value && (forall|j: int|
                i < j < lines.len() ==> !"Path="@.is_prefix_of(#[trigger] lines[j]))
                ==> written_path(content) == value
            &&& lines[i] == "DeletionDate="@ + value && (forall|j: int|
                i < j < lines.len() ==> !"DeletionDate="@.is_prefix_of(#[trigger] lines[j]))
                ==> written_date(content) == value
        }),
{
    let lines = text::lines(content);
    if lines[i] == "Path="@ + value && (forall|j: int|
        i < j < lines.len() ==> !"Path="@.is_prefix_of(#[trigger] lines[j])) {
        let key = "Path="@;
        assert(lines[i].subrange(0, key.len() as int) =~= key);
        lemma_last_value(lines, key, i);
        assert(lines[i].skip(key.len() as int) =~= value);
    }
    if lines[i] == "DeletionDate="@ + value && (forall|j: int|
        i < j < lines.len() ==> !"DeletionDate="@.is_prefix_of(#[trigger] lines[j])) {
        let key = "DeletionDate="@;
        assert(lines[i].subrange(0, key.len() as int) =~= key);
        lemma_last_value(lines, key, i);
        assert(lines[i].skip(key.len() as int) =~= value);
    }
}

/// A file in which no line gives a path describes nothing, and one in which no
/// line gives a date gives none.
pub proof fn law_nothing_is_made_up(file: Seq<char>, content: Seq<char>, exists: bool)
    ensures
        ({
            let lines = text::lines(content);
            &&& (forall|j: int| 0 <= j < lines.len() ==> !"Path="@.is_prefix_of(#[trigger] lines[j]))
                ==> read_entry(file, content, exists) is None
            &&& (forall|j: int|
                0 <= j < lines.len() ==> !"DeletionDate="@.is_prefix_of(#[trigger] lines[j]))
                ==> written_date(content).len() == 0
        }),
{
    let lines = text::lines(content);
    if forall|j: int| 0 <= j < lines.len() ==> !"Path="@.is_prefix_of(#[trigger] lines[j]) {
        lemma_no_value(lines, "Path="@);
        assert(written_path(content) =~= seq![]);
        lemma_empty_path();
    }
    if forall|j: int| 0 <= j < lines.len() ==> !"DeletionDate="@.is_prefix_of(#[trigger] lines[j]) {
        lemma_no_value(lines, "DeletionDate="@);
    }
}

/// What a description says is what its lines say, decoded and read: nothing is
/// dropped, and nothing depends on anything else.
pub proof fn law_description_says_what_its_lines_say(
    file: Seq<char>,
    content: Seq<char>,
    exists: bool,
)
    ensures
        read_entry(file, content, exists) matches Some(e) ==> {
            &&& e.name == paths::path_stem(file)
            &&& e.path == percent::percent_decoded(written_path(content))
            &&& e.date == written_date(content)
            &&& e.time == date::date_seconds(written_date(content))
            &&& e.exists == exists
        },
        read_entry(file, content, exists) is Some <==> percent::percent_decoded(
            written_path(content),
        ).len() > 0,
{
}

/// What is written down of a plain path and a date of one line.
pub proof fn law_plain_info_is_written_as_it_is(path: Seq<char>, date: Seq<char>)
    requires
        !path.contains('%'),
        !path.contains('\n'),
        !path.contains('\r'),
        !date.contains('\n'),
        date.len() > 0 ==> date.last() != '\r',
    ensures
        info_text(path, date) == "[Trash Info]\nPath="@ + path + "\nDeletionDate="@ + date + "\n"@,
{
    percent::law_plain_path_is_written_as_it_is(path);
    law_plain_date_is_kept(date);
}

/// Of a date of several lines the first one is written, without the carriage
/// returns at its end.
pub proof fn law_first_line_of_a_date_is_written(line: Seq<char>, rest: Seq<char>)
    requires
        !line.contains('\n'),
    ensures
        date_line(line + seq!['\n'] + rest) == date_line(line),
        date_line(line.push('\r')) == date_line(line),
{
    let s = line + seq!['\n'] + rest;
    let r = line.push('\r');
    lemma_no_line_feed(line);
    lemma_first_place(line, rest);
    reveal_strlit("\n");
    assert(line + "\n"@ + rest =~= s);
    assert(s.take(line.len() as int) =~= line);
    assert(line.take(line.len() as int) =~= line);
    assert forall|i: int| 0 <= i < r.len() implies r[i] != '\n' by {
        if i < line.len() {
            assert(line.contains(line[i]));
        }
    }
    lemma_no_line_feed(r);
    assert(r.take(r.len() as int) =~= r);
    assert(r.drop_last() =~= line);
}

} // verus!

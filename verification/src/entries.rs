//! What is in the trash: the items that `.trashinfo` files describe, and those
//! that nothing describes.

use crate::date;
use crate::info;
use crate::info::{Entry, TrashEntry};
use crate::paths;
use crate::text;
use vstd::prelude::*;
use vstd::utf8::*;

verus! {

/// A file of the directory of `.trashinfo` files.
pub struct InfoFile {
    /// The file's name.
    pub name: String,
    /// What the file holds, where it could be read.
    pub content: Option<String>,
    /// Whether the item of that name is in the trash.
    pub exists_in_trash: bool,
}

/// What is known of the items.
pub open spec fn views(v: Seq<TrashEntry>) -> Seq<Entry> {
    v.map_values(|e: TrashEntry| e@)
}

/// The item that a file describes; none where it is no `.trashinfo` file, could
/// not be read or gives no path.
pub open spec fn described(f: InfoFile) -> Option<Entry> {
    match f.content {
        Some(c) => if paths::names_info(f.name@) {
            info::read_entry(f.name@, c@, f.exists_in_trash)
        } else {
            None
        },
        None => None,
    }
}

/// The items that files describe, in the order of the files.
pub open spec fn all_described(files: Seq<InfoFile>) -> Seq<Entry> {
    files.filter_map(|f: InfoFile| described(f))
}

/// The names in the trash directory that are not items.
pub open spec fn is_hidden(name: Seq<char>) -> bool {
    name == ".trash-metadata"@ || name == ".DS_Store"@
}

/// An item of that name is among `s`.
pub open spec fn is_among(s: Seq<Entry>, name: Seq<char>) -> bool {
    exists|i: int| 0 <= i < s.len() && (#[trigger] s[i]).name == name
}

/// An item that nothing describes.
pub open spec fn undescribed(name: Seq<char>) -> Entry {
    Entry { name, path: seq![], date: seq![], time: None, exists: true }
}

/// The items `s` and behind them, for each name in the trash directory that is
/// not yet among them, one that nothing describes.
pub open spec fn with_undescribed(s: Seq<Entry>, names: Seq<Seq<char>>) -> Seq<Entry>
    decreases names.len(),
{
    if names.len() == 0 {
        s
    } else {
        let before = with_undescribed(s, names.drop_last());
        if is_hidden(names.last()) || is_among(before, names.last()) {
            before
        } else {
            before.push(undescribed(names.last()))
        }
    }
}

/// The items of `s` with a date, in their order.
pub open spec fn dated(s: Seq<Entry>, date: Seq<char>) -> Seq<Entry> {
    s.filter(|e: Entry| e.date == date)
}

/// No item of `s` stands before one with a later date.
pub open spec fn is_newest_first(s: Seq<Entry>) -> bool {
    forall|i: int, j: int|
        0 <= i < j < s.len() ==> !text::text_before(
            (#[trigger] s[i]).date,
            (#[trigger] s[j]).date,
        )
}

/// `out` holds the items of `s`, newest first; those with the same date keep
/// their order.
pub open spec fn sorts(s: Seq<Entry>, out: Seq<Entry>) -> bool {
    &&& is_newest_first(out)
    &&& forall|date: Seq<char>| #[trigger] dated(out, date) == dated(s, date)
}

/// Nothing stands before itself, and of two rows only one before the other.
proof fn lemma_before_is_strict(a: Seq<u8>, b: Seq<u8>)
    ensures
        !(text::bytes_before(a, b) && text::bytes_before(b, a)),
        a == b ==> !text::bytes_before(a, b),
    decreases a.len(),
{
    if a.len() > 0 && b.len() > 0 && a.first() == b.first() {
        lemma_before_is_strict(a.drop_first(), b.drop_first());
    }
}

/// A row that does not stand before another does not stand before what that
/// one does not stand before.
proof fn lemma_not_before_chains(a: Seq<u8>, b: Seq<u8>, c: Seq<u8>)
    requires
        !text::bytes_before(a, b),
        !text::bytes_before(b, c),
    ensures
        !text::bytes_before(a, c),
    decreases a.len(),
{
    if a.len() > 0 && b.len() > 0 && c.len() > 0 && a.first() == b.first() && b.first()
        == c.first() {
        lemma_not_before_chains(a.drop_first(), b.drop_first(), c.drop_first());
    }
}

/// The items of one date among those of `s` and one more.
proof fn lemma_dated_push(s: Seq<Entry>, e: Entry, date: Seq<char>)
    ensures
        dated(s.push(e), date) == if e.date == date {
            dated(s, date).push(e)
        } else {
            dated(s, date)
        },
{
    reveal(Seq::filter);
    assert(s.push(e).drop_last() =~= s);
}

/// Inserting an item behind all that are not older keeps the order, and keeps
/// items of the same date in theirs.
proof fn lemma_insert_sorts(s: Seq<Entry>, out: Seq<Entry>, e: Entry, k: int)
    requires
        sorts(s, out),
        0 <= k <= out.len(),
        k > 0 ==> !text::text_before(out[k - 1].date, e.date),
        forall|j: int| k <= j < out.len() ==> text::text_before((#[trigger] out[j]).date, e.date),
    ensures
        sorts(s.push(e), out.insert(k, e)),
{
    let t = out.insert(k, e);
    let b = encode_utf8(e.date);
    assert forall|i: int, j: int| 0 <= i < j < t.len() implies !text::text_before(
        (#[trigger] t[i]).date,
        (#[trigger] t[j]).date,
    ) by {
        if i == k {
            assert(t[j] == out[j - 1]);
            lemma_before_is_strict(b, encode_utf8(t[j].date));
        } else if j == k {
            assert(t[i] == out[i]);
            if i < k - 1 {
                assert(!text::text_before(out[i].date, out[k - 1].date));
                lemma_not_before_chains(
                    encode_utf8(out[i].date),
                    encode_utf8(out[k - 1].date),
                    b,
                );
            }
        } else {
            let p = if i < k {
                i
            } else {
                i - 1
            };
            let q = if j < k {
                j
            } else {
                j - 1
            };
            assert(t[i] == out[p] && t[j] == out[q]);
            assert(!text::text_before(out[p].date, out[q].date));
        }
    }
    assert forall|date: Seq<char>| #[trigger] dated(t, date) == dated(s.push(e), date) by {
        let (front, back) = (out.take(k), out.skip(k));
        let f = |x: Entry| x.date == date;
        assert(out =~= front + back);
        assert(t =~= front.push(e) + back);
        Seq::filter_distributes_over_add(front, back, f);
        Seq::filter_distributes_over_add(front.push(e), back, f);
        lemma_dated_push(front, e, date);
        lemma_dated_push(s, e, date);
        assert(dated(out, date) == dated(s, date));
        if e.date == date {
            assert forall|j: int| 0 <= j < back.len() implies !f(back[j]) by {
                assert(back[j] == out[k + j]);
                lemma_before_is_strict(encode_utf8(back[j].date), b);
            }
            back.lemma_all_neg_filter_empty(f);
            assert(dated(back, date) =~= seq![]);
            assert(dated(out, date) =~= dated(front, date));
            assert(dated(t, date) =~= dated(front, date).push(e));
        }
    }
}

/// Sorts items, the newest first; those with the same date keep their order.
pub fn sort_newest_first(v: Vec<TrashEntry>) -> (out: Vec<TrashEntry>)
    ensures
        sorts(views(v@), views(out@)),
{
    let ghost all = views(v@);
    let mut rest = v;
    let mut out: Vec<TrashEntry> = Vec::new();
    let ghost mut done: Seq<Entry> = seq![];
    assert(views(out@) =~= seq![]);
    assert forall|date: Seq<char>| #[trigger] dated(views(out@), date) == dated(done, date) by {
        assert(views(out@) =~= done);
    }
    while rest.len() > 0
        invariant
            sorts(done, views(out@)),
            done + views(rest@) == all,
        decreases rest.len(),
    {
        let ghost before = rest@;
        let ghost sorted = out@;
        let e = rest.remove(0);
        let mut k: usize = out.len();
        while k > 0 && text::stands_before(
            out[k - 1].deletion_date.as_str(),
            e.deletion_date.as_str(),
        )
            invariant
                k <= out@.len(),
                forall|j: int|
                    k <= j < out@.len() ==> text::text_before((#[trigger] out@[j])@.date, e@.date),
            decreases k,
        {
            k -= 1;
        }
        proof {
            let s = views(out@);
            assert forall|j: int| k <= j < s.len() implies text::text_before(
                (#[trigger] s[j]).date,
                e@.date,
            ) by {
                assert(s[j] == out@[j]@);
            }
            if k > 0 {
                assert(s[k - 1] == out@[k - 1]@);
            }
            lemma_insert_sorts(done, s, e@, k as int);
        }
        out.insert(k, e);
        assert(views(out@) =~= views(sorted).insert(k as int, e@));
        proof {
            assert(done.push(e@) + views(rest@) =~= done + views(before));
            done = done.push(e@);
        }
    }
    assert(done =~= all);
    out
}

/// The item that a file describes.
fn describe(f: &InfoFile) -> (r: Option<TrashEntry>)
    ensures
        match r {
            Some(e) => described(*f) == Some(e@),
            None => described(*f) is None,
        },
{
    match &f.content {
        Some(c) => if paths::is_info_name(f.name.as_str()) {
            info::read_trash_info(f.name.as_str(), c.as_str(), f.exists_in_trash)
        } else {
            None
        },
        None => None,
    }
}

/// Whether a name in the trash directory is not an item.
fn hides(name: &str) -> (r: bool)
    ensures
        r == is_hidden(name@),
{
    text::str_eq(name, ".trash-metadata") || text::str_eq(name, ".DS_Store")
}

/// Whether an item of that name is among `v`.
fn has_name(v: &Vec<TrashEntry>, name: &str) -> (r: bool)
    ensures
        r == is_among(views(v@), name@),
{
    let mut i: usize = 0;
    while i < v.len()
        invariant
            i <= v@.len(),
            forall|j: int| 0 <= j < i ==> (#[trigger] views(v@)[j]).name != name@,
        decreases v.len() - i,
    {
        assert(views(v@)[i as int] == v@[i as int]@);
        if text::str_eq(v[i].trash_filename.as_str(), name) {
            return true;
        }
        i += 1;
    }
    false
}

/// All items of the trash, the newest first: those that the files of the
/// `.trashinfo` directory describe and those of the trash directory that
/// nothing describes.
pub fn collect_entries(files: &[InfoFile], names: &[String]) -> (out: Vec<TrashEntry>)
    ensures
        sorts(with_undescribed(all_described(files@), text::texts(names@)), views(out@)),
{
    let mut entries: Vec<TrashEntry> = Vec::new();
    let mut i: usize = 0;
    assert(files@.take(0) =~= seq![]);
    assert(views(entries@) =~= all_described(files@.take(0))) by {
        reveal(Seq::filter_map);
    }
    while i < files.len()
        invariant
            i <= files@.len(),
            views(entries@) == all_described(files@.take(i as int)),
        decreases files.len() - i,
    {
        let ghost before = entries@;
        assert(files@.take(i + 1).drop_last() =~= files@.take(i as int));
        match describe(&files[i]) {
            Some(e) => {
                entries.push(e);
                assert(views(entries@) =~= views(before) + seq![e@]);
            },
            None => {},
        }
        assert(views(entries@) == all_described(files@.take(i + 1))) by {
            reveal(Seq::filter_map);
        }
        i += 1;
    }
    assert(files@.take(i as int) =~= files@);
    let ghost first = all_described(files@);
    let ghost all = text::texts(names@);
    let mut k: usize = 0;
    assert(all.take(0) =~= seq![]);
    while k < names.len()
        invariant
            k <= names@.len(),
            all == text::texts(names@),
            views(entries@) == with_undescribed(first, all.take(k as int)),
        decreases names.len() - k,
    {
        let ghost before = entries@;
        assert(all.take(k + 1).drop_last() =~= all.take(k as int));
        assert(all.take(k + 1).last() == names@[k as int]@);
        if !hides(names[k].as_str()) && !has_name(&entries, names[k].as_str()) {
            let e = TrashEntry {
                trash_filename: names[k].clone(),
                original_path: String::new(),
                deletion_date: String::new(),
                deletion_time: None,
                exists_in_trash: true,
            };
            entries.push(e);
            assert(e@ =~= undescribed(names@[k as int]@));
            assert(views(entries@) =~= views(before).push(e@));
        }
        k += 1;
    }
    assert(all.take(k as int) =~= all);
    sort_newest_first(entries)
}

/// Sorting loses no item and adds none.
pub proof fn law_sorting_keeps_items(s: Seq<Entry>, out: Seq<Entry>, e: Entry)
    requires
        sorts(s, out),
    ensures
        s.contains(e) <==> out.contains(e),
{
    broadcast use vstd::seq_lib::group_filter_ensures;

    let f = |x: Entry| x.date == e.date;
    assert(dated(out, e.date) == dated(s, e.date));
    if s.contains(e) {
        let i = s.index_of(e);
        assert(f(s[i]));
        assert(s.filter(f).contains(s[i]));
        out.lemma_filter_contains_rev(f, e);
    }
    if out.contains(e) {
        let i = out.index_of(e);
        assert(f(out[i]));
        assert(out.filter(f).contains(out[i]));
        s.lemma_filter_contains_rev(f, e);
    }
}

/// Among items with well-formed dates, none stands before one that was deleted
/// later.
pub proof fn law_newest_come_first(s: Seq<Entry>, out: Seq<Entry>, i: int, j: int)
    requires
        sorts(s, out),
        0 <= i < j < out.len(),
        date::is_stamp(out[i].date),
        date::is_stamp(out[j].date),
    ensures
        date::date_seconds(out[i].date)->0 >= date::date_seconds(out[j].date)->0,
{
    date::law_stamps_sort_by_time(out[i].date, out[j].date);
}

/// Items without a date stand behind all that have one.
pub proof fn law_undated_come_last(s: Seq<Entry>, out: Seq<Entry>, i: int, j: int)
    requires
        sorts(s, out),
        0 <= i < out.len(),
        0 <= j < out.len(),
        out[i].date.len() > 0,
        out[j].date.len() == 0,
    ensures
        i < j,
{
    assert(encode_utf8(out[j].date).len() == 0);
    assert(encode_utf8(out[i].date).len() > 0) by {
        encode_utf8_first_scalar(out[i].date);
    }
    if j < i {
        assert(!text::text_before(out[j].date, out[i].date));
    }
}

/// Every name in the trash directory that is an item is among the items.
pub proof fn law_every_name_is_an_item(s: Seq<Entry>, names: Seq<Seq<char>>, k: int)
    requires
        0 <= k < names.len(),
        !is_hidden(names[k]),
    ensures
        is_among(with_undescribed(s, names), names[k]),
    decreases names.len(),
{
    let before = with_undescribed(s, names.drop_last());
    let all = with_undescribed(s, names);
    if k < names.len() - 1 {
        law_every_name_is_an_item(s, names.drop_last(), k);
        assert(names.drop_last()[k] == names[k]);
        let i = choose|i: int| 0 <= i < before.len() && (#[trigger] before[i]).name == names[k];
        assert(all[i] == before[i]);
    } else if !is_among(before, names[k]) {
        assert(all[before.len() as int].name == names[k]);
    }
}

/// A name that was not there before, and that is an item.
pub open spec fn is_new(before: Seq<Seq<char>>, name: Seq<char>) -> bool {
    !before.contains(name) && !is_hidden(name)
}

/// The first new name that holds `part`.
pub open spec fn first_new(
    before: Seq<Seq<char>>,
    names: Seq<Seq<char>>,
    part: Seq<char>,
) -> Option<Seq<char>>
    decreases names.len(),
{
    if names.len() == 0 {
        None
    } else if is_new(before, names.first()) && text::has_part(names.first(), part) {
        Some(names.first())
    } else {
        first_new(before, names.drop_first(), part)
    }
}

/// The name under which a file went to the trash: its own, where that is new
/// there; else the first new name that holds its stem; else any new name.
pub open spec fn new_name(
    before: Seq<Seq<char>>,
    expected: Seq<char>,
    expected_exists: bool,
    names: Seq<Seq<char>>,
    later_names: Seq<Seq<char>>,
) -> Option<Seq<char>> {
    if !before.contains(expected) && expected_exists {
        Some(expected)
    } else {
        match first_new(before, names, paths::path_stem(expected)) {
            Some(n) => Some(n),
            None => first_new(before, later_names, seq![]),
        }
    }
}

/// Whether a name is in a list.
fn lists(names: &[String], name: &str) -> (r: bool)
    ensures
        r == text::texts(names@).contains(name@),
{
    let mut i: usize = 0;
    while i < names.len()
        invariant
            i <= names@.len(),
            forall|j: int| 0 <= j < i ==> #[trigger] text::texts(names@)[j] != name@,
        decreases names.len() - i,
    {
        assert(text::texts(names@)[i as int] == names@[i as int]@);
        if text::str_eq(names[i].as_str(), name) {
            return true;
        }
        i += 1;
    }
    false
}

/// The first new name that holds `part`.
fn find_first_new(before: &[String], names: &[String], part: &str) -> (r: Option<String>)
    ensures
        match r {
            Some(n) => first_new(text::texts(before@), text::texts(names@), part@) == Some(n@),
            None => first_new(text::texts(before@), text::texts(names@), part@) is None,
        },
{
    let ghost all = text::texts(names@);
    let ghost old_names = text::texts(before@);
    let mut i: usize = 0;
    assert(all.skip(0) =~= all);
    while i < names.len()
        invariant
            i <= names@.len(),
            all == text::texts(names@),
            old_names == text::texts(before@),
            first_new(old_names, all, part@) == first_new(old_names, all.skip(i as int), part@),
        decreases names.len() - i,
    {
        let name = names[i].as_str();
        assert(all.skip(i as int).first() == name@);
        assert(all.skip(i as int).drop_first() =~= all.skip(i + 1));
        if !lists(before, name) && !hides(name) && text::contains(name, part) {
            return Some(names[i].clone());
        }
        i += 1;
    }
    assert(all.skip(i as int) =~= seq![]);
    None
}

/// The name under which a file went to the trash, found by comparing the names
/// there before and after. `expected_exists` says whether the file's own name
/// is there after, and the two lists are the names there after, read one after
/// the other.
pub fn find_new_trash_entry(
    before: &[String],
    expected_name: &str,
    expected_exists: bool,
    names: &[String],
    later_names: &[String],
) -> (r: Option<String>)
    ensures
        ({
            let found = new_name(
                text::texts(before@),
                expected_name@,
                expected_exists,
                text::texts(names@),
                text::texts(later_names@),
            );
            match r {
                Some(n) => found == Some(n@),
                None => found is None,
            }
        }),
{
    if !lists(before, expected_name) && expected_exists {
        return Some(expected_name.to_owned());
    }
    let stem = paths::path_stem_of(expected_name);
    match find_first_new(before, names, stem.as_str()) {
        Some(n) => Some(n),
        None => {
            let any = String::new();
            find_first_new(before, later_names, any.as_str())
        },
    }
}

/// The empty part is in every name, so the last resort takes any new name.
pub proof fn law_empty_part_is_everywhere(name: Seq<char>)
    ensures
        text::has_part(name, seq![]),
{
    let empty = Seq::<char>::empty();
    assert(name.subrange(0, 0int + empty.len()) =~= empty);
}

/// The name that is found was not in the trash before.
pub proof fn law_found_name_is_new(
    before: Seq<Seq<char>>,
    expected: Seq<char>,
    expected_exists: bool,
    names: Seq<Seq<char>>,
    later_names: Seq<Seq<char>>,
)
    ensures
        new_name(before, expected, expected_exists, names, later_names) matches Some(n)
            ==> !before.contains(n),
{
    lemma_first_new(before, names, paths::path_stem(expected));
    lemma_first_new(before, later_names, seq![]);
}

proof fn lemma_first_new(before: Seq<Seq<char>>, names: Seq<Seq<char>>, part: Seq<char>)
    ensures
        first_new(before, names, part) matches Some(n) ==> is_new(before, n),
    decreases names.len(),
{
    if names.len() > 0 {
        lemma_first_new(before, names.drop_first(), part);
    }
}

/// The items that files describe come through: only items that nothing
/// describes are added.
pub proof fn law_described_items_stay(s: Seq<Entry>, names: Seq<Seq<char>>)
    ensures
        s.is_prefix_of(with_undescribed(s, names)),
        forall|i: int|
            s.len() <= i < with_undescribed(s, names).len() ==> #[trigger] with_undescribed(
                s,
                names,
            )[i] == undescribed(with_undescribed(s, names)[i].name),
    decreases names.len(),
{
    if names.len() > 0 {
        law_described_items_stay(s, names.drop_last());
    }
}

/// Each file adds the item that it describes, by itself, and nothing else: a
/// file that could be read, is named as a description and gives a path.
pub proof fn law_each_file_adds_its_item(files: Seq<InfoFile>, f: InfoFile)
    ensures
        all_described(seq![]) == Seq::<Entry>::empty(),
        ({
            let e = info::read_entry(f.name@, f.content->0@, f.exists_in_trash);
            all_described(files.push(f)) == if f.content is Some && paths::names_info(f.name@)
                && e is Some {
                all_described(files).push(e->0)
            } else {
                all_described(files)
            }
        }),
{
    reveal(Seq::filter_map);
    assert(files.push(f).drop_last() =~= files);
    let none = Seq::<InfoFile>::empty();
    assert(all_described(none) =~= seq![]);
    if described(f) is Some {
        assert(all_described(files.push(f)) =~= all_described(files).push(described(f)->0));
    } else {
        assert(all_described(files.push(f)) =~= all_described(files));
    }
}

/// Each name of the trash directory adds an item of which only that is known,
/// unless there is one of that name, or it is one of two names that are no items.
pub proof fn law_each_name_adds_an_item(s: Seq<Entry>, names: Seq<Seq<char>>, name: Seq<char>)
    ensures
        with_undescribed(s, seq![]) == s,
        ({
            let before = with_undescribed(s, names);
            let known = exists|i: int| 0 <= i < before.len() && (#[trigger] before[i]).name == name;
            with_undescribed(s, names.push(name)) == if known || name == ".trash-metadata"@ || name
                == ".DS_Store"@ {
                before
            } else {
                before.push(
                    Entry { name, path: seq![], date: seq![], time: None, exists: true },
                )
            }
        }),
{
    assert(names.push(name).drop_last() =~= names);
}

/// Sorting by date keeps every item and the order of items of one date, and puts
/// no item before one whose date is greater in the order of strings.
pub proof fn law_sorting_is_stable_and_by_date(
    s: Seq<Entry>,
    out: Seq<Entry>,
    date: Seq<char>,
    i: int,
    j: int,
)
    requires
        sorts(s, out),
        0 <= i < j < out.len(),
    ensures
        out.filter(|e: Entry| e.date == date) == s.filter(|e: Entry| e.date == date),
        !text::bytes_before(encode_utf8(out[i].date), encode_utf8(out[j].date)),
{
    assert(dated(out, date) == dated(s, date));
    assert(!text::text_before(out[i].date, out[j].date));
}

/// The name of a file in the trash is found by three rules, the first of which
/// that gives one counts: the file's own name, where it was not there before and
/// is now; the first new name in which the file's stem stands; the first new
/// name.
pub proof fn law_new_names_are_found(
    before: Seq<Seq<char>>,
    expected: Seq<char>,
    expected_exists: bool,
    names: Seq<Seq<char>>,
    later_names: Seq<Seq<char>>,
    k: int,
)
    ensures
        ({
            let found = new_name(before, expected, expected_exists, names, later_names);
            let stem = paths::path_stem(expected);
            let fits = |n: Seq<char>|
                !before.contains(n) && n != ".trash-metadata"@ && n != ".DS_Store"@
                    && text::has_part(n, stem);
            let fresh = |n: Seq<char>|
                !before.contains(n) && n != ".trash-metadata"@ && n != ".DS_Store"@;
            let by_itself = !before.contains(expected) && expected_exists;
            &&& by_itself ==> found == Some(expected)
            &&& !by_itself && 0 <= k < names.len() && fits(names[k]) && (forall|i: int|
                0 <= i < k ==> !fits(#[trigger] names[i])) ==> found == Some(names[k])
            &&& !by_itself && (forall|i: int| 0 <= i < names.len() ==> !fits(#[trigger] names[i]))
                && 0 <= k < later_names.len() && fresh(later_names[k]) && (forall|i: int|
                0 <= i < k ==> !fresh(#[trigger] later_names[i])) ==> found == Some(later_names[k])
            &&& !by_itself && (forall|i: int| 0 <= i < names.len() ==> !fits(#[trigger] names[i]))
                && (forall|i: int| 0 <= i < later_names.len() ==> !fresh(#[trigger] later_names[i]))
                ==> found is None
        }),
{
    let stem = paths::path_stem(expected);
    let fits = |n: Seq<char>|
        !before.contains(n) && n != ".trash-metadata"@ && n != ".DS_Store"@ && text::has_part(
            n,
            stem,
        );
    let fresh = |n: Seq<char>|
        !before.contains(n) && n != ".trash-metadata"@ && n != ".DS_Store"@;
    let none = Seq::<char>::empty();
    let by_itself = !before.contains(expected) && expected_exists;
    if !by_itself {
        if 0 <= k < names.len() && fits(names[k]) && (forall|i: int|
            0 <= i < k ==> !fits(#[trigger] names[i])) {
            assert forall|i: int| 0 <= i < k implies !(is_new(before, #[trigger] names[i])
                && text::has_part(names[i], stem)) by {
                assert(!fits(names[i]));
            }
            lemma_first_new_at(before, names, stem, k);
        }
        if forall|i: int| 0 <= i < names.len() ==> !fits(#[trigger] names[i]) {
            assert forall|i: int| 0 <= i < names.len() implies !(is_new(before, #[trigger] names[i])
                && text::has_part(names[i], stem)) by {
                assert(!fits(names[i]));
            }
            lemma_first_new_none(before, names, stem);
            if 0 <= k < later_names.len() && fresh(later_names[k]) && (forall|i: int|
                0 <= i < k ==> !fresh(#[trigger] later_names[i])) {
                law_empty_part_is_everywhere(later_names[k]);
                assert forall|i: int| 0 <= i < k implies !(is_new(before, #[trigger] later_names[i])
                    && text::has_part(later_names[i], none)) by {
                    assert(!fresh(later_names[i]));
                }
                lemma_first_new_at(before, later_names, none, k);
            }
            if forall|i: int| 0 <= i < later_names.len() ==> !fresh(#[trigger] later_names[i]) {
                assert forall|i: int| 0 <= i < later_names.len() implies !(is_new(
                    before,
                    #[trigger] later_names[i],
                ) && text::has_part(later_names[i], none)) by {
                    assert(!fresh(later_names[i]));
                }
                lemma_first_new_none(before, later_names, none);
            }
        }
    }
}

proof fn lemma_first_new_at(
    before: Seq<Seq<char>>,
    names: Seq<Seq<char>>,
    part: Seq<char>,
    k: int,
)
    requires
        0 <= k < names.len(),
        is_new(before, names[k]) && text::has_part(names[k], part),
        forall|i: int|
            0 <= i < k ==> !(is_new(before, #[trigger] names[i]) && text::has_part(names[i], part)),
    ensures
        first_new(before, names, part) == Some(names[k]),
    decreases names.len(),
{
    if k > 0 {
        let t = names.drop_first();
        assert(!(is_new(before, names[0]) && text::has_part(names[0], part)));
        assert forall|i: int| 0 <= i < k - 1 implies !(is_new(before, #[trigger] t[i])
            && text::has_part(t[i], part)) by {
            assert(t[i] == names[i + 1]);
        }
        lemma_first_new_at(before, t, part, k - 1);
    }
}

proof fn lemma_first_new_none(before: Seq<Seq<char>>, names: Seq<Seq<char>>, part: Seq<char>)
    requires
        forall|i: int|
            0 <= i < names.len() ==> !(is_new(before, #[trigger] names[i]) && text::has_part(
                names[i],
                part,
            )),
    ensures
        first_new(before, names, part) is None,
    decreases names.len(),
{
    if names.len() > 0 {
        let t = names.drop_first();
        assert(!(is_new(before, names[0]) && text::has_part(names[0], part)));
        assert forall|i: int| 0 <= i < t.len() implies !(is_new(before, #[trigger] t[i])
            && text::has_part(t[i], part)) by {
            assert(t[i] == names[i + 1]);
        }
        lemma_first_new_none(before, t, part);
    }
}

/// What is known of the items is what is known of each, in order: its name, its
/// path, its date as text and as time, and whether it is there.
pub proof fn law_views_are_those_of_each(v: Seq<TrashEntry>, i: int)
    requires
        0 <= i < v.len(),
    ensures
        views(v).len() == v.len(),
        views(v)[i].name == v[i].trash_filename@,
        views(v)[i].path == v[i].original_path@,
        views(v)[i].date == v[i].deletion_date@,
        views(v)[i].time is Some <==> v[i].deletion_time is Some,
        v[i].deletion_time is Some ==> views(v)[i].time->0 == v[i].deletion_time->0,
        views(v)[i].exists == v[i].exists_in_trash,
{
}

} // verus!

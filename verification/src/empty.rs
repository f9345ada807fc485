//! The `empty` command.

use crate::age;
use crate::entries;
use crate::info::{Entry, TrashEntry};
use crate::list;
use crate::paths;
use crate::report;
use crate::report::{Report, Said};
use crate::text;
use vstd::prelude::*;

verus! {

/// What `empty` is asked to do.
pub struct EmptyOptions {
    /// Only items that are at least this many seconds old.
    pub older_than: Option<u64>,
    /// Without asking first.
    pub confirmed: bool,
    /// The age as the first `--older` gives it, for the question.
    pub age_text: Option<String>,
}

/// What `empty` is asked to do, in terms of texts.
pub struct EmptyRequest {
    pub older_than: Option<u64>,
    pub confirmed: bool,
}

/// Why the arguments of `empty` are refused.
pub enum EmptyArgError {
    MissingAge,
    InvalidAge(String),
    UnknownOption(String),
}

/// What comes of reading the arguments of `empty`.
pub enum EmptyReading {
    Request(EmptyRequest),
    MissingAge,
    InvalidAge(Seq<char>),
    UnknownOption(Seq<char>),
}

/// Reads arguments of `empty`, one after the other, up to the first that is
/// refused.
pub open spec fn read_empty_args(args: Seq<Seq<char>>, o: EmptyRequest) -> EmptyReading
    decreases args.len(),
{
    if args.len() == 0 {
        EmptyReading::Request(o)
    } else if args[0] == "--older"@ {
        if args.len() < 2 {
            EmptyReading::MissingAge
        } else {
            match age::age_seconds(args[1]) {
                Some(n) => read_empty_args(
                    args.skip(2),
                    EmptyRequest { older_than: Some(n as u64), ..o },
                ),
                None => EmptyReading::InvalidAge(args[1]),
            }
        }
    } else if args[0] == "--yes"@ || args[0] == "-y"@ {
        read_empty_args(args.skip(1), EmptyRequest { confirmed: true, ..o })
    } else {
        EmptyReading::UnknownOption(args[0])
    }
}

/// What comes of reading all arguments of `empty`.
pub open spec fn empty_reading(args: Seq<String>) -> EmptyReading {
    read_empty_args(text::texts(args), EmptyRequest { older_than: None, confirmed: false })
}

/// The argument behind the first one that is `key`.
pub open spec fn behind_first(args: Seq<Seq<char>>, key: Seq<char>) -> Option<Seq<char>>
    decreases args.len(),
{
    if args.len() < 2 {
        None
    } else if args[0] == key {
        Some(args[1])
    } else {
        behind_first(args.skip(1), key)
    }
}

/// The reading that a result tells of.
pub open spec fn empty_result(r: Result<EmptyOptions, EmptyArgError>) -> EmptyReading {
    match r {
        Ok(o) => EmptyReading::Request(
            EmptyRequest { older_than: o.older_than, confirmed: o.confirmed },
        ),
        Err(EmptyArgError::MissingAge) => EmptyReading::MissingAge,
        Err(EmptyArgError::InvalidAge(s)) => EmptyReading::InvalidAge(s@),
        Err(EmptyArgError::UnknownOption(s)) => EmptyReading::UnknownOption(s@),
    }
}

/// How an error is worded.
pub open spec fn empty_error_text(e: EmptyArgError) -> Seq<char> {
    match e {
        EmptyArgError::MissingAge => "trash empty: --older requires an age (e.g. 7d)"@,
        EmptyArgError::InvalidAge(s) => "trash empty: invalid age '"@ + s@ + "'"@,
        EmptyArgError::UnknownOption(s) => "trash empty: unknown option '"@ + s@ + "'"@,
    }
}

impl EmptyArgError {
    /// How the arguments are refused.
    pub fn report(&self) -> (r: Report)
        ensures
            r@ == report::refusal(empty_error_text(*self)),
    {
        Report::refusal(self.message())
    }

    /// How the error is worded.
    pub fn message(&self) -> (s: String)
        ensures
            s@ == empty_error_text(*self),
    {
        match self {
            EmptyArgError::MissingAge => {
                "trash empty: --older requires an age (e.g. 7d)".to_owned()
            },
            EmptyArgError::InvalidAge(a) => {
                let mut s = "trash empty: invalid age '".to_owned();
                s.append(a.as_str());
                s.append("'");
                s
            },
            EmptyArgError::UnknownOption(a) => {
                let mut s = "trash empty: unknown option '".to_owned();
                s.append(a.as_str());
                s.append("'");
                s
            },
        }
    }
}

/// The text of an age, where there is one.
pub open spec fn age_text_of(t: Option<String>) -> Option<Seq<char>> {
    match t {
        Some(s) => Some(s@),
        None => None,
    }
}

/// What is known of the age to name in the question, after the arguments up to
/// the rest have been read.
spec fn age_text_so_far(
    all: Seq<Seq<char>>,
    rest: Seq<Seq<char>>,
    found: Option<Seq<char>>,
) -> bool {
    match found {
        Some(s) => behind_first(all, "--older"@) == Some(s),
        None => behind_first(all, "--older"@) == behind_first(rest, "--older"@),
    }
}

/// Reads the arguments of `empty`.
pub fn parse_empty_args(args: &[String]) -> (r: Result<EmptyOptions, EmptyArgError>)
    ensures
        empty_result(r) == empty_reading(args@),
        r matches Ok(o) ==> age_text_of(o.age_text) == behind_first(
            text::texts(args@),
            "--older"@,
        ),
        r matches Ok(o) ==> (o.older_than is Some <==> o.age_text is Some),
{
    let ghost all = text::texts(args@);
    let mut older_than: Option<u64> = None;
    let mut confirmed: bool = false;
    let mut age_text: Option<String> = None;
    let mut i: usize = 0;
    assert(all.skip(0) =~= all);
    while i < args.len()
        invariant
            i <= args@.len(),
            all == text::texts(args@),
            empty_reading(args@) == read_empty_args(
                all.skip(i as int),
                EmptyRequest { older_than, confirmed },
            ),
            age_text_so_far(all, all.skip(i as int), age_text_of(age_text)),
            older_than is Some <==> age_text is Some,
        decreases args.len() - i,
    {
        let ghost rest = all.skip(i as int);
        let arg = args[i].as_str();
        assert(rest[0] == arg@);
        assert(rest.skip(1) =~= all.skip(i + 1));
        if text::str_eq(arg, "--older") {
            if args.len() - i < 2 {
                return Err(EmptyArgError::MissingAge);
            }
            let value = args[i + 1].as_str();
            assert(rest[1] == value@);
            assert(rest.skip(2) =~= all.skip(i + 2));
            match age::parse_age(value) {
                Some(n) => {
                    older_than = Some(n);
                    if age_text.is_none() {
                        age_text = Some(args[i + 1].clone());
                    }
                },
                None => {
                    return Err(EmptyArgError::InvalidAge(args[i + 1].clone()));
                },
            }
            i += 2;
        } else if text::str_eq(arg, "--yes") || text::str_eq(arg, "-y") {
            proof {
                lemma_skip_other(rest);
            }
            confirmed = true;
            i += 1;
        } else {
            return Err(EmptyArgError::UnknownOption(args[i].clone()));
        }
    }
    assert(all.skip(i as int) =~= seq![]);
    Ok(EmptyOptions { older_than, confirmed, age_text })
}

/// Looking for an argument passes by one that is another.
proof fn lemma_skip_other(rest: Seq<Seq<char>>)
    requires
        rest.len() > 0,
        rest[0] == "--yes"@ || rest[0] == "-y"@,
    ensures
        behind_first(rest, "--older"@) == behind_first(rest.skip(1), "--older"@),
{
    reveal_strlit("--older");
    reveal_strlit("--yes");
    reveal_strlit("-y");
    assert(rest[0].len() != "--older"@.len());
}

/// The question that `empty` asks before it removes anything.
pub fn confirmation_prompt(o: &EmptyOptions) -> (s: String)
    ensures
        s@ == match o.age_text {
            Some(a) => "Empty trash items older than "@ + a@ + "? [y/N] "@,
            None => "Empty ALL trash? This cannot be undone. [y/N] "@,
        },
{
    match &o.age_text {
        Some(a) => {
            let mut s = "Empty trash items older than ".to_owned();
            s.append(a.as_str());
            s.append("? [y/N] ");
            s
        },
        None => "Empty ALL trash? This cannot be undone. [y/N] ".to_owned(),
    }
}

/// The two characters are the same but for the case of an ASCII letter; the
/// second is in lower case.
pub open spec fn is_lowered(c: char, lower: char) -> bool {
    c == lower || (c as nat) + 32 == lower as nat && 'A' <= c <= 'Z'
}

/// The answer is `y` or `yes`, in any case, with white space around it or not.
pub open spec fn is_yes(answer: Seq<char>) -> bool {
    let t = text::trimmed(answer);
    ||| t.len() == 1 && is_lowered(t[0], 'y')
    ||| t.len() == 3 && is_lowered(t[0], 'y') && is_lowered(t[1], 'e') && is_lowered(t[2], 's')
}

/// Whether the answer agrees.
pub fn agrees(answer: &str) -> (r: bool)
    ensures
        r == is_yes(answer@),
{
    let t = text::chars_of(text::trim(answer).as_str());
    if t.len() == 1 {
        t[0] == 'y' || t[0] == 'Y'
    } else if t.len() == 3 {
        (t[0] == 'y' || t[0] == 'Y') && (t[1] == 'e' || t[1] == 'E') && (t[2] == 's' || t[2] == 'S')
    } else {
        false
    }
}

/// The item is known to have been deleted at least `age` seconds ago.
pub open spec fn is_expired(e: Entry, age: nat, now: int) -> bool {
    e.time matches Some(t) && now - t >= age && now >= t
}

/// Whether an item is removed when only items of an age are.
pub fn expired(e: &TrashEntry, age: u64, now: i64) -> (r: bool)
    ensures
        r == is_expired(e@, age as nat, now as int),
{
    match e.deletion_time {
        Some(t) => now >= 0 && t <= now as u64 && now as u64 - t >= age,
        None => false,
    }
}

/// The places of the items that are removed when only items of an age are.
pub open spec fn expired_places(s: Seq<Entry>, age: nat, now: int) -> Seq<usize>
    decreases s.len(),
{
    if s.len() == 0 {
        seq![]
    } else {
        let before = expired_places(s.drop_last(), age, now);
        if is_expired(s.last(), age, now) {
            before.push((s.len() - 1) as usize)
        } else {
            before
        }
    }
}

/// The places of the items that are removed when only items of an age are, in
/// their order.
pub fn select_expired(items: &[TrashEntry], age: u64, now: i64) -> (r: Vec<usize>)
    ensures
        r@ == expired_places(entries::views(items@), age as nat, now as int),
        forall|k: int| 0 <= k < r@.len() ==> #[trigger] r@[k] < items@.len(),
{
    let ghost all = entries::views(items@);
    let mut r: Vec<usize> = Vec::new();
    let mut i: usize = 0;
    assert(all.take(0) =~= seq![]);
    while i < items.len()
        invariant
            i <= items@.len(),
            all == entries::views(items@),
            r@ == expired_places(all.take(i as int), age as nat, now as int),
            forall|k: int| 0 <= k < r@.len() ==> #[trigger] r@[k] < items@.len(),
        decreases items.len() - i,
    {
        assert(all.take(i + 1).drop_last() =~= all.take(i as int));
        assert(all.take(i + 1).last() == items@[i as int]@);
        if expired(&items[i], age, now) {
            r.push(i);
        }
        i += 1;
    }
    assert(all.take(i as int) =~= all);
    r
}

/// What to do next about an item that is removed for its age.
#[derive(Clone, Copy, PartialEq, Eq, Structural)]
pub enum EmptyStep {
    /// See whether the item is in the trash.
    Look,
    /// Remove the item.
    RemoveItem,
    /// Remove the file that describes it.
    RemoveInfo,
    /// The item is gone.
    Removed,
    /// The item could not be removed.
    Failed,
}

/// The step that follows, by whether a step found or did what it was to.
pub open spec fn after_empty_step(step: EmptyStep, ok: bool) -> EmptyStep {
    match step {
        EmptyStep::Look => if ok {
            EmptyStep::RemoveItem
        } else {
            EmptyStep::RemoveInfo
        },
        EmptyStep::RemoveItem => if ok {
            EmptyStep::RemoveInfo
        } else {
            EmptyStep::Failed
        },
        EmptyStep::RemoveInfo => EmptyStep::Removed,
        EmptyStep::Removed => EmptyStep::Removed,
        EmptyStep::Failed => EmptyStep::Failed,
    }
}

/// The step that follows, by whether a step found or did what it was to.
pub fn next_empty_step(step: EmptyStep, ok: bool) -> (r: EmptyStep)
    ensures
        r == after_empty_step(step, ok),
{
    match step {
        EmptyStep::Look => if ok {
            EmptyStep::RemoveItem
        } else {
            EmptyStep::RemoveInfo
        },
        EmptyStep::RemoveItem => if ok {
            EmptyStep::RemoveInfo
        } else {
            EmptyStep::Failed
        },
        EmptyStep::RemoveInfo => EmptyStep::Removed,
        EmptyStep::Removed => EmptyStep::Removed,
        EmptyStep::Failed => EmptyStep::Failed,
    }
}

/// How a run of `empty` ends.
#[derive(Clone, Copy, PartialEq, Eq, Structural)]
pub enum EmptyEnd {
    /// There was nobody to ask.
    Refused,
    /// The answer could not be read.
    Unanswered,
    /// The answer did not agree.
    Cancelled,
    /// The work is done.
    Finished,
}

/// What to do next in a run of `empty`. Each phase but the last is answered by
/// an event.
#[derive(Clone, Copy, PartialEq, Eq, Structural)]
pub enum EmptyPhase {
    /// See whether there is somebody to ask.
    CheckTerminal,
    /// Ask, and see whether the answer agrees.
    Ask,
    /// Find the items that are old enough.
    Select,
    /// Deal with one of the items that are old enough.
    Item { place: usize, count: usize, step: EmptyStep },
    /// Find what is in the trash directory.
    ListTrash,
    /// Remove one of the things in the trash directory.
    RemoveOne { place: usize, count: usize },
    /// Find what is in the `.trashinfo` directory.
    ListInfo,
    /// Remove one of the things in the `.trashinfo` directory.
    ClearOne { place: usize, count: usize },
    /// Find the `.trashinfo` files that describe nothing any more.
    ListOrphans,
    /// Remove one of these.
    RemoveOrphan { place: usize, count: usize },
    /// Nothing more is to be done.
    Done(EmptyEnd),
}

/// What came of a phase.
#[derive(Clone, Copy, PartialEq, Eq, Structural)]
pub enum EmptyEvent {
    /// It is so, or it was done.
    Yes,
    /// It is not so, or it could not be done.
    No,
    /// The answer could not be read.
    Unreadable,
    /// So many things were found.
    Found(usize),
}

/// Where the work starts, by whether only items of an age are to go.
pub open spec fn work(selective: bool) -> EmptyPhase {
    if selective {
        EmptyPhase::Select
    } else {
        EmptyPhase::ListTrash
    }
}

/// There is one more thing behind the one at a place.
pub open spec fn has_next(place: usize, count: usize) -> bool {
    place + 1 < count
}

/// How many things an event says were found.
pub open spec fn found(event: EmptyEvent) -> usize {
    match event {
        EmptyEvent::Found(n) => n,
        _ => 0,
    }
}

/// The phase that follows on an event.
pub open spec fn after_phase(selective: bool, phase: EmptyPhase, event: EmptyEvent) -> EmptyPhase {
    match phase {
        EmptyPhase::CheckTerminal => if event == EmptyEvent::Yes {
            EmptyPhase::Ask
        } else {
            EmptyPhase::Done(EmptyEnd::Refused)
        },
        EmptyPhase::Ask => match event {
            EmptyEvent::Yes => work(selective),
            EmptyEvent::Unreadable => EmptyPhase::Done(EmptyEnd::Unanswered),
            _ => EmptyPhase::Done(EmptyEnd::Cancelled),
        },
        EmptyPhase::Select => if found(event) > 0 {
            EmptyPhase::Item { place: 0, count: found(event), step: EmptyStep::Look }
        } else {
            EmptyPhase::ListOrphans
        },
        EmptyPhase::Item { place, count, step } => {
            let after = after_empty_step(step, event == EmptyEvent::Yes);
            if after != EmptyStep::Removed && after != EmptyStep::Failed {
                EmptyPhase::Item { place, count, step: after }
            } else if has_next(place, count) {
                EmptyPhase::Item { place: (place + 1) as usize, count, step: EmptyStep::Look }
            } else {
                EmptyPhase::ListOrphans
            }
        },
        EmptyPhase::ListTrash => if found(event) > 0 {
            EmptyPhase::RemoveOne { place: 0, count: found(event) }
        } else {
            EmptyPhase::ListInfo
        },
        EmptyPhase::RemoveOne { place, count } => if has_next(place, count) {
            EmptyPhase::RemoveOne { place: (place + 1) as usize, count }
        } else {
            EmptyPhase::ListInfo
        },
        EmptyPhase::ListInfo => if found(event) > 0 {
            EmptyPhase::ClearOne { place: 0, count: found(event) }
        } else {
            EmptyPhase::ListOrphans
        },
        EmptyPhase::ClearOne { place, count } => if has_next(place, count) {
            EmptyPhase::ClearOne { place: (place + 1) as usize, count }
        } else {
            EmptyPhase::ListOrphans
        },
        EmptyPhase::ListOrphans => if found(event) > 0 {
            EmptyPhase::RemoveOrphan { place: 0, count: found(event) }
        } else {
            EmptyPhase::Done(EmptyEnd::Finished)
        },
        EmptyPhase::RemoveOrphan { place, count } => if has_next(place, count) {
            EmptyPhase::RemoveOrphan { place: (place + 1) as usize, count }
        } else {
            EmptyPhase::Done(EmptyEnd::Finished)
        },
        EmptyPhase::Done(end) => EmptyPhase::Done(end),
    }
}

/// The first phase of a run.
pub open spec fn first_empty_phase(confirmed: bool, selective: bool) -> EmptyPhase {
    if confirmed {
        work(selective)
    } else {
        EmptyPhase::CheckTerminal
    }
}

/// The phase that a run has reached after some events.
pub open spec fn phase_after(
    selective: bool,
    start: EmptyPhase,
    events: Seq<EmptyEvent>,
) -> EmptyPhase
    decreases events.len(),
{
    if events.len() == 0 {
        start
    } else {
        after_phase(selective, phase_after(selective, start, events.drop_last()), events.last())
    }
}

/// Whether an event in a phase settles the removal of an item, and how.
pub open spec fn settled(phase: EmptyPhase, event: EmptyEvent) -> Option<bool> {
    match phase {
        EmptyPhase::Item { place, count, step } => match after_empty_step(
            step,
            event == EmptyEvent::Yes,
        ) {
            EmptyStep::Removed => Some(true),
            EmptyStep::Failed => Some(false),
            _ => None,
        },
        EmptyPhase::RemoveOne { .. } => Some(event == EmptyEvent::Yes),
        _ => None,
    }
}

/// The first phase of a run.
pub fn start_empty(o: &EmptyOptions) -> (r: EmptyPhase)
    ensures
        r == first_empty_phase(o.confirmed, o.older_than is Some),
{
    if !o.confirmed {
        EmptyPhase::CheckTerminal
    } else if o.older_than.is_some() {
        EmptyPhase::Select
    } else {
        EmptyPhase::ListTrash
    }
}

/// How many things an event says were found.
fn found_in(event: EmptyEvent) -> (n: usize)
    ensures
        n == found(event),
{
    match event {
        EmptyEvent::Found(n) => n,
        _ => 0,
    }
}

/// The place behind `place`, where there is one more thing.
fn next_place(place: usize, count: usize) -> (r: Option<usize>)
    ensures
        r == if has_next(place, count) {
            Some((place + 1) as usize)
        } else {
            None
        },
{
    if place < count && count - place > 1 {
        Some(place + 1)
    } else {
        None
    }
}

/// The phase that follows on an event.
pub fn next_empty_phase(o: &EmptyOptions, phase: EmptyPhase, event: EmptyEvent) -> (r: EmptyPhase)
    ensures
        r == after_phase(o.older_than is Some, phase, event),
{
    let n = found_in(event);
    let yes: bool = event == EmptyEvent::Yes;
    match phase {
        EmptyPhase::CheckTerminal => if yes {
            EmptyPhase::Ask
        } else {
            EmptyPhase::Done(EmptyEnd::Refused)
        },
        EmptyPhase::Ask => match event {
            EmptyEvent::Yes => if o.older_than.is_some() {
                EmptyPhase::Select
            } else {
                EmptyPhase::ListTrash
            },
            EmptyEvent::Unreadable => EmptyPhase::Done(EmptyEnd::Unanswered),
            _ => EmptyPhase::Done(EmptyEnd::Cancelled),
        },
        EmptyPhase::Select => if n > 0 {
            EmptyPhase::Item { place: 0, count: n, step: EmptyStep::Look }
        } else {
            EmptyPhase::ListOrphans
        },
        EmptyPhase::Item { place, count, step } => {
            let after = next_empty_step(step, yes);
            if after != EmptyStep::Removed && after != EmptyStep::Failed {
                EmptyPhase::Item { place, count, step: after }
            } else {
                match next_place(place, count) {
                    Some(p) => EmptyPhase::Item { place: p, count, step: EmptyStep::Look },
                    None => EmptyPhase::ListOrphans,
                }
            }
        },
        EmptyPhase::ListTrash => if n > 0 {
            EmptyPhase::RemoveOne { place: 0, count: n }
        } else {
            EmptyPhase::ListInfo
        },
        EmptyPhase::RemoveOne { place, count } => match next_place(place, count) {
            Some(p) => EmptyPhase::RemoveOne { place: p, count },
            None => EmptyPhase::ListInfo,
        },
        EmptyPhase::ListInfo => if n > 0 {
            EmptyPhase::ClearOne { place: 0, count: n }
        } else {
            EmptyPhase::ListOrphans
        },
        EmptyPhase::ClearOne { place, count } => match next_place(place, count) {
            Some(p) => EmptyPhase::ClearOne { place: p, count },
            None => EmptyPhase::ListOrphans,
        },
        EmptyPhase::ListOrphans => if n > 0 {
            EmptyPhase::RemoveOrphan { place: 0, count: n }
        } else {
            EmptyPhase::Done(EmptyEnd::Finished)
        },
        EmptyPhase::RemoveOrphan { place, count } => match next_place(place, count) {
            Some(p) => EmptyPhase::RemoveOrphan { place: p, count },
            None => EmptyPhase::Done(EmptyEnd::Finished),
        },
        EmptyPhase::Done(end) => EmptyPhase::Done(end),
    }
}

/// Whether an event in a phase settles the removal of an item, and how.
pub fn settles(phase: EmptyPhase, event: EmptyEvent) -> (r: Option<bool>)
    ensures
        r == settled(phase, event),
{
    let yes: bool = event == EmptyEvent::Yes;
    match phase {
        EmptyPhase::Item { place: _, count: _, step } => match next_empty_step(step, yes) {
            EmptyStep::Removed => Some(true),
            EmptyStep::Failed => Some(false),
            _ => None,
        },
        EmptyPhase::RemoveOne { place: _, count: _ } => Some(yes),
        _ => None,
    }
}

/// Emptying the whole trash removes a name of the trash directory: all but the
/// directory of descriptions, which is cleared by itself.
pub open spec fn goes(name: Seq<char>) -> bool {
    name != ".trash-metadata"@
}

/// A file of the `.trashinfo` directory describes nothing any more.
pub open spec fn is_orphaned(name: Seq<char>, item_exists: bool) -> bool {
    paths::names_info(name) && !item_exists
}

/// Whether emptying the whole trash removes a name of the trash directory.
pub fn is_emptied(name: &str) -> (r: bool)
    ensures
        r == goes(name@),
{
    !text::str_eq(name, ".trash-metadata")
}

/// Whether a file of the `.trashinfo` directory describes nothing any more.
pub fn is_orphan(name: &str, item_exists: bool) -> (r: bool)
    ensures
        r == is_orphaned(name@, item_exists),
{
    paths::is_info_name(name) && !item_exists
}

/// The places of the names that emptying the whole trash removes.
pub open spec fn going_places(names: Seq<Seq<char>>) -> Seq<usize>
    decreases names.len(),
{
    if names.len() == 0 {
        seq![]
    } else {
        let before = going_places(names.drop_last());
        if goes(names.last()) {
            before.push((names.len() - 1) as usize)
        } else {
            before
        }
    }
}

/// The places of the files that describe nothing any more, given for each
/// whether its item exists.
pub open spec fn orphaned_places(names: Seq<Seq<char>>, exists: Seq<bool>) -> Seq<usize>
    decreases names.len(),
{
    if names.len() == 0 {
        seq![]
    } else {
        let before = orphaned_places(names.drop_last(), exists.drop_last());
        if is_orphaned(names.last(), exists.last()) {
            before.push((names.len() - 1) as usize)
        } else {
            before
        }
    }
}

/// The places of the names of the trash directory that emptying the whole trash
/// removes, in their order.
pub fn emptied_places(names: &[String]) -> (r: Vec<usize>)
    ensures
        r@ == going_places(text::texts(names@)),
        forall|k: int| 0 <= k < r@.len() ==> #[trigger] r@[k] < names@.len(),
{
    let ghost all = text::texts(names@);
    let mut r: Vec<usize> = Vec::new();
    let mut i: usize = 0;
    assert(all.take(0) =~= seq![]);
    while i < names.len()
        invariant
            i <= names@.len(),
            all == text::texts(names@),
            r@ == going_places(all.take(i as int)),
            forall|k: int| 0 <= k < r@.len() ==> #[trigger] r@[k] < names@.len(),
        decreases names.len() - i,
    {
        assert(all.take(i + 1).drop_last() =~= all.take(i as int));
        assert(all.take(i + 1).last() == names@[i as int]@);
        if is_emptied(names[i].as_str()) {
            r.push(i);
        }
        i += 1;
    }
    assert(all.take(i as int) =~= all);
    r
}

/// The places of the files of the `.trashinfo` directory that describe nothing
/// any more, in their order, given for each whether its item exists.
pub fn orphan_places(names: &[String], exists: &[bool]) -> (r: Vec<usize>)
    requires
        names@.len() == exists@.len(),
    ensures
        r@ == orphaned_places(text::texts(names@), exists@),
        forall|k: int| 0 <= k < r@.len() ==> #[trigger] r@[k] < names@.len(),
{
    let ghost all = text::texts(names@);
    let mut r: Vec<usize> = Vec::new();
    let mut i: usize = 0;
    assert(all.take(0) =~= seq![]);
    while i < names.len()
        invariant
            i <= names@.len(),
            names@.len() == exists@.len(),
            all == text::texts(names@),
            r@ == orphaned_places(all.take(i as int), exists@.take(i as int)),
            forall|k: int| 0 <= k < r@.len() ==> #[trigger] r@[k] < names@.len(),
        decreases names.len() - i,
    {
        assert(all.take(i + 1).drop_last() =~= all.take(i as int));
        assert(exists@.take(i + 1).drop_last() =~= exists@.take(i as int));
        assert(all.take(i + 1).last() == names@[i as int]@);
        if is_orphan(names[i].as_str(), exists[i]) {
            r.push(i);
        }
        i += 1;
    }
    assert(all.take(i as int) =~= all);
    assert(exists@.take(i as int) =~= exists@);
    r
}

/// What is said of an item that could not be removed.
pub fn removal_failure(path: &str, reason: &str) -> (s: String)
    ensures
        s@ == "trash empty: failed to remove "@ + path@ + ": "@ + reason@,
{
    let mut s = "trash empty: failed to remove ".to_owned();
    s.append(path);
    s.append(": ");
    s.append(reason);
    s
}

/// How many of the outcomes are `ok`.
pub open spec fn count(outcomes: Seq<bool>, ok: bool) -> nat
    decreases outcomes.len(),
{
    if outcomes.len() == 0 {
        0
    } else {
        count(outcomes.drop_last(), ok) + if outcomes.last() == ok {
            1nat
        } else {
            0
        }
    }
}

/// What `empty` reports at its end, given how many items were removed and how
/// many could not be.
pub open spec fn empty_said(end: EmptyEnd, removed: nat, errors: nat) -> Said {
    match end {
        EmptyEnd::Refused => report::failure(
            "trash empty: refusing to empty trash without --yes (not a TTY)\n"@,
        ),
        EmptyEnd::Unanswered => report::failure(seq![]),
        EmptyEnd::Cancelled => report::failure("Cancelled.\n"@),
        EmptyEnd::Finished => if errors > 0 {
            report::failure(
                "Removed "@ + text::decimal(removed) + " items ("@ + text::decimal(errors)
                    + " errors)\n"@,
            )
        } else {
            report::success("Removed "@ + text::decimal(removed) + " items\n"@)
        },
    }
}

/// What `empty` reports of the work that it did.
fn work_report(outcomes: &[bool]) -> (r: Report)
    ensures
        r@ == empty_said(
            EmptyEnd::Finished,
            count(outcomes@, true),
            count(outcomes@, false),
        ),
{
    let mut removed: u64 = 0;
    let mut errors: u64 = 0;
    let mut i: usize = 0;
    assert(outcomes@.take(0) =~= seq![]);
    while i < outcomes.len()
        invariant
            i <= outcomes@.len(),
            removed == count(outcomes@.take(i as int), true),
            errors == count(outcomes@.take(i as int), false),
            removed + errors == i,
        decreases outcomes.len() - i,
    {
        assert(outcomes@.take(i + 1).drop_last() =~= outcomes@.take(i as int));
        if outcomes[i] {
            removed += 1;
        } else {
            errors += 1;
        }
        i += 1;
    }
    assert(outcomes@.take(i as int) =~= outcomes@);
    let mut s = "Removed ".to_owned();
    s.append(text::decimal_of(removed).as_str());
    if errors > 0 {
        s.append(" items (");
        s.append(text::decimal_of(errors).as_str());
        s.append(" errors)\n");
        Report::failure(s)
    } else {
        s.append(" items\n");
        Report::success(s)
    }
}

/// What `empty` reports at its end, given for each item that it settled whether
/// it was removed.
pub fn empty_report(end: EmptyEnd, outcomes: &[bool]) -> (r: Report)
    ensures
        r@ == empty_said(end, count(outcomes@, true), count(outcomes@, false)),
{
    match end {
        EmptyEnd::Refused => Report::failure(
            "trash empty: refusing to empty trash without --yes (not a TTY)\n".to_owned(),
        ),
        EmptyEnd::Unanswered => Report::failure(String::new()),
        EmptyEnd::Cancelled => Report::failure("Cancelled.\n".to_owned()),
        EmptyEnd::Finished => work_report(outcomes),
    }
}

/// `list --older` shows what `empty --older` would remove, and besides that only
/// items of which it is not known when they were deleted.
pub proof fn law_list_shows_what_empty_removes(
    e: Entry,
    o: list::ListOptions,
    age: u64,
    now: int,
    cwd: Seq<char>,
)
    requires
        o.older_than == Some(age),
        !o.project,
    ensures
        list::is_listed(e, o, now, cwd) <==> is_expired(e, age as nat, now) || e.time is None,
{
}

/// An item without a known date is never removed for its age.
pub proof fn law_undated_items_are_kept(e: Entry, age: nat, now: int)
    requires
        e.time is None,
    ensures
        !is_expired(e, age, now),
{
}

/// The places that are selected are those of the items old enough, each once,
/// in order.
pub proof fn law_selects_expired(s: Seq<Entry>, age: nat, now: int)
    requires
        s.len() <= usize::MAX,
    ensures
        ({
            let r = expired_places(s, age, now);
            &&& forall|k: int|
                0 <= k < r.len() ==> #[trigger] r[k] < s.len() && is_expired(
                    s[r[k] as int],
                    age,
                    now,
                )
            &&& forall|j: int, k: int| 0 <= j < k < r.len() ==> #[trigger] r[j] < #[trigger] r[k]
            &&& forall|i: int|
                0 <= i < s.len() && is_expired(#[trigger] s[i], age, now) ==> r.contains(
                    i as usize,
                )
        }),
    decreases s.len(),
{
    if s.len() > 0 {
        let t = s.drop_last();
        let before = expired_places(t, age, now);
        let r = expired_places(s, age, now);
        law_selects_expired(t, age, now);
        assert forall|k: int| 0 <= k < r.len() implies #[trigger] r[k] < s.len() && is_expired(
            s[r[k] as int],
            age,
            now,
        ) by {
            if k < before.len() {
                assert(r[k] == before[k]);
                assert(t[before[k] as int] == s[r[k] as int]);
            }
        }
        assert forall|i: int|
            0 <= i < s.len() && is_expired(#[trigger] s[i], age, now) implies r.contains(
            i as usize,
        ) by {
            if i < t.len() {
                assert(t[i] == s[i]);
                let k = before.index_of(i as usize);
                assert(r[k] == i as usize);
            } else {
                assert(r[before.len() as int] == i as usize);
            }
        }
    }
}

/// Something is removed in this phase.
pub open spec fn removes(phase: EmptyPhase) -> bool {
    match phase {
        EmptyPhase::Item { place, count, step } => step == EmptyStep::RemoveItem || step
            == EmptyStep::RemoveInfo,
        EmptyPhase::RemoveOne { .. } => true,
        EmptyPhase::ClearOne { .. } => true,
        EmptyPhase::RemoveOrphan { .. } => true,
        _ => false,
    }
}

/// Only now is it found out whether to remove anything, or it is settled that
/// nothing is removed.
pub open spec fn is_undecided(phase: EmptyPhase) -> bool {
    match phase {
        EmptyPhase::CheckTerminal => true,
        EmptyPhase::Ask => true,
        EmptyPhase::Done(end) => end != EmptyEnd::Finished,
        _ => false,
    }
}

/// Nothing is removed without consent: in a run that was not confirmed
/// beforehand, and in which the question was not answered with yes, no phase
/// removes anything.
pub proof fn law_nothing_is_removed_without_consent(selective: bool, events: Seq<EmptyEvent>)
    requires
        forall|k: int|
            0 <= k < events.len() && #[trigger] events[k] == EmptyEvent::Yes ==> phase_after(
                selective,
                first_empty_phase(false, selective),
                events.take(k),
            ) != EmptyPhase::Ask,
    ensures
        is_undecided(phase_after(selective, first_empty_phase(false, selective), events)),
        !removes(phase_after(selective, first_empty_phase(false, selective), events)),
    decreases events.len(),
{
    if events.len() > 0 {
        let before = events.drop_last();
        assert forall|k: int|
            0 <= k < before.len() && #[trigger] before[k] == EmptyEvent::Yes implies phase_after(
            selective,
            first_empty_phase(false, selective),
            before.take(k),
        ) != EmptyPhase::Ask by {
            assert(events[k] == EmptyEvent::Yes);
            assert(before.take(k) =~= events.take(k));
        }
        law_nothing_is_removed_without_consent(selective, before);
        let k = events.len() - 1;
        assert(events.take(k) =~= before);
        if events[k] == EmptyEvent::Yes {
            assert(phase_after(selective, first_empty_phase(false, selective), before)
                != EmptyPhase::Ask);
        }
    }
}

/// A run for items of an age never empties the whole trash, whatever happens:
/// it removes selected items, their descriptions and orphans only.
pub proof fn law_selective_run_spares_the_rest(confirmed: bool, events: Seq<EmptyEvent>)
    ensures
        ({
            let phase = phase_after(true, first_empty_phase(confirmed, true), events);
            !(phase is ListTrash) && !(phase is RemoveOne) && !(phase is ListInfo) && !(
            phase is ClearOne)
        }),
    decreases events.len(),
{
    if events.len() > 0 {
        law_selective_run_spares_the_rest(confirmed, events.drop_last());
    }
}

/// The file that describes an item stays while the item does: after the
/// removal of an item has failed, the run goes on without touching its
/// description.
pub proof fn law_failed_item_keeps_its_info(selective: bool, place: usize, count: usize)
    ensures
        ({
            let phase = EmptyPhase::Item { place, count, step: EmptyStep::RemoveItem };
            let next = after_phase(selective, phase, EmptyEvent::No);
            &&& settled(phase, EmptyEvent::No) == Some(false)
            &&& next == EmptyPhase::ListOrphans || next == EmptyPhase::Item {
                place: (place + 1) as usize,
                count,
                step: EmptyStep::Look,
            }
        }),
{
}

/// Every item counts, as removed or as an error.
pub proof fn law_every_outcome_counts(outcomes: Seq<bool>)
    ensures
        count(outcomes, true) + count(outcomes, false) == outcomes.len(),
    decreases outcomes.len(),
{
    if outcomes.len() > 0 {
        law_every_outcome_counts(outcomes.drop_last());
    }
}

/// How each item was settled in a run that starts at its work.
pub open spec fn outcomes_after(selective: bool, events: Seq<EmptyEvent>) -> Seq<bool>
    decreases events.len(),
{
    if events.len() == 0 {
        seq![]
    } else {
        let before = outcomes_after(selective, events.drop_last());
        match settled(
            phase_after(selective, work(selective), events.drop_last()),
            events.last(),
        ) {
            Some(ok) => before.push(ok),
            None => before,
        }
    }
}

/// Every item that was found to be removed is settled just once, in order, and
/// nothing else is.
pub proof fn law_every_item_is_settled_once(selective: bool, count: usize, events: Seq<EmptyEvent>)
    requires
        events.len() > 0,
        events[0] == EmptyEvent::Found(count),
    ensures
        match phase_after(selective, work(selective), events) {
            EmptyPhase::Item { place, count: n, step } => n == count && place < n && outcomes_after(
                selective,
                events,
            ).len() == place,
            EmptyPhase::RemoveOne { place, count: n } => n == count && place < n && outcomes_after(
                selective,
                events,
            ).len() == place,
            EmptyPhase::CheckTerminal => false,
            EmptyPhase::Ask => false,
            EmptyPhase::Select => false,
            EmptyPhase::ListTrash => false,
            _ => outcomes_after(selective, events).len() == count,
        },
    decreases events.len(),
{
    let before = events.drop_last();
    if events.len() > 1 {
        law_every_item_is_settled_once(selective, count, before);
    } else {
        assert(phase_after(selective, work(selective), before) == work(selective));
        assert(outcomes_after(selective, before) =~= seq![]);
    }
}

/// The names whose removal failed.
pub open spec fn left_over(names: Seq<Seq<char>>, outcomes: Seq<bool>) -> Seq<Seq<char>>
    decreases names.len(),
{
    if names.len() == 0 {
        seq![]
    } else {
        let before = left_over(names.drop_last(), outcomes.drop_last());
        if outcomes.last() {
            before
        } else {
            before.push(names.last())
        }
    }
}

/// Where no removal failed, nothing is left.
pub proof fn law_success_leaves_nothing(names: Seq<Seq<char>>, outcomes: Seq<bool>)
    requires
        names.len() == outcomes.len(),
        count(outcomes, false) == 0,
    ensures
        left_over(names, outcomes).len() == 0,
    decreases names.len(),
{
    if names.len() > 0 {
        law_success_leaves_nothing(names.drop_last(), outcomes.drop_last());
    }
}

/// Emptying the trash a second time removes no item: where nothing of the trash
/// directory is left after a run without errors, the next run succeeds and
/// counts no item, whatever it finds among the descriptions.
pub proof fn law_second_run_counts_nothing(
    names: Seq<Seq<char>>,
    outcomes: Seq<bool>,
    events: Seq<EmptyEvent>,
)
    requires
        names.len() == outcomes.len(),
        count(outcomes, false) == 0,
        events.len() > 0,
        events[0] == EmptyEvent::Found(left_over(names, outcomes).len() as usize),
        phase_after(false, work(false), events) is Done,
    ensures
        phase_after(false, work(false), events) == EmptyPhase::Done(EmptyEnd::Finished),
        outcomes_after(false, events) == Seq::<bool>::empty(),
        ({
            let again = outcomes_after(false, events);
            empty_said(EmptyEnd::Finished, count(again, true), count(again, false))
                == report::success("Removed "@ + text::decimal(0) + " items\n"@)
        }),
{
    law_success_leaves_nothing(names, outcomes);
    law_every_item_is_settled_once(false, 0, events);
    law_work_is_finished(false, events);
    assert(outcomes_after(false, events) =~= seq![]);
}

/// A run that has come to its work ends by finishing it.
pub proof fn law_work_is_finished(selective: bool, events: Seq<EmptyEvent>)
    ensures
        !is_undecided(phase_after(selective, work(selective), events)),
    decreases events.len(),
{
    if events.len() > 0 {
        law_work_is_finished(selective, events.drop_last());
    }
}

/// Emptying the trash a second time changes nothing: where all that was found
/// in both directories is gone, the next run finds nothing three times, removes
/// nothing, and finishes with no item removed.
pub proof fn law_second_run_changes_nothing(
    names: Seq<Seq<char>>,
    outcomes: Seq<bool>,
    infos: Seq<Seq<char>>,
    cleared: Seq<bool>,
    n: int,
)
    requires
        names.len() == outcomes.len(),
        count(outcomes, false) == 0,
        infos.len() == cleared.len(),
        count(cleared, false) == 0,
        0 <= n <= 3,
    ensures
        ({
            let items = EmptyEvent::Found(left_over(names, outcomes).len() as usize);
            let left = EmptyEvent::Found(left_over(infos, cleared).len() as usize);
            let events = seq![items, left, left];
            &&& !removes(phase_after(false, work(false), events.take(n)))
            &&& phase_after(false, work(false), events) == EmptyPhase::Done(EmptyEnd::Finished)
            &&& outcomes_after(false, events) == Seq::<bool>::empty()
            &&& empty_said(EmptyEnd::Finished, 0, 0) == report::success("Removed 0 items\n"@)
        }),
{
    law_success_leaves_nothing(names, outcomes);
    law_success_leaves_nothing(infos, cleared);
    let none = EmptyEvent::Found(0);
    let events = seq![none, none, none];
    assert(events.take(0) =~= seq![]);
    assert(events.take(1) =~= seq![none]);
    assert(events.take(2) =~= seq![none, none]);
    assert(events.take(3) =~= events);
    assert(events.drop_last() =~= seq![none, none]);
    assert(seq![none, none].drop_last() =~= seq![none]);
    assert(seq![none].drop_last() =~= seq![]);
    reveal_with_fuel(phase_after, 4);
    law_second_run_counts_nothing(names, outcomes, events);
    reveal_strlit("Removed ");
    reveal_strlit(" items\n");
    reveal_strlit("Removed 0 items\n");
    assert(text::decimal(0) =~= seq!['0']);
    assert("Removed "@ + text::decimal(0) + " items\n"@ =~= "Removed 0 items\n"@);
}

/// Asking first and being told yes leads to the same work as not asking.
pub proof fn law_consent_leads_to_the_work(selective: bool, events: Seq<EmptyEvent>)
    ensures
        phase_after(
            selective,
            first_empty_phase(false, selective),
            seq![EmptyEvent::Yes, EmptyEvent::Yes] + events,
        ) == phase_after(selective, first_empty_phase(true, selective), events),
    decreases events.len(),
{
    let consent = seq![EmptyEvent::Yes, EmptyEvent::Yes];
    let all = consent + events;
    if events.len() > 0 {
        law_consent_leads_to_the_work(selective, events.drop_last());
        assert(all.drop_last() =~= consent + events.drop_last());
        assert(all.last() == events.last());
    } else {
        assert(all =~= consent);
        assert(consent.drop_last() =~= seq![EmptyEvent::Yes]);
        assert(consent.drop_last().drop_last() =~= seq![]);
        reveal_with_fuel(phase_after, 3);
    }
}

/// The places that emptying the whole trash takes are those of all names but
/// that of the directory of descriptions, each once, in order.
pub proof fn law_selects_what_goes(names: Seq<Seq<char>>)
    requires
        names.len() <= usize::MAX,
    ensures
        ({
            let r = going_places(names);
            &&& forall|k: int|
                0 <= k < r.len() ==> #[trigger] r[k] < names.len() && goes(names[r[k] as int])
            &&& forall|j: int, k: int| 0 <= j < k < r.len() ==> #[trigger] r[j] < #[trigger] r[k]
            &&& forall|i: int|
                0 <= i < names.len() && goes(#[trigger] names[i]) ==> r.contains(i as usize)
        }),
    decreases names.len(),
{
    if names.len() > 0 {
        let t = names.drop_last();
        let before = going_places(t);
        let r = going_places(names);
        law_selects_what_goes(t);
        assert forall|k: int| 0 <= k < r.len() implies #[trigger] r[k] < names.len() && goes(
            names[r[k] as int],
        ) by {
            if k < before.len() {
                assert(r[k] == before[k]);
                assert(t[before[k] as int] == names[r[k] as int]);
            }
        }
        assert forall|i: int| 0 <= i < names.len() && goes(#[trigger] names[i]) implies r.contains(
            i as usize,
        ) by {
            if i < t.len() {
                assert(t[i] == names[i]);
                let k = before.index_of(i as usize);
                assert(r[k] == i as usize);
            } else {
                assert(r[before.len() as int] == i as usize);
            }
        }
    }
}

/// The places of orphans are those of the descriptions whose item is gone, each
/// once, in order.
pub proof fn law_selects_orphans(names: Seq<Seq<char>>, exists: Seq<bool>)
    requires
        names.len() == exists.len(),
        names.len() <= usize::MAX,
    ensures
        ({
            let r = orphaned_places(names, exists);
            &&& forall|k: int|
                0 <= k < r.len() ==> #[trigger] r[k] < names.len() && is_orphaned(
                    names[r[k] as int],
                    exists[r[k] as int],
                )
            &&& forall|j: int, k: int| 0 <= j < k < r.len() ==> #[trigger] r[j] < #[trigger] r[k]
            &&& forall|i: int|
                0 <= i < names.len() && is_orphaned(#[trigger] names[i], exists[i]) ==> r.contains(
                    i as usize,
                )
        }),
    decreases names.len(),
{
    if names.len() > 0 {
        let (t, u) = (names.drop_last(), exists.drop_last());
        let before = orphaned_places(t, u);
        let r = orphaned_places(names, exists);
        law_selects_orphans(t, u);
        assert forall|k: int| 0 <= k < r.len() implies #[trigger] r[k] < names.len() && is_orphaned(
            names[r[k] as int],
            exists[r[k] as int],
        ) by {
            if k < before.len() {
                assert(r[k] == before[k]);
                assert(t[before[k] as int] == names[r[k] as int]);
                assert(u[before[k] as int] == exists[r[k] as int]);
            }
        }
        assert forall|i: int|
            0 <= i < names.len() && is_orphaned(#[trigger] names[i], exists[i]) implies r.contains(
            i as usize,
        ) by {
            if i < t.len() {
                assert(t[i] == names[i] && u[i] == exists[i]);
                let k = before.index_of(i as usize);
                assert(r[k] == i as usize);
            } else {
                assert(r[before.len() as int] == i as usize);
            }
        }
    }
}

/// The place of the description that a phase clears.
pub open spec fn clear_place(phase: EmptyPhase) -> Option<usize> {
    match phase {
        EmptyPhase::ClearOne { place, count } => Some(place),
        _ => None,
    }
}

/// The place of the orphan that a phase removes.
pub open spec fn orphan_place(phase: EmptyPhase) -> Option<usize> {
    match phase {
        EmptyPhase::RemoveOrphan { place, count } => Some(place),
        _ => None,
    }
}

/// The places that a run which starts at its work has visited, in their order,
/// and for each whether the removal there succeeded.
pub open spec fn visits(
    selective: bool,
    events: Seq<EmptyEvent>,
    place: spec_fn(EmptyPhase) -> Option<usize>,
) -> Seq<(usize, bool)>
    decreases events.len(),
{
    if events.len() == 0 {
        seq![]
    } else {
        let before = visits(selective, events.drop_last(), place);
        match place(phase_after(selective, work(selective), events.drop_last())) {
            Some(p) => before.push((p, events.last() == EmptyEvent::Yes)),
            None => before,
        }
    }
}

/// How many descriptions the run found to clear, once it has listed them.
pub open spec fn infos_found(selective: bool, events: Seq<EmptyEvent>) -> Option<usize>
    decreases events.len(),
{
    if events.len() == 0 {
        None
    } else if phase_after(selective, work(selective), events.drop_last()) is ListInfo {
        Some(found(events.last()))
    } else {
        infos_found(selective, events.drop_last())
    }
}

/// How many orphans the run found to remove, once it has listed them.
pub open spec fn orphans_found(selective: bool, events: Seq<EmptyEvent>) -> Option<usize>
    decreases events.len(),
{
    if events.len() == 0 {
        None
    } else if phase_after(selective, work(selective), events.drop_last()) is ListOrphans {
        Some(found(events.last()))
    } else {
        orphans_found(selective, events.drop_last())
    }
}

/// The visits are to the first `n` places, each once, in order.
pub open spec fn is_each_once(v: Seq<(usize, bool)>, n: nat) -> bool {
    v.len() == n && forall|k: int| 0 <= k < n ==> (#[trigger] v[k]).0 == k
}

/// When the whole trash is emptied, every description that was listed is
/// visited just once, in order, behind its listing and before the orphans are
/// listed.
pub proof fn law_every_description_is_cleared_once(events: Seq<EmptyEvent>)
    ensures
        ({
            let v = visits(false, events, |p: EmptyPhase| clear_place(p));
            let n = infos_found(false, events);
            match phase_after(false, work(false), events) {
                EmptyPhase::ClearOne { place, count } => n == Some(count) && place < count
                    && is_each_once(v, place as nat),
                EmptyPhase::ListOrphans => n is Some && is_each_once(v, n->0 as nat),
                EmptyPhase::RemoveOrphan { place, count } => n is Some && is_each_once(
                    v,
                    n->0 as nat,
                ),
                EmptyPhase::Done(end) => end == EmptyEnd::Finished && n is Some && is_each_once(
                    v,
                    n->0 as nat,
                ),
                EmptyPhase::ListTrash => n is None && v.len() == 0,
                EmptyPhase::RemoveOne { place, count } => n is None && v.len() == 0,
                EmptyPhase::ListInfo => n is None && v.len() == 0,
                _ => false,
            }
        }),
    decreases events.len(),
{
    if events.len() > 0 {
        law_every_description_is_cleared_once(events.drop_last());
    }
}

/// A run for items of an age clears no description but those of its items and
/// orphans.
pub proof fn law_selective_run_clears_no_directory(events: Seq<EmptyEvent>)
    ensures
        visits(true, events, |p: EmptyPhase| clear_place(p)).len() == 0,
        infos_found(true, events) is None,
    decreases events.len(),
{
    if events.len() > 0 {
        law_selective_run_clears_no_directory(events.drop_last());
        law_selective_run_spares_the_rest(true, events.drop_last());
    }
}

/// In every run, each orphan that was listed is visited just once, in order,
/// behind the last listing; a finished run has listed them and visited all.
pub proof fn law_every_orphan_is_visited_once(selective: bool, events: Seq<EmptyEvent>)
    ensures
        ({
            let v = visits(selective, events, |p: EmptyPhase| orphan_place(p));
            let n = orphans_found(selective, events);
            match phase_after(selective, work(selective), events) {
                EmptyPhase::RemoveOrphan { place, count } => n == Some(count) && place < count
                    && is_each_once(v, place as nat),
                EmptyPhase::Done(end) => end == EmptyEnd::Finished && n is Some && is_each_once(
                    v,
                    n->0 as nat,
                ),
                EmptyPhase::CheckTerminal => false,
                EmptyPhase::Ask => false,
                _ => n is None && v.len() == 0,
            }
        }),
    decreases events.len(),
{
    if events.len() > 0 {
        law_every_orphan_is_visited_once(selective, events.drop_last());
    }
}

/// No orphan is left behind where their removals succeed: a finished run that
/// listed these orphans has tried to remove every one of them.
pub proof fn law_no_orphan_is_left(
    selective: bool,
    orphans: Seq<Seq<char>>,
    events: Seq<EmptyEvent>,
)
    requires
        phase_after(selective, work(selective), events) is Done,
        orphans_found(selective, events) == Some(orphans.len() as usize),
        orphans.len() <= usize::MAX,
    ensures
        ({
            let v = visits(selective, events, |p: EmptyPhase| orphan_place(p));
            let outcomes = v.map_values(|x: (usize, bool)| x.1);
            &&& is_each_once(v, orphans.len())
            &&& (forall|k: int| 0 <= k < v.len() ==> (#[trigger] v[k]).1) ==> left_over(
                orphans,
                outcomes,
            ).len() == 0
        }),
{
    let v = visits(selective, events, |p: EmptyPhase| orphan_place(p));
    let outcomes = v.map_values(|x: (usize, bool)| x.1);
    law_every_orphan_is_visited_once(selective, events);
    if forall|k: int| 0 <= k < v.len() ==> (#[trigger] v[k]).1 {
        assert forall|k: int| 0 <= k < outcomes.len() implies #[trigger] outcomes[k] by {
            assert(outcomes[k] == v[k].1);
        }
        lemma_no_failure(outcomes);
        law_success_leaves_nothing(orphans, outcomes);
    }
}

/// Where every outcome is a success, none is a failure.
proof fn lemma_no_failure(outcomes: Seq<bool>)
    requires
        forall|k: int| 0 <= k < outcomes.len() ==> #[trigger] outcomes[k],
    ensures
        count(outcomes, false) == 0,
    decreases outcomes.len(),
{
    if outcomes.len() > 0 {
        let t = outcomes.drop_last();
        assert forall|k: int| 0 <= k < t.len() implies #[trigger] t[k] by {
            assert(t[k] == outcomes[k]);
        }
        lemma_no_failure(t);
        assert(outcomes[outcomes.len() - 1]);
    }
}

/// An item is removed for its age just where it is known when it was deleted and
/// the age has passed since: its deletion time and the age together are not
/// beyond now. However great the age is, one for which they are is kept.
pub proof fn law_age_must_have_passed(e: Entry, age: nat, now: int)
    ensures
        e.time matches Some(t) ==> (is_expired(e, age, now) <==> t + age <= now),
        e.time is None ==> !is_expired(e, age, now),
{
}

/// The places that are selected for an age are just those of the items for which
/// it has passed.
pub proof fn law_selects_those_whose_age_has_passed(s: Seq<Entry>, age: nat, now: int, i: int)
    requires
        0 <= i < s.len() <= usize::MAX,
    ensures
        expired_places(s, age, now).contains(i as usize) <==> s[i].time is Some && s[i].time->0 + age
            <= now,
{
    law_selects_expired(s, age, now);
    let r = expired_places(s, age, now);
    if r.contains(i as usize) {
        let k = r.index_of(i as usize);
        assert(r[k] < s.len() && is_expired(s[r[k] as int], age, now));
    }
    if is_expired(s[i], age, now) {
        assert(r.contains(i as usize));
    }
}

/// What is removed for an age is removed for every smaller one, and what is
/// removed now is removed later.
pub proof fn law_patience_removes_more(
    e: Entry,
    age: nat,
    smaller: nat,
    now: int,
    later: int,
)
    requires
        is_expired(e, age, now),
        smaller <= age,
        now <= later,
    ensures
        is_expired(e, smaller, later),
{
}

/// Only the age and the deletion time decide, and only by their difference.
pub proof fn law_only_the_times_decide(
    e: Entry,
    f: Entry,
    age: nat,
    now: int,
    shift: nat,
)
    requires
        e.time is Some,
        f.time == Some(e.time->0 + shift),
    ensures
        is_expired(e, age, now) <==> is_expired(f, age, now + shift),
        is_expired(e, age, now) <==> is_expired(e, age + shift, now + shift),
{
}

/// Only `y` and `yes` agree, each letter in either case, with white space around
/// them or not.
pub proof fn law_only_yes_agrees(answer: Seq<char>)
    ensures
        is_yes(answer) <==> {
            let t = text::trimmed(answer);
            ||| t == seq!['y']
            ||| t == seq!['Y']
            ||| t == seq!['y', 'e', 's']
            ||| t == seq!['y', 'e', 'S']
            ||| t == seq!['y', 'E', 's']
            ||| t == seq!['y', 'E', 'S']
            ||| t == seq!['Y', 'e', 's']
            ||| t == seq!['Y', 'e', 'S']
            ||| t == seq!['Y', 'E', 's']
            ||| t == seq!['Y', 'E', 'S']
        },
{
    let t = text::trimmed(answer);
    assert(t.len() == 1 ==> t =~= seq![t[0]]);
    assert(t.len() == 3 ==> t =~= seq![t[0], t[1], t[2]]);
    if is_yes(answer) {
        assert(t[0] == 'y' || t[0] == 'Y') by {
            lemma_lowered(t[0], 'y', 'Y');
        }
        if t.len() == 3 {
            lemma_lowered(t[1], 'e', 'E');
            lemma_lowered(t[2], 's', 'S');
        }
    }
}

/// A letter is in lower case, or it is the one in upper case.
proof fn lemma_lowered(c: char, lower: char, upper: char)
    requires
        upper as nat + 32 == lower as nat,
        is_lowered(c, lower),
    ensures
        c == lower || c == upper,
{
}

/// Outcomes are counted one by one.
pub proof fn law_outcomes_are_counted_one_by_one(outcomes: Seq<bool>, outcome: bool, ok: bool)
    ensures
        count(seq![], ok) == 0,
        count(outcomes.push(outcome), ok) == count(outcomes, ok) + if outcome == ok {
            1nat
        } else {
            0
        },
{
    assert(outcomes.push(outcome).drop_last() =~= outcomes);
}

/// What is reported of each end: only finished work without errors is a success,
/// and finished work always says how many items were removed.
pub proof fn law_reports_tell_the_end(end: EmptyEnd, removed: nat, errors: nat)
    ensures
        ({
            let r = empty_said(end, removed, errors);
            &&& r.code == 0 <==> end == EmptyEnd::Finished && errors == 0
            &&& r.code == 0 || r.code == 1
            &&& r.code == 0 ==> r.err.len() == 0 && r.out == "Removed "@ + text::decimal(removed)
                + " items\n"@
            &&& r.code == 1 ==> r.out.len() == 0
            &&& end == EmptyEnd::Finished && errors > 0 ==> r.err == "Removed "@ + text::decimal(
                removed,
            ) + " items ("@ + text::decimal(errors) + " errors)\n"@
            &&& end == EmptyEnd::Refused ==> r.err
                == "trash empty: refusing to empty trash without --yes (not a TTY)\n"@
            &&& end == EmptyEnd::Cancelled ==> r.err == "Cancelled.\n"@
            &&& end == EmptyEnd::Unanswered ==> r.err.len() == 0
        }),
{
}

/// Each word says one thing and leaves the others as they are, whatever stands
/// behind it: the last age counts, and the first word that is refused.
pub proof fn law_empty_words_say_one_thing(
    o: EmptyRequest,
    value: Seq<char>,
    rest: Seq<Seq<char>>,
)
    ensures
        read_empty_args(seq![], o) == EmptyReading::Request(o),
        read_empty_args(seq!["--yes"@] + rest, o) == read_empty_args(
            rest,
            EmptyRequest { older_than: o.older_than, confirmed: true },
        ),
        read_empty_args(seq!["-y"@] + rest, o) == read_empty_args(
            rest,
            EmptyRequest { older_than: o.older_than, confirmed: true },
        ),
        age::age_seconds(value) matches Some(n) ==> read_empty_args(
            seq!["--older"@, value] + rest,
            o,
        ) == read_empty_args(
            rest,
            EmptyRequest { older_than: Some(n as u64), confirmed: o.confirmed },
        ),
        age::age_seconds(value) is None ==> read_empty_args(seq!["--older"@, value] + rest, o)
            == EmptyReading::InvalidAge(value),
        read_empty_args(seq!["--older"@], o) == EmptyReading::MissingAge,
        value != "--older"@ && value != "--yes"@ && value != "-y"@ ==> read_empty_args(
            seq![value] + rest,
            o,
        ) == EmptyReading::UnknownOption(value),
{
    reveal_strlit("--older");
    reveal_strlit("--yes");
    reveal_strlit("-y");
    assert("--older"@.len() == 7 && "--yes"@.len() == 5 && "-y"@.len() == 2);
    assert((seq!["--yes"@] + rest).skip(1) =~= rest);
    assert((seq!["-y"@] + rest).skip(1) =~= rest);
    assert((seq!["--older"@, value] + rest).skip(2) =~= rest);
}

/// A run reads all arguments, from nothing, and hands on what it reads.
pub proof fn law_empty_reads_all(args: Seq<String>, o: EmptyOptions, s: String)
    ensures
        empty_reading(args) == read_empty_args(
            Seq::new(args.len(), |i: int| args[i]@),
            EmptyRequest { older_than: None, confirmed: false },
        ),
        empty_result(Ok(o)) == EmptyReading::Request(
            EmptyRequest { older_than: o.older_than, confirmed: o.confirmed },
        ),
        empty_result(Err(EmptyArgError::MissingAge)) == EmptyReading::MissingAge,
        empty_result(Err(EmptyArgError::InvalidAge(s))) == EmptyReading::InvalidAge(s@),
        empty_result(Err(EmptyArgError::UnknownOption(s))) == EmptyReading::UnknownOption(s@),
        empty_error_text(EmptyArgError::MissingAge)
            == "trash empty: --older requires an age (e.g. 7d)"@,
        empty_error_text(EmptyArgError::InvalidAge(s)) == "trash empty: invalid age '"@ + s@ + "'"@,
        empty_error_text(EmptyArgError::UnknownOption(s)) == "trash empty: unknown option '"@ + s@
            + "'"@,
{
    assert(text::texts(args) =~= Seq::new(args.len(), |i: int| args[i]@));
}

/// The age that the question names is the argument behind the first `--older`.
pub proof fn law_question_names_the_first_age(args: Seq<Seq<char>>, i: int)
    requires
        0 <= i < args.len() - 1,
        args[i] == "--older"@,
        forall|j: int| 0 <= j < i ==> #[trigger] args[j] != "--older"@,
    ensures
        behind_first(args, "--older"@) == Some(args[i + 1]),
    decreases args.len(),
{
    if i > 0 {
        let t = args.skip(1);
        assert(args[0] != "--older"@);
        assert(t[i - 1] == args[i] && t[i] == args[i + 1]);
        assert forall|j: int| 0 <= j < i - 1 implies #[trigger] t[j] != "--older"@ by {
            assert(t[j] == args[j + 1]);
        }
        law_question_names_the_first_age(t, i - 1);
    }
}

/// Only the directory of descriptions stays when the whole trash goes, and only
/// a description without its item is an orphan.
pub proof fn law_what_goes_and_what_is_orphaned(name: Seq<char>, item_exists: bool)
    ensures
        goes(name) <==> name != ".trash-metadata"@,
        item_exists ==> !is_orphaned(name, item_exists),
        !item_exists ==> (is_orphaned(name, item_exists) <==> paths::names_info(name)),
{
}

/// Where a run goes on from each phase: not without consent, and then through all
/// that was found, one after the other, whatever comes of each.
pub proof fn law_each_answer_leads_on(
    selective: bool,
    event: EmptyEvent,
    place: usize,
    count: usize,
    n: usize,
)
    requires
        place < count,
    ensures
        after_phase(selective, EmptyPhase::CheckTerminal, event) == if event == EmptyEvent::Yes {
            EmptyPhase::Ask
        } else {
            EmptyPhase::Done(EmptyEnd::Refused)
        },
        after_phase(selective, EmptyPhase::Ask, EmptyEvent::Yes) == if selective {
            EmptyPhase::Select
        } else {
            EmptyPhase::ListTrash
        },
        after_phase(selective, EmptyPhase::Ask, EmptyEvent::Unreadable) == EmptyPhase::Done(
            EmptyEnd::Unanswered,
        ),
        after_phase(selective, EmptyPhase::Ask, EmptyEvent::No) == EmptyPhase::Done(
            EmptyEnd::Cancelled,
        ),
        n > 0 ==> after_phase(selective, EmptyPhase::Select, EmptyEvent::Found(n))
            == (EmptyPhase::Item { place: 0, count: n, step: EmptyStep::Look }),
        after_phase(selective, EmptyPhase::Select, EmptyEvent::Found(0)) == EmptyPhase::ListOrphans,
        n > 0 ==> after_phase(selective, EmptyPhase::ListTrash, EmptyEvent::Found(n))
            == (EmptyPhase::RemoveOne { place: 0, count: n }),
        after_phase(selective, EmptyPhase::ListTrash, EmptyEvent::Found(0)) == EmptyPhase::ListInfo,
        n > 0 ==> after_phase(selective, EmptyPhase::ListInfo, EmptyEvent::Found(n))
            == (EmptyPhase::ClearOne { place: 0, count: n }),
        after_phase(selective, EmptyPhase::ListInfo, EmptyEvent::Found(0))
            == EmptyPhase::ListOrphans,
        n > 0 ==> after_phase(selective, EmptyPhase::ListOrphans, EmptyEvent::Found(n))
            == (EmptyPhase::RemoveOrphan { place: 0, count: n }),
        after_phase(selective, EmptyPhase::ListOrphans, EmptyEvent::Found(0)) == EmptyPhase::Done(
            EmptyEnd::Finished,
        ),
        after_phase(selective, EmptyPhase::RemoveOne { place, count }, event) == if place + 1
            < count {
            EmptyPhase::RemoveOne { place: (place + 1) as usize, count }
        } else {
            EmptyPhase::ListInfo
        },
        after_phase(selective, EmptyPhase::ClearOne { place, count }, event) == if place + 1 < count {
            EmptyPhase::ClearOne { place: (place + 1) as usize, count }
        } else {
            EmptyPhase::ListOrphans
        },
        after_phase(selective, EmptyPhase::RemoveOrphan { place, count }, event) == if place + 1
            < count {
            EmptyPhase::RemoveOrphan { place: (place + 1) as usize, count }
        } else {
            EmptyPhase::Done(EmptyEnd::Finished)
        },
{
}

/// An item that is removed for its age is looked for, removed where it is there,
/// and its description with it; only a failure to remove the item itself is an
/// error, and then its description stays.
pub proof fn law_each_item_takes_its_steps(
    selective: bool,
    event: EmptyEvent,
    place: usize,
    count: usize,
)
    requires
        place < count,
    ensures
        ({
            let at = |step: EmptyStep| EmptyPhase::Item { place, count, step };
            let next = if place + 1 < count {
                EmptyPhase::Item { place: (place + 1) as usize, count, step: EmptyStep::Look }
            } else {
                EmptyPhase::ListOrphans
            };
            let look = at(EmptyStep::Look);
            let item = at(EmptyStep::RemoveItem);
            let info = at(EmptyStep::RemoveInfo);
            &&& after_phase(selective, look, EmptyEvent::Yes) == item
            &&& after_phase(selective, look, EmptyEvent::No) == info
            &&& after_phase(selective, item, EmptyEvent::Yes) == info
            &&& after_phase(selective, item, EmptyEvent::No) == next
            &&& after_phase(selective, info, event) == next
            &&& settled(look, event) is None
            &&& settled(item, EmptyEvent::Yes) is None
            &&& settled(item, EmptyEvent::No) == Some(false)
            &&& settled(info, event) == Some(true)
            &&& settled(EmptyPhase::RemoveOne { place, count }, event) == Some(
                event == EmptyEvent::Yes,
            )
            &&& settled(EmptyPhase::ClearOne { place, count }, event) is None
            &&& settled(EmptyPhase::RemoveOrphan { place, count }, event) is None
        }),
{
}

/// A run takes one event at a time, starts by asking unless it was confirmed, and
/// does not go on from its end.
pub proof fn law_runs_take_one_event_at_a_time(
    selective: bool,
    start: EmptyPhase,
    events: Seq<EmptyEvent>,
    event: EmptyEvent,
    end: EmptyEnd,
)
    ensures
        phase_after(selective, start, seq![]) == start,
        phase_after(selective, start, events.push(event)) == after_phase(
            selective,
            phase_after(selective, start, events),
            event,
        ),
        after_phase(selective, EmptyPhase::Done(end), event) == EmptyPhase::Done(end),
        first_empty_phase(false, selective) == EmptyPhase::CheckTerminal,
        first_empty_phase(true, true) == EmptyPhase::Select,
        first_empty_phase(true, false) == EmptyPhase::ListTrash,
        settled(EmptyPhase::Done(end), event) is None,
{
    assert(events.push(event).drop_last() =~= events);
}

} // verus!

//! The `restore` command.

use crate::entries;
use crate::info;
use crate::info::{Entry, TrashEntry};
use crate::paths;
use crate::report;
use crate::report::{Report, Said};
use crate::text;
use vstd::prelude::*;
use vstd::utf8::*;

verus! {

/// What `restore` is asked to do.
pub struct RestoreOptions {
    /// A part of the original path, or of the name in the trash.
    pub pattern: String,
    /// Where to put the item, if not where it came from.
    pub to: Option<String>,
}

/// Why the arguments of `restore` are refused.
pub enum RestoreArgError {
    MissingPattern,
    MissingTarget,
    UnknownOption(String),
    Unexpected(String),
}

/// What comes of reading the arguments of `restore`.
pub enum RestoreReading {
    Request { pattern: Seq<char>, to: Option<Seq<char>> },
    MissingPattern,
    MissingTarget,
    UnknownOption(Seq<char>),
    Unexpected(Seq<char>),
}

/// The text, where there is one.
pub open spec fn text_of(t: Option<String>) -> Option<Seq<char>> {
    match t {
        Some(s) => Some(s@),
        None => None,
    }
}

/// The text starts with a dash.
pub open spec fn is_dashed(s: Seq<char>) -> bool {
    s.len() > 0 && s[0] == '-'
}

/// Reads arguments of `restore`, one after the other, up to the first that is
/// refused.
pub open spec fn read_restore_args(
    args: Seq<Seq<char>>,
    pattern: Seq<char>,
    to: Option<Seq<char>>,
) -> RestoreReading
    decreases args.len(),
{
    if args.len() == 0 {
        if pattern.len() == 0 {
            RestoreReading::MissingPattern
        } else {
            RestoreReading::Request { pattern, to }
        }
    } else if args[0] == "--to"@ {
        if args.len() < 2 {
            RestoreReading::MissingTarget
        } else {
            read_restore_args(args.skip(2), pattern, Some(args[1]))
        }
    } else if is_dashed(args[0]) {
        RestoreReading::UnknownOption(args[0])
    } else if pattern.len() == 0 {
        read_restore_args(args.skip(1), args[0], to)
    } else {
        RestoreReading::Unexpected(args[0])
    }
}

/// What comes of reading all arguments of `restore`.
pub open spec fn restore_reading(args: Seq<String>) -> RestoreReading {
    read_restore_args(text::texts(args), seq![], None)
}

/// The reading that a result tells of.
pub open spec fn restore_result(r: Result<RestoreOptions, RestoreArgError>) -> RestoreReading {
    match r {
        Ok(o) => RestoreReading::Request { pattern: o.pattern@, to: text_of(o.to) },
        Err(RestoreArgError::MissingPattern) => RestoreReading::MissingPattern,
        Err(RestoreArgError::MissingTarget) => RestoreReading::MissingTarget,
        Err(RestoreArgError::UnknownOption(s)) => RestoreReading::UnknownOption(s@),
        Err(RestoreArgError::Unexpected(s)) => RestoreReading::Unexpected(s@),
    }
}

/// How an error is worded.
pub open spec fn restore_error_text(e: RestoreArgError) -> Seq<char> {
    match e {
        RestoreArgError::MissingPattern => "trash restore: requires a pattern"@,
        RestoreArgError::MissingTarget => "trash restore: --to requires a path"@,
        RestoreArgError::UnknownOption(s) => "trash restore: unknown option '"@ + s@ + "'"@,
        RestoreArgError::Unexpected(s) => "trash restore: unexpected argument '"@ + s@ + "'"@,
    }
}

impl RestoreArgError {
    /// How the arguments are refused.
    pub fn report(&self) -> (r: Report)
        ensures
            r@ == report::refusal(restore_error_text(*self)),
    {
        Report::refusal(self.message())
    }

    /// How the error is worded.
    pub fn message(&self) -> (s: String)
        ensures
            s@ == restore_error_text(*self),
    {
        match self {
            RestoreArgError::MissingPattern => "trash restore: requires a pattern".to_owned(),
            RestoreArgError::MissingTarget => "trash restore: --to requires a path".to_owned(),
            RestoreArgError::UnknownOption(a) => {
                let mut s = "trash restore: unknown option '".to_owned();
                s.append(a.as_str());
                s.append("'");
                s
            },
            RestoreArgError::Unexpected(a) => {
                let mut s = "trash restore: unexpected argument '".to_owned();
                s.append(a.as_str());
                s.append("'");
                s
            },
        }
    }
}

/// Whether a text starts with a dash.
fn has_dash(s: &str) -> (r: bool)
    ensures
        r == is_dashed(s@),
{
    let v = text::chars_of(s);
    v.len() > 0 && v[0] == '-'
}

/// Reads the arguments of `restore`.
pub fn parse_restore_args(args: &[String]) -> (r: Result<RestoreOptions, RestoreArgError>)
    ensures
        restore_result(r) == restore_reading(args@),
{
    let ghost all = text::texts(args@);
    let mut pattern = String::new();
    let mut to: Option<String> = None;
    let mut i: usize = 0;
    assert(all.skip(0) =~= all);
    while i < args.len()
        invariant
            i <= args@.len(),
            all == text::texts(args@),
            restore_reading(args@) == read_restore_args(
                all.skip(i as int),
                pattern@,
                text_of(to),
            ),
        decreases args.len() - i,
    {
        let ghost rest = all.skip(i as int);
        let arg = args[i].as_str();
        assert(rest[0] == arg@);
        assert(rest.skip(1) =~= all.skip(i + 1));
        if text::str_eq(arg, "--to") {
            if args.len() - i < 2 {
                return Err(RestoreArgError::MissingTarget);
            }
            assert(rest[1] == args@[i + 1]@);
            assert(rest.skip(2) =~= all.skip(i + 2));
            to = Some(args[i + 1].clone());
            i += 2;
        } else if has_dash(arg) {
            return Err(RestoreArgError::UnknownOption(args[i].clone()));
        } else if pattern.as_str().is_empty() {
            pattern = args[i].clone();
            i += 1;
        } else {
            return Err(RestoreArgError::Unexpected(args[i].clone()));
        }
    }
    assert(all.skip(i as int) =~= seq![]);
    if pattern.as_str().is_empty() {
        Err(RestoreArgError::MissingPattern)
    } else {
        Ok(RestoreOptions { pattern, to })
    }
}

/// The item is in the trash, and the pattern is a part of its original path,
/// where that is known, or of its name.
pub open spec fn is_match(e: Entry, pattern: Seq<char>) -> bool {
    e.exists && (e.path.len() > 0 && text::has_part(e.path, pattern) || text::has_part(
        e.name,
        pattern,
    ))
}

/// The places of the items that a pattern matches.
pub open spec fn matching_places(s: Seq<Entry>, pattern: Seq<char>) -> Seq<usize>
    decreases s.len(),
{
    if s.len() == 0 {
        seq![]
    } else {
        let before = matching_places(s.drop_last(), pattern);
        if is_match(s.last(), pattern) {
            before.push((s.len() - 1) as usize)
        } else {
            before
        }
    }
}

/// Whether a pattern matches an item.
fn matches_pattern(e: &TrashEntry, pattern: &str) -> (r: bool)
    ensures
        r == is_match(e@, pattern@),
{
    e.exists_in_trash && ((!e.original_path.as_str().is_empty() && text::contains(
        e.original_path.as_str(),
        pattern,
    )) || text::contains(e.trash_filename.as_str(), pattern))
}

/// The places of the items that a pattern matches, in their order.
pub fn find_matches(items: &[TrashEntry], pattern: &str) -> (r: Vec<usize>)
    ensures
        r@ == matching_places(entries::views(items@), pattern@),
        forall|k: int| 0 <= k < r@.len() ==> #[trigger] r@[k] < items@.len(),
{
    let ghost all = entries::views(items@);
    let mut r: Vec<usize> = Vec::new();
    let mut i: usize = 0;
    assert(all.take(0) =~= seq![]);
    while i < items.len()
        invariant
            i <= items@.len(),
            all == entries::views(items@),
            r@ == matching_places(all.take(i as int), pattern@),
            forall|k: int| 0 <= k < r@.len() ==> #[trigger] r@[k] < items@.len(),
        decreases items.len() - i,
    {
        assert(all.take(i + 1).drop_last() =~= all.take(i as int));
        assert(all.take(i + 1).last() == items@[i as int]@);
        if matches_pattern(&items[i], pattern) {
            r.push(i);
        }
        i += 1;
    }
    assert(all.take(i as int) =~= all);
    r
}

/// The places are within a list.
pub open spec fn are_places(places: Seq<usize>, len: nat) -> bool {
    forall|k: int| 0 <= k < places.len() ==> #[trigger] places[k] < len
}

/// The lines that name several matches where nobody can choose among them.
pub open spec fn ambiguous_lines(s: Seq<Entry>, places: Seq<usize>) -> Seq<char>
    decreases places.len(),
{
    if places.len() == 0 {
        seq![]
    } else {
        let e = s[places.last() as int];
        ambiguous_lines(s, places.drop_last()) + "  "@ + (if e.path.len() == 0 {
            e.name
        } else {
            e.path
        }) + "\n"@
    }
}

/// The numbered lines that name several matches to choose among.
pub open spec fn menu_lines(s: Seq<Entry>, places: Seq<usize>) -> Seq<char>
    decreases places.len(),
{
    if places.len() == 0 {
        seq![]
    } else {
        let e = s[places.last() as int];
        menu_lines(s, places.drop_last()) + "  "@ + text::decimal(places.len()) + ": "@ + (
        if e.path.len() == 0 {
            e.name + " (no original path)"@
        } else {
            e.path + " ["@ + e.date + "]"@
        }) + "\n"@
    }
}

/// The question which of several matches to restore.
pub open spec fn menu_text(s: Seq<Entry>, places: Seq<usize>) -> Seq<char> {
    "Multiple matches:\n"@ + menu_lines(s, places) + "Select [1-"@ + text::decimal(places.len())
        + "]: "@
}

/// The question which of several matches to restore.
pub fn selection_menu(items: &[TrashEntry], places: &[usize]) -> (out: String)
    requires
        are_places(places@, items@.len()),
    ensures
        out@ == menu_text(entries::views(items@), places@),
{
    let ghost all = entries::views(items@);
    let mut out = "Multiple matches:\n".to_owned();
    let ghost head = out@;
    let mut i: usize = 0;
    assert(places@.take(0) =~= seq![]);
    assert(out@ =~= head + menu_lines(all, places@.take(0)));
    while i < places.len()
        invariant
            i <= places@.len(),
            all == entries::views(items@),
            are_places(places@, items@.len()),
            out@ == head + menu_lines(all, places@.take(i as int)),
        decreases places.len() - i,
    {
        let ghost before = out@;
        assert(places@.take(i + 1).drop_last() =~= places@.take(i as int));
        let e = &items[places[i]];
        assert(all[places@[i as int] as int] == e@);
        out.append("  ");
        out.append(text::decimal_of(i as u64 + 1).as_str());
        out.append(": ");
        if e.original_path.as_str().is_empty() {
            out.append(e.trash_filename.as_str());
            out.append(" (no original path)");
        } else {
            out.append(e.original_path.as_str());
            out.append(" [");
            out.append(e.deletion_date.as_str());
            out.append("]");
        }
        out.append("\n");
        assert(out@ =~= head + menu_lines(all, places@.take(i + 1)));
        i += 1;
    }
    assert(places@.take(i as int) =~= places@);
    out.append("Select [1-");
    out.append(text::decimal_of(places.len() as u64).as_str());
    out.append("]: ");
    out
}

/// The lines that name several matches where nobody can choose among them.
fn ambiguous_listing(items: &[TrashEntry], places: &[usize]) -> (out: String)
    requires
        are_places(places@, items@.len()),
    ensures
        out@ == ambiguous_lines(entries::views(items@), places@),
{
    let ghost all = entries::views(items@);
    let mut out = String::new();
    let mut i: usize = 0;
    assert(places@.take(0) =~= seq![]);
    while i < places.len()
        invariant
            i <= places@.len(),
            all == entries::views(items@),
            are_places(places@, items@.len()),
            out@ == ambiguous_lines(all, places@.take(i as int)),
        decreases places.len() - i,
    {
        assert(places@.take(i + 1).drop_last() =~= places@.take(i as int));
        let e = &items[places[i]];
        assert(all[places@[i as int] as int] == e@);
        out.append("  ");
        if e.original_path.as_str().is_empty() {
            out.append(e.trash_filename.as_str());
        } else {
            out.append(e.original_path.as_str());
        }
        out.append("\n");
        i += 1;
    }
    assert(places@.take(i as int) =~= places@);
    out
}

/// The place, counted from zero, that an answer chooses out of `count`: the
/// answer is a number from one to `count`, with white space around it or not.
pub open spec fn selection(answer: Seq<char>, count: nat) -> Option<nat> {
    match text::number_value(encode_utf8(text::trimmed(answer))) {
        Some(n) => if 1 <= n <= count {
            Some((n - 1) as nat)
        } else {
            None
        },
        None => None,
    }
}

/// The place, counted from zero, that an answer chooses out of `count`.
pub fn parse_selection(answer: &str, count: usize) -> (r: Option<usize>)
    ensures
        match r {
            Some(k) => selection(answer@, count as nat) == Some(k as nat),
            None => selection(answer@, count as nat) is None,
        },
{
    let t = text::trim(answer);
    match text::parse_number(t.as_str().as_bytes()) {
        Some(n) => if 1 <= n && n <= count as u64 {
            Some((n - 1) as usize)
        } else {
            None
        },
        None => None,
    }
}

/// Where an item goes: where it is told to, or else where it came from.
pub open spec fn target_of(e: Entry, to: Option<Seq<char>>) -> Option<Seq<char>> {
    match to {
        Some(t) => Some(t),
        None => if e.path.len() > 0 {
            Some(e.path)
        } else {
            None
        },
    }
}

/// Where an item goes, if that is known.
pub fn restore_target(e: &TrashEntry, to: &Option<String>) -> (r: Option<String>)
    ensures
        text_of(r) == target_of(e@, text_of(*to)),
{
    match to {
        Some(t) => Some(t.clone()),
        None => if e.original_path.as_str().is_empty() {
            None
        } else {
            Some(e.original_path.clone())
        },
    }
}

/// A path that was written down may be restored to without being told so: it is
/// absolute and does not go up.
pub open spec fn is_plain_target(p: Seq<char>) -> bool {
    paths::is_absolute(p) && !paths::goes_up(p)
}

/// The item may go where it goes: it was told so, or what was written down is
/// plain.
pub open spec fn may_go(e: Entry, to: Option<Seq<char>>) -> bool {
    to is Some || is_plain_target(e.path)
}

/// Whether the item may go where it goes.
pub fn is_allowed_target(e: &TrashEntry, to: &Option<String>) -> (r: bool)
    ensures
        r == may_go(e@, text_of(*to)),
{
    to.is_some() || (paths::starts_at_root(e.original_path.as_str()) && !paths::climbs(
        e.original_path.as_str(),
    ))
}

/// How a run of `restore` ends.
#[derive(Clone, Copy, PartialEq, Eq, Structural)]
pub enum RestoreEnd {
    /// No item matches.
    NoMatch,
    /// Several items match, and there was nobody to ask.
    Ambiguous,
    /// The answer could not be read.
    Unanswered,
    /// The answer chooses none of the matches.
    InvalidSelection,
    /// It is not known where the item goes.
    NoTarget,
    /// What is written down is no path to rely on.
    OddTarget,
    /// Something is already there.
    TargetExists,
    /// The directory for it could not be made.
    ParentFailed,
    /// The item could not be moved.
    MoveFailed,
    /// The item is back.
    Restored,
}

/// What to do next in a run of `restore`. Each phase but the last is answered
/// by an event. A choice is a place among the matches.
#[derive(Clone, Copy, PartialEq, Eq, Structural)]
pub enum RestorePhase {
    /// Find the items that match.
    Match,
    /// See whether there is somebody to ask.
    CheckTerminal { count: usize },
    /// Ask which one to restore.
    Choose { count: usize },
    /// See whether it is known where the item goes.
    FindTarget { choice: usize },
    /// See whether the item may go there.
    VetTarget { choice: usize },
    /// See whether something is already there.
    CheckTarget { choice: usize },
    /// See whether the directory for it is there, or none is needed.
    CheckParent { choice: usize },
    /// Make that directory.
    CreateParent { choice: usize },
    /// Move the item.
    Move { choice: usize },
    /// Remove the file that describes the item.
    RemoveInfo { choice: usize },
    /// Nothing more is to be done.
    Done(RestoreEnd),
}

/// What came of a phase.
#[derive(Clone, Copy, PartialEq, Eq, Structural)]
pub enum RestoreEvent {
    /// It is so, or it was done.
    Yes,
    /// It is not so, or it could not be done.
    No,
    /// The answer could not be read.
    Unreadable,
    /// So many items match.
    Found(usize),
    /// The answer chooses this place among the matches.
    Chosen(usize),
}

/// The phase that follows on an event.
pub open spec fn after_phase(phase: RestorePhase, event: RestoreEvent) -> RestorePhase {
    match phase {
        RestorePhase::Match => match event {
            RestoreEvent::Found(n) => if n == 0 {
                RestorePhase::Done(RestoreEnd::NoMatch)
            } else if n == 1 {
                RestorePhase::FindTarget { choice: 0 }
            } else {
                RestorePhase::CheckTerminal { count: n }
            },
            _ => RestorePhase::Done(RestoreEnd::NoMatch),
        },
        RestorePhase::CheckTerminal { count } => if event == RestoreEvent::Yes {
            RestorePhase::Choose { count }
        } else {
            RestorePhase::Done(RestoreEnd::Ambiguous)
        },
        RestorePhase::Choose { count } => match event {
            RestoreEvent::Chosen(k) => if k < count {
                RestorePhase::FindTarget { choice: k }
            } else {
                RestorePhase::Done(RestoreEnd::InvalidSelection)
            },
            RestoreEvent::Unreadable => RestorePhase::Done(RestoreEnd::Unanswered),
            _ => RestorePhase::Done(RestoreEnd::InvalidSelection),
        },
        RestorePhase::FindTarget { choice } => if event == RestoreEvent::Yes {
            RestorePhase::VetTarget { choice }
        } else {
            RestorePhase::Done(RestoreEnd::NoTarget)
        },
        RestorePhase::VetTarget { choice } => if event == RestoreEvent::Yes {
            RestorePhase::CheckTarget { choice }
        } else {
            RestorePhase::Done(RestoreEnd::OddTarget)
        },
        RestorePhase::CheckTarget { choice } => if event == RestoreEvent::No {
            RestorePhase::CheckParent { choice }
        } else {
            RestorePhase::Done(RestoreEnd::TargetExists)
        },
        RestorePhase::CheckParent { choice } => if event == RestoreEvent::Yes {
            RestorePhase::Move { choice }
        } else {
            RestorePhase::CreateParent { choice }
        },
        RestorePhase::CreateParent { choice } => if event == RestoreEvent::Yes {
            RestorePhase::Move { choice }
        } else {
            RestorePhase::Done(RestoreEnd::ParentFailed)
        },
        RestorePhase::Move { choice } => if event == RestoreEvent::Yes {
            RestorePhase::RemoveInfo { choice }
        } else {
            RestorePhase::Done(RestoreEnd::MoveFailed)
        },
        RestorePhase::RemoveInfo { choice } => RestorePhase::Done(RestoreEnd::Restored),
        RestorePhase::Done(end) => RestorePhase::Done(end),
    }
}

/// The phase that a run has reached after some events.
pub open spec fn phase_after(events: Seq<RestoreEvent>) -> RestorePhase
    decreases events.len(),
{
    if events.len() == 0 {
        RestorePhase::Match
    } else {
        after_phase(phase_after(events.drop_last()), events.last())
    }
}

/// The phase that follows on an event.
pub fn next_restore_phase(phase: RestorePhase, event: RestoreEvent) -> (r: RestorePhase)
    ensures
        r == after_phase(phase, event),
{
    let yes: bool = event == RestoreEvent::Yes;
    match phase {
        RestorePhase::Match => match event {
            RestoreEvent::Found(n) => if n == 0 {
                RestorePhase::Done(RestoreEnd::NoMatch)
            } else if n == 1 {
                RestorePhase::FindTarget { choice: 0 }
            } else {
                RestorePhase::CheckTerminal { count: n }
            },
            _ => RestorePhase::Done(RestoreEnd::NoMatch),
        },
        RestorePhase::CheckTerminal { count } => if yes {
            RestorePhase::Choose { count }
        } else {
            RestorePhase::Done(RestoreEnd::Ambiguous)
        },
        RestorePhase::Choose { count } => match event {
            RestoreEvent::Chosen(k) => if k < count {
                RestorePhase::FindTarget { choice: k }
            } else {
                RestorePhase::Done(RestoreEnd::InvalidSelection)
            },
            RestoreEvent::Unreadable => RestorePhase::Done(RestoreEnd::Unanswered),
            _ => RestorePhase::Done(RestoreEnd::InvalidSelection),
        },
        RestorePhase::FindTarget { choice } => if yes {
            RestorePhase::VetTarget { choice }
        } else {
            RestorePhase::Done(RestoreEnd::NoTarget)
        },
        RestorePhase::VetTarget { choice } => if yes {
            RestorePhase::CheckTarget { choice }
        } else {
            RestorePhase::Done(RestoreEnd::OddTarget)
        },
        RestorePhase::CheckTarget { choice } => if event == RestoreEvent::No {
            RestorePhase::CheckParent { choice }
        } else {
            RestorePhase::Done(RestoreEnd::TargetExists)
        },
        RestorePhase::CheckParent { choice } => if yes {
            RestorePhase::Move { choice }
        } else {
            RestorePhase::CreateParent { choice }
        },
        RestorePhase::CreateParent { choice } => if yes {
            RestorePhase::Move { choice }
        } else {
            RestorePhase::Done(RestoreEnd::ParentFailed)
        },
        RestorePhase::Move { choice } => if yes {
            RestorePhase::RemoveInfo { choice }
        } else {
            RestorePhase::Done(RestoreEnd::MoveFailed)
        },
        RestorePhase::RemoveInfo { choice: _ } => RestorePhase::Done(RestoreEnd::Restored),
        RestorePhase::Done(end) => RestorePhase::Done(end),
    }
}

/// What a report of `restore` speaks of, as far as the run has come to know it.
pub struct RestoreDetails {
    /// The pattern that was asked for.
    pub pattern: String,
    /// The name of the chosen item in the trash.
    pub name: String,
    /// Where it goes.
    pub target: String,
    /// The directory in which that is.
    pub parent: String,
    /// Where it is in the trash.
    pub trash_path: String,
    /// Why something failed.
    pub reason: String,
    /// The system did not permit the move, and its privacy settings decide that.
    pub needs_permission: bool,
}

/// What `restore` reports at its end.
pub open spec fn restore_said(
    end: RestoreEnd,
    d: RestoreDetails,
    s: Seq<Entry>,
    places: Seq<usize>,
) -> Said {
    match end {
        RestoreEnd::NoMatch => report::failure(
            "trash restore: no match for '"@ + d.pattern@ + "'\n"@,
        ),
        RestoreEnd::Ambiguous => report::failure(
            "trash restore: multiple matches, use more specific pattern or run interactively:\n"@
                + ambiguous_lines(s, places),
        ),
        RestoreEnd::Unanswered => report::failure(seq![]),
        RestoreEnd::InvalidSelection => report::failure("Invalid selection.\n"@),
        RestoreEnd::NoTarget => report::failure(
            "trash restore: no original path for '"@ + d.name@ + "' — use --to <path>\n"@,
        ),
        RestoreEnd::OddTarget => report::failure(
            "trash restore: refusing original path '"@ + d.target@ + "' — use --to <path>\n"@,
        ),
        RestoreEnd::TargetExists => report::failure(
            "trash restore: target already exists: "@ + d.target@ + "\n"@,
        ),
        RestoreEnd::ParentFailed => report::failure(
            "trash restore: cannot create "@ + d.parent@ + ": "@ + d.reason@ + "\n"@,
        ),
        RestoreEnd::MoveFailed => report::failure(
            "trash restore: failed to move "@ + d.trash_path@ + " -> "@ + d.target@ + ": "@
                + d.reason@ + "\n"@ + (if d.needs_permission {
                "hint: grant Full Disk Access to your terminal app in\n"@
                    + "  System Settings > Privacy & Security > Full Disk Access\n"@
            } else {
                seq![]
            }),
        ),
        RestoreEnd::Restored => report::success(
            "Restored: "@ + d.name@ + " -> "@ + d.target@ + "\n"@,
        ),
    }
}

/// What `restore` reports at its end.
pub fn restore_report(
    end: RestoreEnd,
    d: &RestoreDetails,
    items: &[TrashEntry],
    places: &[usize],
) -> (r: Report)
    requires
        are_places(places@, items@.len()),
    ensures
        r@ == restore_said(end, *d, entries::views(items@), places@),
{
    let mut s = String::new();
    match end {
        RestoreEnd::NoMatch => {
            s.append("trash restore: no match for '");
            s.append(d.pattern.as_str());
            s.append("'\n");
        },
        RestoreEnd::Ambiguous => {
            s.append(
                "trash restore: multiple matches, use more specific pattern or run interactively:\n",
            );
            s.append(ambiguous_listing(items, places).as_str());
        },
        RestoreEnd::Unanswered => {},
        RestoreEnd::InvalidSelection => {
            s.append("Invalid selection.\n");
        },
        RestoreEnd::NoTarget => {
            s.append("trash restore: no original path for '");
            s.append(d.name.as_str());
            s.append("' — use --to <path>\n");
        },
        RestoreEnd::OddTarget => {
            s.append("trash restore: refusing original path '");
            s.append(d.target.as_str());
            s.append("' — use --to <path>\n");
        },
        RestoreEnd::TargetExists => {
            s.append("trash restore: target already exists: ");
            s.append(d.target.as_str());
            s.append("\n");
        },
        RestoreEnd::ParentFailed => {
            s.append("trash restore: cannot create ");
            s.append(d.parent.as_str());
            s.append(": ");
            s.append(d.reason.as_str());
            s.append("\n");
        },
        RestoreEnd::MoveFailed => {
            s.append("trash restore: failed to move ");
            s.append(d.trash_path.as_str());
            s.append(" -> ");
            s.append(d.target.as_str());
            s.append(": ");
            s.append(d.reason.as_str());
            s.append("\n");
            if d.needs_permission {
                s.append("hint: grant Full Disk Access to your terminal app in\n");
                s.append("  System Settings > Privacy & Security > Full Disk Access\n");
            }
        },
        RestoreEnd::Restored => {
            s.append("Restored: ");
            s.append(d.name.as_str());
            s.append(" -> ");
            s.append(d.target.as_str());
            s.append("\n");
            assert(s@ =~= restore_said(end, *d, entries::views(items@), places@).out);
            return Report::success(s);
        },
    }
    assert(s@ =~= restore_said(end, *d, entries::views(items@), places@).err);
    Report::failure(s)
}

/// The places that a pattern selects are those of the items that it matches,
/// each once, in order.
pub proof fn law_selects_matches(s: Seq<Entry>, pattern: Seq<char>)
    requires
        s.len() <= usize::MAX,
    ensures
        ({
            let r = matching_places(s, pattern);
            &&& forall|k: int|
                0 <= k < r.len() ==> #[trigger] r[k] < s.len() && is_match(
                    s[r[k] as int],
                    pattern,
                )
            &&& forall|j: int, k: int| 0 <= j < k < r.len() ==> #[trigger] r[j] < #[trigger] r[k]
            &&& forall|i: int|
                0 <= i < s.len() && is_match(#[trigger] s[i], pattern) ==> r.contains(i as usize)
        }),
    decreases s.len(),
{
    if s.len() > 0 {
        let t = s.drop_last();
        let before = matching_places(t, pattern);
        let r = matching_places(s, pattern);
        law_selects_matches(t, pattern);
        assert forall|k: int| 0 <= k < r.len() implies #[trigger] r[k] < s.len() && is_match(
            s[r[k] as int],
            pattern,
        ) by {
            if k < before.len() {
                assert(r[k] == before[k]);
                assert(t[before[k] as int] == s[r[k] as int]);
            }
        }
        assert forall|i: int|
            0 <= i < s.len() && is_match(#[trigger] s[i], pattern) implies r.contains(i as usize) by {
            if i < t.len() {
                assert(t[i] == s[i]);
                let k = before.index_of(i as usize);
                assert(r[k] == i as usize);
            } else {
                assert(r[before.len() as int] == i as usize);
            }
        }
    }
}

/// The run has found that nothing is in the way.
pub open spec fn is_past_check(phase: RestorePhase) -> bool {
    match phase {
        RestorePhase::CheckParent { .. } => true,
        RestorePhase::CreateParent { .. } => true,
        RestorePhase::Move { .. } => true,
        RestorePhase::RemoveInfo { .. } => true,
        RestorePhase::Done(end) => end == RestoreEnd::ParentFailed || end == RestoreEnd::MoveFailed
            || end == RestoreEnd::Restored,
        _ => false,
    }
}

/// Nothing is made, moved or removed unless the run has looked at the target
/// before and found nothing there.
pub proof fn law_existing_target_stays(events: Seq<RestoreEvent>)
    requires
        is_past_check(phase_after(events)),
    ensures
        exists|k: int|
            0 <= k < events.len() && phase_after(#[trigger] events.take(k)) is CheckTarget
                && events[k] == RestoreEvent::No,
    decreases events.len(),
{
    if events.len() > 0 {
        let before = events.drop_last();
        let n = events.len() - 1;
        assert(events.take(n) =~= before);
        if is_past_check(phase_after(before)) {
            law_existing_target_stays(before);
            let k = choose|k: int|
                0 <= k < before.len() && phase_after(#[trigger] before.take(k)) is CheckTarget
                    && before[k] == RestoreEvent::No;
            assert(events.take(k) =~= before.take(k));
        } else {
            assert(phase_after(events.take(n)) is CheckTarget && events[n] == RestoreEvent::No);
        }
    }
}

/// Nothing is even looked at where an item goes, let alone made or moved there,
/// unless the run has found that the item may go there.
pub proof fn law_target_is_vetted(events: Seq<RestoreEvent>)
    requires
        is_past_check(phase_after(events)) || phase_after(events) is CheckTarget,
    ensures
        exists|k: int|
            0 <= k < events.len() && phase_after(#[trigger] events.take(k)) is VetTarget
                && events[k] == RestoreEvent::Yes,
    decreases events.len(),
{
    if events.len() > 0 {
        let before = events.drop_last();
        let n = events.len() - 1;
        assert(events.take(n) =~= before);
        if is_past_check(phase_after(before)) || phase_after(before) is CheckTarget {
            law_target_is_vetted(before);
            let k = choose|k: int|
                0 <= k < before.len() && phase_after(#[trigger] before.take(k)) is VetTarget
                    && before[k] == RestoreEvent::Yes;
            assert(events.take(k) =~= before.take(k));
        } else {
            assert(phase_after(events.take(n)) is VetTarget && events[n] == RestoreEvent::Yes);
        }
    }
}

/// The choice of a phase, where it has one.
pub open spec fn choice_of(phase: RestorePhase) -> Option<usize> {
    match phase {
        RestorePhase::FindTarget { choice } => Some(choice),
        RestorePhase::VetTarget { choice } => Some(choice),
        RestorePhase::CheckTarget { choice } => Some(choice),
        RestorePhase::CheckParent { choice } => Some(choice),
        RestorePhase::CreateParent { choice } => Some(choice),
        RestorePhase::Move { choice } => Some(choice),
        RestorePhase::RemoveInfo { choice } => Some(choice),
        _ => None,
    }
}

/// Only a match is restored: whatever is answered, the choice is a place among
/// the matches that were found.
pub proof fn law_choice_is_a_match(count: usize, events: Seq<RestoreEvent>)
    requires
        events.len() > 0,
        events[0] == RestoreEvent::Found(count),
    ensures
        choice_of(phase_after(events)) matches Some(k) ==> k < count,
        phase_after(events) matches RestorePhase::CheckTerminal { count: n } ==> n == count,
        phase_after(events) matches RestorePhase::Choose { count: n } ==> n == count,
        !(phase_after(events) is Match),
    decreases events.len(),
{
    let before = events.drop_last();
    if events.len() > 1 {
        law_choice_is_a_match(count, before);
    } else {
        assert(phase_after(before) == RestorePhase::Match);
    }
}

/// What was written down of an item when it was trashed brings it back: the
/// path where it was matches it as a pattern, and that is where it goes.
pub proof fn law_trashed_item_goes_home(item: Seq<char>, path: Seq<char>, date: Seq<char>)
    requires
        item.len() > 0,
        !item.contains('/'),
        path.len() > 0,
    ensures
        info::read_entry(paths::info_name(item), info::info_text(path, date), true) matches Some(e)
            && is_match(e, path) && target_of(e, None) == Some(path) && may_go(e, None)
            == is_plain_target(path),
{
    info::law_written_info_is_read_back(item, path, date, true);
    assert(path.subrange(0, 0int + path.len()) =~= path);
}

/// An item counts as restored only where it was moved.
pub proof fn law_restored_item_was_moved(events: Seq<RestoreEvent>)
    requires
        phase_after(events) is RemoveInfo || phase_after(events) == RestorePhase::Done(
            RestoreEnd::Restored,
        ),
    ensures
        exists|k: int|
            0 <= k < events.len() && phase_after(#[trigger] events.take(k)) is Move && events[k]
                == RestoreEvent::Yes,
    decreases events.len(),
{
    let before = events.drop_last();
    let n = events.len() - 1;
    assert(events.take(n) =~= before);
    if phase_after(before) is Move {
        assert(phase_after(events.take(n)) is Move && events[n] == RestoreEvent::Yes);
    } else {
        law_restored_item_was_moved(before);
        let k = choose|k: int|
            0 <= k < before.len() && phase_after(#[trigger] before.take(k)) is Move && before[k]
                == RestoreEvent::Yes;
        assert(events.take(k) =~= before.take(k));
    }
}

/// A run ends after at most ten events.
pub proof fn law_restore_ends(events: Seq<RestoreEvent>)
    requires
        events.len() >= 10,
    ensures
        phase_after(events) is Done,
    decreases events.len(),
{
    if events.len() > 10 {
        law_restore_ends(events.drop_last());
    } else {
        reveal_with_fuel(phase_after, 11);
    }
}

/// The file that describes an item is removed only after the item was moved.
pub proof fn law_info_goes_after_the_move(phase: RestorePhase, event: RestoreEvent)
    requires
        after_phase(phase, event) is RemoveInfo,
    ensures
        phase is Move,
        event == RestoreEvent::Yes,
{
}

/// A pattern selects an item just where the item is in the trash and the pattern
/// stands anywhere in its name, or anywhere in the path that it came from: where
/// one of these is something, the pattern, and something else.
pub proof fn law_pattern_may_stand_anywhere(s: Seq<Entry>, pattern: Seq<char>, i: int)
    requires
        0 <= i < s.len() <= usize::MAX,
    ensures
        matching_places(s, pattern).contains(i as usize) <==> s[i].exists && ((s[i].path.len() > 0
            && exists|a: Seq<char>, b: Seq<char>| s[i].path == #[trigger] (a + pattern + b))
            || exists|a: Seq<char>, b: Seq<char>| s[i].name == #[trigger] (a + pattern + b)),
{
    law_selects_matches(s, pattern);
    text::law_part_stands_between(s[i].path, pattern);
    text::law_part_stands_between(s[i].name, pattern);
    let r = matching_places(s, pattern);
    if r.contains(i as usize) {
        let k = r.index_of(i as usize);
        assert(r[k] < s.len() && is_match(s[r[k] as int], pattern));
    }
    if is_match(s[i], pattern) {
        assert(r.contains(i as usize));
    }
}

/// An item whose name or path is put together around the pattern is selected,
/// whatever is put before and behind.
pub proof fn law_surrounded_pattern_is_found(
    s: Seq<Entry>,
    i: int,
    a: Seq<char>,
    pattern: Seq<char>,
    b: Seq<char>,
)
    requires
        0 <= i < s.len() <= usize::MAX,
        s[i].exists,
        s[i].name == a + pattern + b || s[i].path.len() > 0 && s[i].path == a + pattern + b,
    ensures
        matching_places(s, pattern).contains(i as usize),
{
    law_pattern_may_stand_anywhere(s, pattern, i);
    assert(s[i].name == a + pattern + b || s[i].path == a + pattern + b);
}

/// The places that a pattern selects are in the order of the items, each once.
pub proof fn law_matches_keep_their_order(s: Seq<Entry>, pattern: Seq<char>, j: int, k: int)
    requires
        s.len() <= usize::MAX,
        0 <= j < k < matching_places(s, pattern).len(),
    ensures
        matching_places(s, pattern)[j] < matching_places(s, pattern)[k],
        matching_places(s, pattern)[k] < s.len(),
{
    law_selects_matches(s, pattern);
}

/// An item goes where it is told to, whatever is known of it; else where it came
/// from, if that is known; else it is not known where.
pub proof fn law_item_goes_where_told(e: Entry, t: Seq<char>)
    ensures
        target_of(e, Some(t)) == Some(t),
        e.path.len() > 0 ==> target_of(e, None) == Some(e.path),
        e.path.len() == 0 ==> target_of(e, None) is None,
        may_go(e, Some(t)),
        may_go(e, None) <==> e.path.len() > 0 && e.path[0] == '/' && !(exists|i: int|
            0 <= i < e.path.len() - 1 && #[trigger] e.path[i] == '.' && e.path[i + 1] == '.' && (i
                == 0 || e.path[i - 1] == '/') && (i + 2 == e.path.len() || e.path[i + 2] == '/')),
{
    paths::law_two_dots_go_up(e.path);
}

/// An answer chooses a place just where it is the number of that place, counted
/// from one, with white space around it or not.
pub proof fn law_answers_count_from_one(
    answer: Seq<char>,
    count: nat,
    before: Seq<char>,
    k: nat,
    behind: Seq<char>,
)
    requires
        forall|i: int| 0 <= i < before.len() ==> text::is_space(#[trigger] before[i]),
        forall|i: int| 0 <= i < behind.len() ==> text::is_space(#[trigger] behind[i]),
    ensures
        selection(answer, count) == Some(k) <==> k < count && text::number_value(
            encode_utf8(text::trimmed(answer)),
        ) == Some(k + 1),
        k < count ==> selection(before + text::decimal(k + 1) + behind, count) == Some(k),
        k >= count ==> selection(before + text::decimal(k + 1) + behind, count) is None,
        selection(before + text::decimal(0) + behind, count) is None,
{
    text::law_white_space_around_does_not_matter(before, text::decimal(k + 1), behind);
    text::law_white_space_around_does_not_matter(before, text::decimal(0), behind);
    lemma_number_is_trimmed(k + 1);
    lemma_number_is_trimmed(0);
    text::law_decimal_reads_back(k + 1);
    text::law_decimal_reads_back(0);
}

/// A written number has no white space around it.
proof fn lemma_number_is_trimmed(n: nat)
    ensures
        text::trimmed(text::decimal(n)) == text::decimal(n),
{
    let s = text::decimal(n);
    text::law_decimal_reads_back(n);
    assert('0' <= s[0] <= '9' && '0' <= s[s.len() - 1] <= '9');
    assert(!text::is_space(s.first()) && !text::is_space(s.last()));
}

/// The question numbers the matches from one, in order, each with the path that
/// it came from and its date, or with its name where that path is not known.
pub proof fn law_question_numbers_the_matches(s: Seq<Entry>, places: Seq<usize>, p: usize)
    ensures
        menu_lines(s, seq![]).len() == 0,
        menu_lines(s, places.push(p)) == menu_lines(s, places) + "  "@ + text::decimal(
            places.len() + 1,
        ) + ": "@ + (if s[p as int].path.len() > 0 {
            s[p as int].path + " ["@ + s[p as int].date + "]"@
        } else {
            s[p as int].name + " (no original path)"@
        }) + "\n"@,
        menu_text(s, places) == "Multiple matches:\n"@ + menu_lines(s, places) + "Select [1-"@
            + text::decimal(places.len()) + "]: "@,
        ambiguous_lines(s, seq![]).len() == 0,
        ambiguous_lines(s, places.push(p)) == ambiguous_lines(s, places) + "  "@ + (
        if s[p as int].path.len() > 0 {
            s[p as int].path
        } else {
            s[p as int].name
        }) + "\n"@,
{
    let more = places.push(p);
    assert(more.drop_last() =~= places);
    assert(more.last() == p);
}

/// Each word says one thing, whatever stands behind it: the last target counts,
/// there is one pattern, and the first word that is refused counts.
pub proof fn law_restore_words_say_one_thing(
    pattern: Seq<char>,
    to: Option<Seq<char>>,
    word: Seq<char>,
    rest: Seq<Seq<char>>,
)
    ensures
        pattern.len() > 0 ==> read_restore_args(seq![], pattern, to) == (RestoreReading::Request {
            pattern,
            to,
        }),
        pattern.len() == 0 ==> read_restore_args(seq![], pattern, to)
            == RestoreReading::MissingPattern,
        read_restore_args(seq!["--to"@, word] + rest, pattern, to) == read_restore_args(
            rest,
            pattern,
            Some(word),
        ),
        read_restore_args(seq!["--to"@], pattern, to) == RestoreReading::MissingTarget,
        word != "--to"@ && word.len() > 0 && word[0] == '-' ==> read_restore_args(
            seq![word] + rest,
            pattern,
            to,
        ) == RestoreReading::UnknownOption(word),
        (word.len() == 0 || word[0] != '-') && pattern.len() == 0 ==> read_restore_args(
            seq![word] + rest,
            pattern,
            to,
        ) == read_restore_args(rest, word, to),
        (word.len() == 0 || word[0] != '-') && pattern.len() > 0 ==> read_restore_args(
            seq![word] + rest,
            pattern,
            to,
        ) == RestoreReading::Unexpected(word),
{
    reveal_strlit("--to");
    assert("--to"@.len() == 4 && "--to"@[0] == '-');
    assert((seq!["--to"@, word] + rest).skip(2) =~= rest);
    assert((seq![word] + rest).skip(1) =~= rest);
}

/// A run reads all arguments, from nothing, and hands on what it reads.
pub proof fn law_restore_reads_all(args: Seq<String>, o: RestoreOptions, s: String)
    ensures
        restore_reading(args) == read_restore_args(
            Seq::new(args.len(), |i: int| args[i]@),
            seq![],
            None,
        ),
        restore_result(Ok(o)) == (RestoreReading::Request {
            pattern: o.pattern@,
            to: match o.to {
                Some(t) => Some(t@),
                None => None,
            },
        }),
        restore_result(Err(RestoreArgError::UnknownOption(s))) == RestoreReading::UnknownOption(s@),
        restore_result(Err(RestoreArgError::Unexpected(s))) == RestoreReading::Unexpected(s@),
        restore_error_text(RestoreArgError::MissingPattern) == "trash restore: requires a pattern"@,
        restore_error_text(RestoreArgError::MissingTarget) == "trash restore: --to requires a path"@,
        restore_error_text(RestoreArgError::UnknownOption(s)) == "trash restore: unknown option '"@
            + s@ + "'"@,
        restore_error_text(RestoreArgError::Unexpected(s)) == "trash restore: unexpected argument '"@
            + s@ + "'"@,
{
    assert(text::texts(args) =~= Seq::new(args.len(), |i: int| args[i]@));
}

/// Where a run goes on from each phase: one match needs no choice, a choice must
/// be one of the matches, and every later phase keeps it; what has to be so or be
/// done leads on only where it is.
pub proof fn law_each_answer_leads_on(event: RestoreEvent, n: usize, k: usize)
    ensures
        after_phase(RestorePhase::Match, RestoreEvent::Found(0)) == RestorePhase::Done(
            RestoreEnd::NoMatch,
        ),
        after_phase(RestorePhase::Match, RestoreEvent::Found(1)) == (RestorePhase::FindTarget {
            choice: 0,
        }),
        n > 1 ==> after_phase(RestorePhase::Match, RestoreEvent::Found(n))
            == (RestorePhase::CheckTerminal { count: n }),
        after_phase(RestorePhase::CheckTerminal { count: n }, event) == if event
            == RestoreEvent::Yes {
            RestorePhase::Choose { count: n }
        } else {
            RestorePhase::Done(RestoreEnd::Ambiguous)
        },
        after_phase(RestorePhase::Choose { count: n }, RestoreEvent::Chosen(k)) == if k < n {
            RestorePhase::FindTarget { choice: k }
        } else {
            RestorePhase::Done(RestoreEnd::InvalidSelection)
        },
        after_phase(RestorePhase::Choose { count: n }, RestoreEvent::Unreadable)
            == RestorePhase::Done(RestoreEnd::Unanswered),
        after_phase(RestorePhase::Choose { count: n }, RestoreEvent::No) == RestorePhase::Done(
            RestoreEnd::InvalidSelection,
        ),
        after_phase(RestorePhase::FindTarget { choice: k }, event) == if event == RestoreEvent::Yes {
            RestorePhase::VetTarget { choice: k }
        } else {
            RestorePhase::Done(RestoreEnd::NoTarget)
        },
        after_phase(RestorePhase::VetTarget { choice: k }, event) == if event == RestoreEvent::Yes {
            RestorePhase::CheckTarget { choice: k }
        } else {
            RestorePhase::Done(RestoreEnd::OddTarget)
        },
        after_phase(RestorePhase::CheckTarget { choice: k }, event) == if event == RestoreEvent::No {
            RestorePhase::CheckParent { choice: k }
        } else {
            RestorePhase::Done(RestoreEnd::TargetExists)
        },
        after_phase(RestorePhase::CheckParent { choice: k }, event) == if event
            == RestoreEvent::Yes {
            RestorePhase::Move { choice: k }
        } else {
            RestorePhase::CreateParent { choice: k }
        },
        after_phase(RestorePhase::CreateParent { choice: k }, event) == if event
            == RestoreEvent::Yes {
            RestorePhase::Move { choice: k }
        } else {
            RestorePhase::Done(RestoreEnd::ParentFailed)
        },
        after_phase(RestorePhase::Move { choice: k }, event) == if event == RestoreEvent::Yes {
            RestorePhase::RemoveInfo { choice: k }
        } else {
            RestorePhase::Done(RestoreEnd::MoveFailed)
        },
        after_phase(RestorePhase::RemoveInfo { choice: k }, event) == RestorePhase::Done(
            RestoreEnd::Restored,
        ),
{
}

/// A run starts by matching, takes one event at a time, and does not go on from
/// its end.
pub proof fn law_runs_take_one_event_at_a_time(
    events: Seq<RestoreEvent>,
    event: RestoreEvent,
    end: RestoreEnd,
)
    ensures
        phase_after(seq![]) == RestorePhase::Match,
        phase_after(events.push(event)) == after_phase(phase_after(events), event),
        after_phase(RestorePhase::Done(end), event) == RestorePhase::Done(end),
{
    assert(events.push(event).drop_last() =~= events);
}

/// What is reported of each end: only a restored item is told to be, on standard
/// output and with success; every other end fails and says why. Each report
/// speaks of what it is about and of nothing else.
pub proof fn law_reports_tell_the_end(
    end: RestoreEnd,
    d: RestoreDetails,
    s: Seq<Entry>,
    places: Seq<usize>,
)
    ensures
        ({
            let r = restore_said(end, d, s, places);
            &&& r.code == 0 <==> end == RestoreEnd::Restored
            &&& r.code == 0 || r.code == 1
            &&& end == RestoreEnd::Restored ==> r.err.len() == 0 && r.out == "Restored: "@ + d.name@
                + " -> "@ + d.target@ + "\n"@
            &&& end != RestoreEnd::Restored ==> r.out.len() == 0
            &&& end == RestoreEnd::NoMatch ==> r.err == "trash restore: no match for '"@ + d.pattern@
                + "'\n"@
            &&& end == RestoreEnd::Ambiguous ==> r.err
                == "trash restore: multiple matches, use more specific pattern or run interactively:\n"@
                + ambiguous_lines(s, places)
            &&& end == RestoreEnd::Unanswered ==> r.err.len() == 0
            &&& end == RestoreEnd::InvalidSelection ==> r.err == "Invalid selection.\n"@
            &&& end == RestoreEnd::NoTarget ==> r.err == "trash restore: no original path for '"@
                + d.name@ + "' — use --to <path>\n"@
            &&& end == RestoreEnd::OddTarget ==> r.err == "trash restore: refusing original path '"@
                + d.target@ + "' — use --to <path>\n"@
            &&& end == RestoreEnd::TargetExists ==> r.err
                == "trash restore: target already exists: "@ + d.target@ + "\n"@
            &&& end == RestoreEnd::ParentFailed ==> r.err == "trash restore: cannot create "@
                + d.parent@ + ": "@ + d.reason@ + "\n"@
            &&& end == RestoreEnd::MoveFailed && !d.needs_permission ==> r.err
                == "trash restore: failed to move "@ + d.trash_path@ + " -> "@ + d.target@ + ": "@
                + d.reason@ + "\n"@
            &&& end == RestoreEnd::MoveFailed && d.needs_permission ==> r.err
                == "trash restore: failed to move "@ + d.trash_path@ + " -> "@ + d.target@ + ": "@
                + d.reason@ + "\n"@ + ("hint: grant Full Disk Access to your terminal app in\n"@
                + "  System Settings > Privacy & Security > Full Disk Access\n"@)
        }),
{
    if end == RestoreEnd::MoveFailed && !d.needs_permission {
        assert(restore_said(end, d, s, places).err =~= "trash restore: failed to move "@
            + d.trash_path@ + " -> "@ + d.target@ + ": "@ + d.reason@ + "\n"@);
    }
}

} // verus!

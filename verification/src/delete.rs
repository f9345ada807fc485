//! Moving paths to the trash: the flags, and what is done about each path.

use crate::report;
use crate::report::{Report, Said};
use crate::text;
use vstd::prelude::*;

verus! {

/// What the flags ask for.
#[derive(Clone, Copy, PartialEq, Eq, Structural)]
pub struct Flags {
    /// Only tell what would be done.
    pub dry_run: bool,
    /// Tell what is done.
    pub verbose: bool,
    /// A path that is not there is no error.
    pub force: bool,
}

/// No flag at all.
pub open spec fn no_flags() -> Flags {
    Flags { dry_run: false, verbose: false, force: false }
}

/// What is to be moved to the trash, and how.
pub struct DeleteOptions {
    pub flags: Flags,
    pub paths: Vec<String>,
}

/// Why the arguments are refused.
#[derive(Clone, Copy, PartialEq, Eq, Structural)]
pub enum DeleteArgError {
    UnknownFlag(char),
    NoPaths,
}

/// What comes of reading the arguments.
pub enum DeleteReading {
    Request { flags: Flags, paths: Seq<Seq<char>> },
    UnknownFlag(char),
    NoPaths,
}

/// The flags with that of one letter added. `r` and `R` stand for nothing.
pub open spec fn with_letter(c: char, flags: Flags) -> Option<Flags> {
    if c == 'n' {
        Some(Flags { dry_run: true, ..flags })
    } else if c == 'v' {
        Some(Flags { verbose: true, ..flags })
    } else if c == 'f' {
        Some(Flags { force: true, ..flags })
    } else if c == 'r' || c == 'R' {
        Some(flags)
    } else {
        None
    }
}

/// The flags with those of several letters added, or the first letter that is
/// no flag.
pub open spec fn with_letters(letters: Seq<char>, flags: Flags) -> Result<Flags, char>
    decreases letters.len(),
{
    if letters.len() == 0 {
        Ok(flags)
    } else {
        match with_letter(letters[0], flags) {
            Some(f) => with_letters(letters.skip(1), f),
            None => Err(letters[0]),
        }
    }
}

/// The argument is a dash with letters behind it.
pub open spec fn is_letters(s: Seq<char>) -> bool {
    s.len() > 1 && s[0] == '-' && s[1] != '-'
}

/// The flags with that of one whole argument added. `-rf` stands for nothing.
pub open spec fn with_word(s: Seq<char>, flags: Flags) -> Option<Flags> {
    if s == "-n"@ || s == "--dry-run"@ {
        Some(Flags { dry_run: true, ..flags })
    } else if s == "-v"@ || s == "--verbose"@ {
        Some(Flags { verbose: true, ..flags })
    } else if s == "-f"@ || s == "--force"@ {
        Some(Flags { force: true, ..flags })
    } else if s == "-r"@ || s == "-rf"@ || s == "-R"@ {
        Some(flags)
    } else {
        None
    }
}

/// The request for some paths, if there are any.
pub open spec fn request(flags: Flags, paths: Seq<Seq<char>>) -> DeleteReading {
    if paths.len() == 0 {
        DeleteReading::NoPaths
    } else {
        DeleteReading::Request { flags, paths }
    }
}

/// Reads arguments, one after the other, up to the first that is refused. All
/// that stands behind `--` is a path.
pub open spec fn read_delete_args(
    args: Seq<Seq<char>>,
    flags: Flags,
    paths: Seq<Seq<char>>,
) -> DeleteReading
    decreases args.len(),
{
    if args.len() == 0 {
        request(flags, paths)
    } else if with_word(args[0], flags) is Some {
        read_delete_args(args.skip(1), with_word(args[0], flags)->0, paths)
    } else if args[0] == "--"@ {
        request(flags, paths + args.skip(1))
    } else if is_letters(args[0]) {
        match with_letters(args[0].skip(1), flags) {
            Ok(f) => read_delete_args(args.skip(1), f, paths),
            Err(c) => DeleteReading::UnknownFlag(c),
        }
    } else {
        read_delete_args(args.skip(1), flags, paths.push(args[0]))
    }
}

/// What comes of reading all arguments.
pub open spec fn delete_reading(args: Seq<String>) -> DeleteReading {
    read_delete_args(text::texts(args), no_flags(), seq![])
}

/// The reading that a result tells of.
pub open spec fn delete_result(r: Result<DeleteOptions, DeleteArgError>) -> DeleteReading {
    match r {
        Ok(o) => DeleteReading::Request { flags: o.flags, paths: text::texts(o.paths@) },
        Err(DeleteArgError::UnknownFlag(c)) => DeleteReading::UnknownFlag(c),
        Err(DeleteArgError::NoPaths) => DeleteReading::NoPaths,
    }
}

/// How an error is worded.
pub open spec fn delete_error_text(e: DeleteArgError) -> Seq<char> {
    match e {
        DeleteArgError::UnknownFlag(c) => "trash: unknown flag '-"@ + seq![c] + "'"@,
        DeleteArgError::NoPaths => "trash: no paths specified"@,
    }
}

impl DeleteArgError {
    /// How the arguments are refused.
    pub fn report(&self) -> (r: Report)
        ensures
            r@ == report::refusal(delete_error_text(*self)),
    {
        Report::refusal(self.message())
    }

    /// How the error is worded.
    pub fn message(&self) -> (s: String)
        ensures
            s@ == delete_error_text(*self),
    {
        match self {
            DeleteArgError::UnknownFlag(c) => {
                let mut s = "trash: unknown flag '-".to_owned();
                s.push(*c);
                s.append("'");
                s
            },
            DeleteArgError::NoPaths => "trash: no paths specified".to_owned(),
        }
    }
}

/// The flags with that of one letter added.
fn take_letter(c: char, flags: Flags) -> (r: Option<Flags>)
    ensures
        r == with_letter(c, flags),
{
    if c == 'n' {
        Some(Flags { dry_run: true, verbose: flags.verbose, force: flags.force })
    } else if c == 'v' {
        Some(Flags { dry_run: flags.dry_run, verbose: true, force: flags.force })
    } else if c == 'f' {
        Some(Flags { dry_run: flags.dry_run, verbose: flags.verbose, force: true })
    } else if c == 'r' || c == 'R' {
        Some(flags)
    } else {
        None
    }
}

/// The flags with those of the letters behind a dash added.
fn take_letters(v: &Vec<char>, flags: Flags) -> (r: Result<Flags, char>)
    requires
        v@.len() > 0,
    ensures
        r == with_letters(v@.skip(1), flags),
{
    let mut f = flags;
    let mut i: usize = 1;
    while i < v.len()
        invariant
            1 <= i <= v@.len(),
            with_letters(v@.skip(1), flags) == with_letters(v@.skip(i as int), f),
        decreases v.len() - i,
    {
        assert(v@.skip(i as int)[0] == v@[i as int]);
        assert(v@.skip(i as int).skip(1) =~= v@.skip(i + 1));
        match take_letter(v[i], f) {
            Some(g) => {
                f = g;
            },
            None => {
                return Err(v[i]);
            },
        }
        i += 1;
    }
    Ok(f)
}

/// The flags with that of one whole argument added.
fn take_word(s: &str, flags: Flags) -> (r: Option<Flags>)
    ensures
        r == with_word(s@, flags),
{
    if text::str_eq(s, "-n") || text::str_eq(s, "--dry-run") {
        Some(Flags { dry_run: true, verbose: flags.verbose, force: flags.force })
    } else if text::str_eq(s, "-v") || text::str_eq(s, "--verbose") {
        Some(Flags { dry_run: flags.dry_run, verbose: true, force: flags.force })
    } else if text::str_eq(s, "-f") || text::str_eq(s, "--force") {
        Some(Flags { dry_run: flags.dry_run, verbose: flags.verbose, force: true })
    } else if text::str_eq(s, "-r") || text::str_eq(s, "-rf") || text::str_eq(s, "-R") {
        Some(flags)
    } else {
        None
    }
}

/// Adds all arguments from a place on to the paths.
fn take_rest(paths: &mut Vec<String>, args: &[String], from: usize)
    requires
        from <= args@.len(),
    ensures
        text::texts(final(paths)@) == text::texts(old(paths)@) + text::texts(args@).skip(
            from as int,
        ),
{
    let ghost all = text::texts(args@);
    let ghost before = text::texts(paths@);
    let mut i: usize = from;
    assert(text::texts(paths@) =~= before + all.subrange(from as int, from as int));
    while i < args.len()
        invariant
            from <= i <= args@.len(),
            all == text::texts(args@),
            text::texts(paths@) == before + all.subrange(from as int, i as int),
        decreases args.len() - i,
    {
        let ghost prior = text::texts(paths@);
        paths.push(args[i].clone());
        assert(text::texts(paths@) =~= prior.push(all[i as int]));
        i += 1;
        assert(text::texts(paths@) =~= before + all.subrange(from as int, i as int));
    }
    assert(all.subrange(from as int, i as int) =~= all.skip(from as int));
}

/// Reads the arguments.
pub fn parse_delete_args(args: &[String]) -> (r: Result<DeleteOptions, DeleteArgError>)
    ensures
        delete_result(r) == delete_reading(args@),
{
    let ghost all = text::texts(args@);
    let mut flags = Flags { dry_run: false, verbose: false, force: false };
    let mut paths: Vec<String> = Vec::new();
    let mut i: usize = 0;
    assert(all.skip(0) =~= all);
    assert(text::texts(paths@) =~= seq![]);
    while i < args.len()
        invariant
            i <= args@.len(),
            all == text::texts(args@),
            delete_reading(args@) == read_delete_args(
                all.skip(i as int),
                flags,
                text::texts(paths@),
            ),
        decreases args.len() - i,
    {
        let ghost rest = all.skip(i as int);
        let arg = args[i].as_str();
        assert(rest[0] == arg@);
        assert(rest.skip(1) =~= all.skip(i + 1));
        let v = text::chars_of(arg);
        match take_word(arg, flags) {
            Some(f) => {
                flags = f;
            },
            None => if text::str_eq(arg, "--") {
                take_rest(&mut paths, args, i + 1);
                assert(delete_reading(args@) == request(flags, text::texts(paths@)));
                if paths.len() == 0 {
                    return Err(DeleteArgError::NoPaths);
                }
                return Ok(DeleteOptions { flags, paths });
            } else if v.len() > 1 && v[0] == '-' && v[1] != '-' {
                match take_letters(&v, flags) {
                    Ok(f) => {
                        flags = f;
                    },
                    Err(c) => {
                        return Err(DeleteArgError::UnknownFlag(c));
                    },
                }
            } else {
                let ghost before = text::texts(paths@);
                paths.push(args[i].clone());
                assert(text::texts(paths@) =~= before.push(arg@));
            },
        }
        i += 1;
    }
    assert(all.skip(i as int) =~= seq![]);
    if paths.len() == 0 {
        Err(DeleteArgError::NoPaths)
    } else {
        Ok(DeleteOptions { flags, paths })
    }
}

/// What came of one path.
#[derive(Clone, Copy, PartialEq, Eq, Structural)]
pub enum DeleteEnd {
    /// It is not there, and need not be.
    Skipped,
    /// It is not there.
    NotFound,
    /// Where it leads could not be found out.
    Unresolved,
    /// A directory, which would be moved to the trash.
    WouldTrashDir,
    /// Something else, which would be moved to the trash.
    WouldTrashFile,
    /// It is in the trash.
    Trashed,
    /// It is in the trash, but was not found there.
    NotTraced,
    /// It is in the trash, but where it came from could not be written down.
    NotDescribed,
    /// It could not be moved to the trash.
    Failed,
}

/// What to do next about a path. Each phase but the last is answered by yes
/// or no.
#[derive(Clone, Copy, PartialEq, Eq, Structural)]
pub enum DeletePhase {
    /// See whether it is there.
    Exists,
    /// Find out where it leads.
    Resolve,
    /// See whether that is a directory.
    IsDir,
    /// Move it to the trash.
    Delete,
    /// Find it in the trash.
    Trace,
    /// Write down where it came from.
    Describe,
    /// Nothing more is to be done.
    Done(DeleteEnd),
}

/// The phase that follows on an answer. Where the system keeps no descriptions
/// of its own, they are written here.
pub open spec fn after_phase(flags: Flags, describes: bool, phase: DeletePhase, yes: bool) -> DeletePhase {
    match phase {
        DeletePhase::Exists => if yes {
            DeletePhase::Resolve
        } else if flags.force {
            DeletePhase::Done(DeleteEnd::Skipped)
        } else {
            DeletePhase::Done(DeleteEnd::NotFound)
        },
        DeletePhase::Resolve => if !yes {
            DeletePhase::Done(DeleteEnd::Unresolved)
        } else if flags.dry_run {
            DeletePhase::IsDir
        } else {
            DeletePhase::Delete
        },
        DeletePhase::IsDir => if yes {
            DeletePhase::Done(DeleteEnd::WouldTrashDir)
        } else {
            DeletePhase::Done(DeleteEnd::WouldTrashFile)
        },
        DeletePhase::Delete => if !yes {
            DeletePhase::Done(DeleteEnd::Failed)
        } else if describes {
            DeletePhase::Trace
        } else {
            DeletePhase::Done(DeleteEnd::Trashed)
        },
        DeletePhase::Trace => if yes {
            DeletePhase::Describe
        } else {
            DeletePhase::Done(DeleteEnd::NotTraced)
        },
        DeletePhase::Describe => if yes {
            DeletePhase::Done(DeleteEnd::Trashed)
        } else {
            DeletePhase::Done(DeleteEnd::NotDescribed)
        },
        DeletePhase::Done(end) => DeletePhase::Done(end),
    }
}

/// The phase that is reached after some answers.
pub open spec fn phase_after(flags: Flags, describes: bool, answers: Seq<bool>) -> DeletePhase
    decreases answers.len(),
{
    if answers.len() == 0 {
        DeletePhase::Exists
    } else {
        after_phase(
            flags,
            describes,
            phase_after(flags, describes, answers.drop_last()),
            answers.last(),
        )
    }
}

/// The phase that follows on an answer.
pub fn next_delete_phase(flags: Flags, describes: bool, phase: DeletePhase, yes: bool) -> (r: DeletePhase)
    ensures
        r == after_phase(flags, describes, phase, yes),
{
    match phase {
        DeletePhase::Exists => if yes {
            DeletePhase::Resolve
        } else if flags.force {
            DeletePhase::Done(DeleteEnd::Skipped)
        } else {
            DeletePhase::Done(DeleteEnd::NotFound)
        },
        DeletePhase::Resolve => if !yes {
            DeletePhase::Done(DeleteEnd::Unresolved)
        } else if flags.dry_run {
            DeletePhase::IsDir
        } else {
            DeletePhase::Delete
        },
        DeletePhase::IsDir => if yes {
            DeletePhase::Done(DeleteEnd::WouldTrashDir)
        } else {
            DeletePhase::Done(DeleteEnd::WouldTrashFile)
        },
        DeletePhase::Delete => if !yes {
            DeletePhase::Done(DeleteEnd::Failed)
        } else if describes {
            DeletePhase::Trace
        } else {
            DeletePhase::Done(DeleteEnd::Trashed)
        },
        DeletePhase::Trace => if yes {
            DeletePhase::Describe
        } else {
            DeletePhase::Done(DeleteEnd::NotTraced)
        },
        DeletePhase::Describe => if yes {
            DeletePhase::Done(DeleteEnd::Trashed)
        } else {
            DeletePhase::Done(DeleteEnd::NotDescribed)
        },
        DeletePhase::Done(end) => DeletePhase::Done(end),
    }
}

/// What a report on a path speaks of, as far as it has come to be known.
pub struct DeleteDetails {
    /// The path as it was given.
    pub path: String,
    /// Where it leads.
    pub target: String,
    /// Its name in the trash.
    pub name: String,
    /// Why something failed.
    pub reason: String,
}

/// The end is an error.
pub open spec fn is_error(end: DeleteEnd) -> bool {
    end == DeleteEnd::NotFound || end == DeleteEnd::Unresolved || end == DeleteEnd::Failed
}

/// The line that tells of a path in the trash, where such lines are asked for.
pub open spec fn trashed_line(flags: Flags, target: Seq<char>) -> Seq<char> {
    if flags.verbose {
        "trashed: "@ + target + "\n"@
    } else {
        seq![]
    }
}

/// What is reported of a path.
pub open spec fn delete_said(end: DeleteEnd, flags: Flags, d: DeleteDetails) -> Said {
    let out = match end {
        DeleteEnd::WouldTrashDir => "would trash dir : "@ + d.target@ + "\n"@,
        DeleteEnd::WouldTrashFile => "would trash file: "@ + d.target@ + "\n"@,
        DeleteEnd::Trashed => trashed_line(flags, d.target@),
        DeleteEnd::NotTraced => trashed_line(flags, d.target@),
        DeleteEnd::NotDescribed => trashed_line(flags, d.target@),
        _ => seq![],
    };
    let err = match end {
        DeleteEnd::Skipped => if flags.verbose {
            "trash: skipping (not found): "@ + d.path@ + "\n"@
        } else {
            seq![]
        },
        DeleteEnd::NotFound => "trash: not found: "@ + d.path@ + "\n"@,
        DeleteEnd::Unresolved => "trash: cannot resolve "@ + d.path@ + ": "@ + d.reason@ + "\n"@,
        DeleteEnd::NotTraced => if flags.verbose {
            "trash: warning: could not find trash entry for "@ + d.target@ + "\n"@
        } else {
            seq![]
        },
        DeleteEnd::NotDescribed => if flags.verbose {
            "trash: warning: failed to write metadata for "@ + d.name@ + ": "@ + d.reason@ + "\n"@
        } else {
            seq![]
        },
        DeleteEnd::Failed => "trash: failed to trash "@ + d.target@ + ": "@ + d.reason@ + "\n"@,
        _ => seq![],
    };
    Said {
        out,
        err,
        code: if is_error(end) {
            1
        } else {
            0
        },
    }
}

/// Whether the end is an error.
pub fn fails(end: DeleteEnd) -> (r: bool)
    ensures
        r == is_error(end),
{
    end == DeleteEnd::NotFound || end == DeleteEnd::Unresolved || end == DeleteEnd::Failed
}

/// What is reported of a path.
pub fn delete_report(end: DeleteEnd, flags: Flags, d: &DeleteDetails) -> (r: Report)
    ensures
        r@ == delete_said(end, flags, *d),
{
    let mut out = String::new();
    let mut err = String::new();
    match end {
        DeleteEnd::Skipped => if flags.verbose {
            err.append("trash: skipping (not found): ");
            err.append(d.path.as_str());
            err.append("\n");
        },
        DeleteEnd::NotFound => {
            err.append("trash: not found: ");
            err.append(d.path.as_str());
            err.append("\n");
        },
        DeleteEnd::Unresolved => {
            err.append("trash: cannot resolve ");
            err.append(d.path.as_str());
            err.append(": ");
            err.append(d.reason.as_str());
            err.append("\n");
        },
        DeleteEnd::WouldTrashDir => {
            out.append("would trash dir : ");
            out.append(d.target.as_str());
            out.append("\n");
        },
        DeleteEnd::WouldTrashFile => {
            out.append("would trash file: ");
            out.append(d.target.as_str());
            out.append("\n");
        },
        DeleteEnd::Failed => {
            err.append("trash: failed to trash ");
            err.append(d.target.as_str());
            err.append(": ");
            err.append(d.reason.as_str());
            err.append("\n");
        },
        _ => if flags.verbose {
            out.append("trashed: ");
            out.append(d.target.as_str());
            out.append("\n");
            if end == DeleteEnd::NotTraced {
                err.append("trash: warning: could not find trash entry for ");
                err.append(d.target.as_str());
                err.append("\n");
            }
            if end == DeleteEnd::NotDescribed {
                err.append("trash: warning: failed to write metadata for ");
                err.append(d.name.as_str());
                err.append(": ");
                err.append(d.reason.as_str());
                err.append("\n");
            }
        },
    }
    let code: u8 = if fails(end) {
        1
    } else {
        0
    };
    assert(out@ =~= delete_said(end, flags, *d).out);
    assert(err@ =~= delete_said(end, flags, *d).err);
    Report { out, err, code }
}

/// Some end is an error.
pub open spec fn any_error(ends: Seq<DeleteEnd>) -> bool {
    exists|i: int| 0 <= i < ends.len() && is_error(#[trigger] ends[i])
}

/// The exit status, from what came of each path.
pub fn delete_code(ends: &[DeleteEnd]) -> (code: u8)
    ensures
        code == if any_error(ends@) {
            1u8
        } else {
            0u8
        },
{
    let mut i: usize = 0;
    while i < ends.len()
        invariant
            i <= ends@.len(),
            forall|k: int| 0 <= k < i ==> !is_error(#[trigger] ends@[k]),
        decreases ends.len() - i,
    {
        if fails(ends[i]) {
            return 1;
        }
        i += 1;
    }
    0
}

/// The run has gone beyond telling what would be done.
pub open spec fn is_past_dry_run(phase: DeletePhase) -> bool {
    match phase {
        DeletePhase::Delete => true,
        DeletePhase::Trace => true,
        DeletePhase::Describe => true,
        DeletePhase::Done(end) => end == DeleteEnd::Trashed || end == DeleteEnd::NotTraced || end
            == DeleteEnd::NotDescribed || end == DeleteEnd::Failed,
        _ => false,
    }
}

/// A dry run moves nothing to the trash and writes nothing down.
pub proof fn law_dry_run_deletes_nothing(flags: Flags, describes: bool, answers: Seq<bool>)
    requires
        flags.dry_run,
    ensures
        !is_past_dry_run(phase_after(flags, describes, answers)),
    decreases answers.len(),
{
    if answers.len() > 0 {
        law_dry_run_deletes_nothing(flags, describes, answers.drop_last());
    }
}

/// A path that is not there is an error, except by force. Nothing more is done
/// about it either way.
pub proof fn law_force_excuses_missing_paths(flags: Flags, describes: bool, answers: Seq<bool>)
    requires
        answers.len() > 0,
        !answers[0],
    ensures
        phase_after(flags, describes, answers) == DeletePhase::Done(
            if flags.force {
                DeleteEnd::Skipped
            } else {
                DeleteEnd::NotFound
            },
        ),
        is_error(phase_after(flags, describes, answers)->Done_0) == !flags.force,
    decreases answers.len(),
{
    let before = answers.drop_last();
    if answers.len() > 1 {
        law_force_excuses_missing_paths(flags, describes, before);
    } else {
        assert(phase_after(flags, describes, before) == DeletePhase::Exists);
    }
}

/// Every path is done with after at most five answers.
pub proof fn law_every_path_is_done_with(flags: Flags, describes: bool, answers: Seq<bool>)
    requires
        answers.len() >= 5,
    ensures
        phase_after(flags, describes, answers) is Done,
    decreases answers.len(),
{
    if answers.len() > 5 {
        law_every_path_is_done_with(flags, describes, answers.drop_last());
    } else {
        reveal_with_fuel(phase_after, 6);
    }
}

/// All that stands behind `--` is a path, whatever it looks like.
pub proof fn law_rest_is_paths(rest: Seq<Seq<char>>, flags: Flags, paths: Seq<Seq<char>>)
    requires
        rest.len() > 0,
    ensures
        read_delete_args(seq!["--"@] + rest, flags, paths) == (DeleteReading::Request {
            flags,
            paths: paths + rest,
        }),
{
    reveal_strlit("--");
    reveal_strlit("-n");
    reveal_strlit("--dry-run");
    reveal_strlit("-v");
    reveal_strlit("--verbose");
    reveal_strlit("-f");
    reveal_strlit("--force");
    reveal_strlit("-r");
    reveal_strlit("-rf");
    reveal_strlit("-R");
    let args = seq!["--"@] + rest;
    assert(args[0] == "--"@);
    assert(args.skip(1) =~= rest);
    assert("--"@.len() == 2 && "--"@[1] == '-');
    assert(with_word("--"@, flags) is None);
}

/// An argument that stands for nothing may be left out, unless it stands
/// behind `--`.
pub proof fn law_ignored_word_changes_nothing(
    word: Seq<char>,
    before: Seq<Seq<char>>,
    after: Seq<Seq<char>>,
    flags: Flags,
    paths: Seq<Seq<char>>,
)
    requires
        word == "-r"@ || word == "-rf"@ || word == "-R"@,
        !before.contains("--"@),
    ensures
        read_delete_args(before.push(word) + after, flags, paths) == read_delete_args(
            before + after,
            flags,
            paths,
        ),
    decreases before.len(),
{
    let with = before.push(word) + after;
    let without = before + after;
    if before.len() == 0 {
        lemma_ignored_words(word, flags);
        assert(with[0] == word);
        assert(with.skip(1) =~= without);
    } else {
        assert(with[0] == before[0] && without[0] == before[0]);
        assert(with.skip(1) =~= before.skip(1).push(word) + after);
        assert(without.skip(1) =~= before.skip(1) + after);
        assert forall|i: int| 0 <= i < before.len() - 1 implies before.skip(1)[i] != "--"@ by {
            assert(before.contains(before[i + 1]));
        }
        assert(before.contains(before[0]));
        let a = before[0];
        if with_word(a, flags) is Some {
            law_ignored_word_changes_nothing(
                word,
                before.skip(1),
                after,
                with_word(a, flags)->0,
                paths,
            );
        } else if is_letters(a) {
            if let Ok(f) = with_letters(a.skip(1), flags) {
                law_ignored_word_changes_nothing(word, before.skip(1), after, f, paths);
            }
        } else {
            law_ignored_word_changes_nothing(word, before.skip(1), after, flags, paths.push(a));
        }
    }
}

/// `-r`, `-rf` and `-R` stand for nothing.
proof fn lemma_ignored_words(word: Seq<char>, flags: Flags)
    requires
        word == "-r"@ || word == "-rf"@ || word == "-R"@,
    ensures
        with_word(word, flags) == Some(flags),
{
    reveal_strlit("-n");
    reveal_strlit("--dry-run");
    reveal_strlit("-v");
    reveal_strlit("--verbose");
    reveal_strlit("-f");
    reveal_strlit("--force");
    reveal_strlit("-r");
    reveal_strlit("-rf");
    reveal_strlit("-R");
    assert(word[1] == 'r' || word[1] == 'R');
    assert("-n"@[1] == 'n' && "--dry-run"@[1] == '-' && "-v"@[1] == 'v');
    assert("--verbose"@[1] == '-' && "-f"@[1] == 'f' && "--force"@[1] == '-');
}

/// Each letter as an argument of its own.
pub open spec fn single_letters(letters: Seq<char>) -> Seq<Seq<char>> {
    letters.map_values(|c: char| seq!['-', c])
}

/// One letter behind a dash adds its flag.
proof fn lemma_single_letter(c: char, flags: Flags)
    requires
        with_letter(c, flags) is Some,
    ensures
        with_word(seq!['-', c], flags) == with_letter(c, flags),
{
    let s = seq!['-', c];
    reveal_strlit("-n");
    reveal_strlit("--dry-run");
    reveal_strlit("-v");
    reveal_strlit("--verbose");
    reveal_strlit("-f");
    reveal_strlit("--force");
    reveal_strlit("-r");
    reveal_strlit("-rf");
    reveal_strlit("-R");
    assert(s[1] == c);
    assert(s == "-n"@ <==> c == 'n') by {
        if c == 'n' {
            assert(s =~= "-n"@);
        }
        assert("-n"@[1] == 'n');
    }
    assert(s == "-v"@ <==> c == 'v') by {
        if c == 'v' {
            assert(s =~= "-v"@);
        }
        assert("-v"@[1] == 'v');
    }
    assert(s == "-f"@ <==> c == 'f') by {
        if c == 'f' {
            assert(s =~= "-f"@);
        }
        assert("-f"@[1] == 'f');
    }
    assert(s == "-r"@ <==> c == 'r') by {
        if c == 'r' {
            assert(s =~= "-r"@);
        }
        assert("-r"@[1] == 'r');
    }
    assert(s == "-R"@ <==> c == 'R') by {
        if c == 'R' {
            assert(s =~= "-R"@);
        }
        assert("-R"@[1] == 'R');
    }
    assert(s.len() == 2 && "--dry-run"@.len() == 9 && "--verbose"@.len() == 9 && "--force"@.len()
        == 7 && "-rf"@.len() == 3);
}

/// Letters as arguments of their own add their flags.
proof fn lemma_single_letters(
    letters: Seq<char>,
    rest: Seq<Seq<char>>,
    flags: Flags,
    paths: Seq<Seq<char>>,
)
    requires
        with_letters(letters, flags) is Ok,
    ensures
        read_delete_args(single_letters(letters) + rest, flags, paths) == read_delete_args(
            rest,
            with_letters(letters, flags)->Ok_0,
            paths,
        ),
    decreases letters.len(),
{
    let args = single_letters(letters) + rest;
    if letters.len() == 0 {
        assert(args =~= rest);
    } else {
        lemma_single_letter(letters[0], flags);
        assert(args[0] == seq!['-', letters[0]]);
        assert(args.skip(1) =~= single_letters(letters.skip(1)) + rest);
        lemma_single_letters(
            letters.skip(1),
            rest,
            with_letter(letters[0], flags)->0,
            paths,
        );
    }
}

/// Letters behind one dash say the same as each behind a dash of its own. The
/// one exception is `-rf`, which stands for nothing.
pub proof fn law_letters_may_share_a_dash(
    letters: Seq<char>,
    rest: Seq<Seq<char>>,
    flags: Flags,
    paths: Seq<Seq<char>>,
)
    requires
        letters.len() > 0,
        with_letters(letters, flags) is Ok,
        letters != seq!['r', 'f'],
    ensures
        read_delete_args(seq![seq!['-'] + letters] + rest, flags, paths) == read_delete_args(
            single_letters(letters) + rest,
            flags,
            paths,
        ),
{
    let word = seq!['-'] + letters;
    let args = seq![word] + rest;
    assert(args[0] == word);
    assert(args.skip(1) =~= rest);
    assert(word.skip(1) =~= letters);
    assert(word[0] == '-' && word[1] == letters[0]);
    lemma_single_letters(letters, rest, flags, paths);
    if letters.len() == 1 {
        lemma_single_letter(letters[0], flags);
        assert(word =~= seq!['-', letters[0]]);
        reveal_with_fuel(with_letters, 2);
        assert(letters.skip(1).len() == 0);
    } else {
        reveal_strlit("-n");
        reveal_strlit("--dry-run");
        reveal_strlit("-v");
        reveal_strlit("--verbose");
        reveal_strlit("-f");
        reveal_strlit("--force");
        reveal_strlit("-r");
        reveal_strlit("-rf");
        reveal_strlit("-R");
        reveal_strlit("--");
        assert("--dry-run"@[1] == '-' && "--verbose"@[1] == '-' && "--force"@[1] == '-' && "--"@[1]
            == '-');
        assert(word.len() > 2 && "-n"@.len() == 2 && "-v"@.len() == 2 && "-f"@.len() == 2
            && "-r"@.len() == 2 && "-R"@.len() == 2);
        if word == "-rf"@ {
            assert(letters[0] == word[1] && letters[1] == word[2]);
            assert(letters =~= seq!['r', 'f']);
        }
        assert(with_word(word, flags) is None);
    }
}

/// A path is told to be in the trash only where it is: the output speaks of a
/// path that was trashed only at an end that no run reaches before the move
/// succeeded, and so never in a dry run.
pub proof fn law_only_trashed_paths_are_told_so(
    end: DeleteEnd,
    flags: Flags,
    d: DeleteDetails,
    describes: bool,
    answers: Seq<bool>,
)
    requires
        "trashed: "@.is_prefix_of(delete_said(end, flags, d).out),
    ensures
        end == DeleteEnd::Trashed || end == DeleteEnd::NotTraced || end == DeleteEnd::NotDescribed,
        phase_after(flags, describes, answers) == DeletePhase::Done(end) ==> !flags.dry_run
            && answers.len() >= 3 && answers[0] && answers[1] && answers[2],
{
    reveal_strlit("trashed: ");
    reveal_strlit("would trash dir : ");
    reveal_strlit("would trash file: ");
    let out = delete_said(end, flags, d).out;
    assert("trashed: "@.len() == 9 && "trashed: "@[0] == 't');
    assert("would trash dir : "@[0] == 'w' && "would trash file: "@[0] == 'w');
    assert(out.subrange(0, 9)[0] == out[0]);
    if phase_after(flags, describes, answers) == DeletePhase::Done(end) {
        lemma_trashed_after_the_move(flags, describes, answers);
    }
}

/// A run is past the move only where the path was there, could be resolved and
/// was moved, and that is not a dry run.
proof fn lemma_trashed_after_the_move(flags: Flags, describes: bool, answers: Seq<bool>)
    ensures
        match phase_after(flags, describes, answers) {
            DeletePhase::Exists => answers.len() == 0,
            DeletePhase::Resolve => answers.len() == 1 && answers[0],
            DeletePhase::IsDir => true,
            DeletePhase::Delete => !flags.dry_run && answers.len() == 2 && answers[0] && answers[1],
            DeletePhase::Trace => !flags.dry_run && answers.len() == 3 && answers[0] && answers[1]
                && answers[2],
            DeletePhase::Describe => !flags.dry_run && answers.len() == 4 && answers[0]
                && answers[1] && answers[2],
            DeletePhase::Done(end) => end == DeleteEnd::Trashed || end == DeleteEnd::NotTraced || end
                == DeleteEnd::NotDescribed ==> !flags.dry_run && answers.len() >= 3 && answers[0]
                && answers[1] && answers[2],
        },
    decreases answers.len(),
{
    if answers.len() > 0 {
        lemma_trashed_after_the_move(flags, describes, answers.drop_last());
    }
}

/// What a dry run prints of a path depends on its kind and on where it leads, and
/// on no flag.
pub proof fn law_dry_run_tells_what_it_would_do(
    flags: Flags,
    d: DeleteDetails,
    other_flags: Flags,
    other: DeleteDetails,
)
    requires
        d.target@ == other.target@,
    ensures
        delete_said(DeleteEnd::WouldTrashDir, flags, d) == delete_said(
            DeleteEnd::WouldTrashDir,
            other_flags,
            other,
        ),
        delete_said(DeleteEnd::WouldTrashFile, flags, d) == delete_said(
            DeleteEnd::WouldTrashFile,
            other_flags,
            other,
        ),
        delete_said(DeleteEnd::WouldTrashDir, flags, d).out == "would trash dir : "@ + d.target@
            + "\n"@,
        delete_said(DeleteEnd::WouldTrashFile, flags, d).out == "would trash file: "@ + d.target@
            + "\n"@,
        delete_said(DeleteEnd::WouldTrashDir, flags, d).err.len() == 0,
        delete_said(DeleteEnd::WouldTrashFile, flags, d).err.len() == 0,
{
}

/// Only three ends are errors, and an error is always told, whatever the flags.
/// What is no error is told on request only, but for a dry run.
pub proof fn law_errors_are_always_told(end: DeleteEnd, flags: Flags, d: DeleteDetails)
    ensures
        ({
            let r = delete_said(end, flags, d);
            let dry = end == DeleteEnd::WouldTrashDir || end == DeleteEnd::WouldTrashFile;
            let trashed = end == DeleteEnd::Trashed || end == DeleteEnd::NotTraced || end
                == DeleteEnd::NotDescribed;
            &&& is_error(end) <==> end == DeleteEnd::NotFound || end == DeleteEnd::Unresolved || end
                == DeleteEnd::Failed
            &&& r.code == 1 <==> is_error(end)
            &&& r.code == 0 || r.code == 1
            &&& end == DeleteEnd::NotFound ==> r.err == "trash: not found: "@ + d.path@ + "\n"@
            &&& end == DeleteEnd::Unresolved ==> r.err == "trash: cannot resolve "@ + d.path@ + ": "@
                + d.reason@ + "\n"@
            &&& end == DeleteEnd::Failed ==> r.err == "trash: failed to trash "@ + d.target@ + ": "@
                + d.reason@ + "\n"@
            &&& !flags.verbose && !is_error(end) ==> r.err.len() == 0
            &&& !flags.verbose && !dry ==> r.out.len() == 0
            &&& flags.verbose && end == DeleteEnd::Skipped ==> r.err
                == "trash: skipping (not found): "@ + d.path@ + "\n"@
            &&& flags.verbose && end == DeleteEnd::Trashed ==> r.err.len() == 0
            &&& flags.verbose && end == DeleteEnd::NotTraced ==> r.err
                == "trash: warning: could not find trash entry for "@ + d.target@ + "\n"@
            &&& flags.verbose && end == DeleteEnd::NotDescribed ==> r.err
                == "trash: warning: failed to write metadata for "@ + d.name@ + ": "@ + d.reason@
                + "\n"@
            &&& flags.verbose && trashed ==> r.out == "trashed: "@ + d.target@ + "\n"@
            &&& !trashed && !dry ==> r.out.len() == 0
        }),
{
}

/// One error is enough for the status of all, wherever it stands.
pub proof fn law_one_error_is_enough(ends: Seq<DeleteEnd>, end: DeleteEnd)
    ensures
        !any_error(seq![]),
        any_error(ends.push(end)) <==> any_error(ends) || end == DeleteEnd::NotFound || end
            == DeleteEnd::Unresolved || end == DeleteEnd::Failed,
{
    let all = ends.push(end);
    assert(all[ends.len() as int] == end);
    if any_error(ends) {
        let i = choose|i: int| 0 <= i < ends.len() && is_error(#[trigger] ends[i]);
        assert(all[i] == ends[i]);
    }
    if any_error(all) && !is_error(end) {
        let i = choose|i: int| 0 <= i < all.len() && is_error(#[trigger] all[i]);
        assert(ends[i] == all[i]);
    }
}

/// Where a run goes on from each phase: what is there is resolved; a dry run then
/// only looks at what it is, and every other run moves it; where the system keeps
/// no descriptions, it is then found and described.
pub proof fn law_each_answer_leads_on(flags: Flags, describes: bool, yes: bool, end: DeleteEnd)
    ensures
        after_phase(flags, describes, DeletePhase::Exists, true) == DeletePhase::Resolve,
        after_phase(flags, describes, DeletePhase::Exists, false) == DeletePhase::Done(
            if flags.force {
                DeleteEnd::Skipped
            } else {
                DeleteEnd::NotFound
            },
        ),
        after_phase(flags, describes, DeletePhase::Resolve, true) == if flags.dry_run {
            DeletePhase::IsDir
        } else {
            DeletePhase::Delete
        },
        after_phase(flags, describes, DeletePhase::Resolve, false) == DeletePhase::Done(
            DeleteEnd::Unresolved,
        ),
        after_phase(flags, describes, DeletePhase::IsDir, true) == DeletePhase::Done(
            DeleteEnd::WouldTrashDir,
        ),
        after_phase(flags, describes, DeletePhase::IsDir, false) == DeletePhase::Done(
            DeleteEnd::WouldTrashFile,
        ),
        after_phase(flags, describes, DeletePhase::Delete, false) == DeletePhase::Done(
            DeleteEnd::Failed,
        ),
        after_phase(flags, true, DeletePhase::Delete, true) == DeletePhase::Trace,
        after_phase(flags, false, DeletePhase::Delete, true) == DeletePhase::Done(
            DeleteEnd::Trashed,
        ),
        after_phase(flags, describes, DeletePhase::Trace, true) == DeletePhase::Describe,
        after_phase(flags, describes, DeletePhase::Trace, false) == DeletePhase::Done(
            DeleteEnd::NotTraced,
        ),
        after_phase(flags, describes, DeletePhase::Describe, true) == DeletePhase::Done(
            DeleteEnd::Trashed,
        ),
        after_phase(flags, describes, DeletePhase::Describe, false) == DeletePhase::Done(
            DeleteEnd::NotDescribed,
        ),
        after_phase(flags, describes, DeletePhase::Done(end), yes) == DeletePhase::Done(end),
{
}

/// Being told more changes nothing that is done.
pub proof fn law_telling_changes_nothing(flags: Flags, describes: bool, answers: Seq<bool>)
    ensures
        phase_after(flags, describes, answers) == phase_after(
            Flags { dry_run: flags.dry_run, verbose: !flags.verbose, force: flags.force },
            describes,
            answers,
        ),
    decreases answers.len(),
{
    if answers.len() > 0 {
        law_telling_changes_nothing(flags, describes, answers.drop_last());
    }
}

/// A run takes one answer at a time, from the question whether the path is there.
pub proof fn law_runs_take_one_answer_at_a_time(
    flags: Flags,
    describes: bool,
    answers: Seq<bool>,
    yes: bool,
)
    ensures
        phase_after(flags, describes, seq![]) == DeletePhase::Exists,
        phase_after(flags, describes, answers.push(yes)) == after_phase(
            flags,
            describes,
            phase_after(flags, describes, answers),
            yes,
        ),
{
    assert(answers.push(yes).drop_last() =~= answers);
}

/// Each long flag says what its letter says, and leaves the others as they are;
/// each letter says one thing; and what is no flag is a path, in its order.
pub proof fn law_delete_words_say_one_thing(
    flags: Flags,
    paths: Seq<Seq<char>>,
    word: Seq<char>,
    rest: Seq<Seq<char>>,
)
    ensures
        read_delete_args(seq!["--dry-run"@] + rest, flags, paths) == read_delete_args(
            rest,
            Flags { dry_run: true, verbose: flags.verbose, force: flags.force },
            paths,
        ),
        read_delete_args(seq!["--verbose"@] + rest, flags, paths) == read_delete_args(
            rest,
            Flags { dry_run: flags.dry_run, verbose: true, force: flags.force },
            paths,
        ),
        read_delete_args(seq!["--force"@] + rest, flags, paths) == read_delete_args(
            rest,
            Flags { dry_run: flags.dry_run, verbose: flags.verbose, force: true },
            paths,
        ),
        with_letter('n', flags) == Some(
            Flags { dry_run: true, verbose: flags.verbose, force: flags.force },
        ),
        with_letter('v', flags) == Some(
            Flags { dry_run: flags.dry_run, verbose: true, force: flags.force },
        ),
        with_letter('f', flags) == Some(
            Flags { dry_run: flags.dry_run, verbose: flags.verbose, force: true },
        ),
        with_letter('r', flags) == Some(flags),
        with_letter('R', flags) == Some(flags),
        (word.len() == 0 || word[0] != '-' || word.len() == 1) ==> read_delete_args(
            seq![word] + rest,
            flags,
            paths,
        ) == read_delete_args(rest, flags, paths.push(word)),
        word.len() > 2 && word[0] == '-' && word[1] == '-' && word != "--dry-run"@ && word
            != "--verbose"@ && word != "--force"@ ==> read_delete_args(
            seq![word] + rest,
            flags,
            paths,
        ) == read_delete_args(rest, flags, paths.push(word)),
        paths.len() > 0 ==> read_delete_args(seq![], flags, paths) == (DeleteReading::Request {
            flags,
            paths,
        }),
        paths.len() == 0 ==> read_delete_args(seq![], flags, paths) == DeleteReading::NoPaths,
        paths.len() == 0 ==> read_delete_args(seq!["--"@], flags, paths) == DeleteReading::NoPaths,
        no_flags() == (Flags { dry_run: false, verbose: false, force: false }),
{
    reveal_strlit("-n");
    reveal_strlit("--dry-run");
    reveal_strlit("-v");
    reveal_strlit("--verbose");
    reveal_strlit("-f");
    reveal_strlit("--force");
    reveal_strlit("-r");
    reveal_strlit("-rf");
    reveal_strlit("-R");
    reveal_strlit("--");
    assert("-n"@.len() == 2 && "-n"@[0] == '-' && "-n"@[1] == 'n');
    assert("-v"@.len() == 2 && "-v"@[0] == '-' && "-v"@[1] == 'v');
    assert("-f"@.len() == 2 && "-f"@[0] == '-' && "-f"@[1] == 'f');
    assert("-r"@.len() == 2 && "-r"@[0] == '-' && "-r"@[1] == 'r');
    assert("-R"@.len() == 2 && "-R"@[0] == '-' && "-R"@[1] == 'R');
    assert("-rf"@.len() == 3 && "-rf"@[0] == '-' && "-rf"@[1] == 'r');
    assert("--"@.len() == 2 && "--"@[0] == '-' && "--"@[1] == '-');
    assert("--dry-run"@.len() == 9 && "--dry-run"@[0] == '-' && "--dry-run"@[2] == 'd');
    assert("--verbose"@.len() == 9 && "--verbose"@[0] == '-' && "--verbose"@[2] == 'v');
    assert("--force"@.len() == 7 && "--force"@[0] == '-');
    assert((seq!["--dry-run"@] + rest).skip(1) =~= rest);
    assert((seq!["--verbose"@] + rest).skip(1) =~= rest);
    assert((seq!["--force"@] + rest).skip(1) =~= rest);
    assert((seq![word] + rest).skip(1) =~= rest);
    assert((seq![word] + rest)[0] == word);
    assert(paths + seq!["--"@].skip(1) =~= paths);
}

/// A letter that is no flag is refused, wherever it stands behind the dash, as
/// the first that is none.
pub proof fn law_unknown_letter_is_refused(
    flags: Flags,
    paths: Seq<Seq<char>>,
    before: Seq<char>,
    c: char,
    behind: Seq<char>,
    rest: Seq<Seq<char>>,
)
    requires
        with_letters(before, flags) is Ok,
        c != 'n' && c != 'v' && c != 'f' && c != 'r' && c != 'R',
        before.len() == 0 ==> c != '-',
    ensures
        read_delete_args(seq![seq!['-'] + before + seq![c] + behind] + rest, flags, paths)
            == DeleteReading::UnknownFlag(c),
{
    let letters = before + seq![c] + behind;
    let word = seq!['-'] + before + seq![c] + behind;
    let args = seq![word] + rest;
    assert(word.skip(1) =~= letters);
    assert(args[0] == word);
    lemma_unknown_letter(before, c, behind, flags);
    assert(word.len() >= 2 && word[0] == '-');
    if before.len() > 0 {
        assert(word[1] == before[0]);
        assert(with_letter(before[0], flags) is Some);
    } else {
        assert(word[1] == c);
    }
    assert(word[1int + before.len()] == c);
    reveal_strlit("-n");
    reveal_strlit("--dry-run");
    reveal_strlit("-v");
    reveal_strlit("--verbose");
    reveal_strlit("-f");
    reveal_strlit("--force");
    reveal_strlit("-r");
    reveal_strlit("-rf");
    reveal_strlit("-R");
    reveal_strlit("--");
    assert("-n"@.len() == 2 && "-n"@[1] == 'n' && "-v"@.len() == 2 && "-v"@[1] == 'v');
    assert("-f"@.len() == 2 && "-f"@[1] == 'f' && "-r"@.len() == 2 && "-r"@[1] == 'r');
    assert("-R"@.len() == 2 && "-R"@[1] == 'R');
    assert("-rf"@.len() == 3 && "-rf"@[1] == 'r' && "-rf"@[2] == 'f');
    assert("--"@[1] == '-' && "--dry-run"@[1] == '-' && "--verbose"@[1] == '-' && "--force"@[1]
        == '-');
    assert(with_word(word, flags) is None);
}

proof fn lemma_unknown_letter(before: Seq<char>, c: char, behind: Seq<char>, flags: Flags)
    requires
        with_letters(before, flags) is Ok,
        c != 'n' && c != 'v' && c != 'f' && c != 'r' && c != 'R',
    ensures
        with_letters(before + seq![c] + behind, flags) == Err::<Flags, char>(c),
    decreases before.len(),
{
    let all = before + seq![c] + behind;
    if before.len() == 0 {
        assert(all[0] == c);
    } else {
        assert(all[0] == before[0]);
        assert(all.skip(1) =~= before.skip(1) + seq![c] + behind);
        lemma_unknown_letter(before.skip(1), c, behind, with_letter(before[0], flags)->0);
    }
}

/// A run reads all arguments, from nothing, and hands on what it reads.
pub proof fn law_delete_reads_all(args: Seq<String>, o: DeleteOptions, c: char)
    ensures
        delete_reading(args) == read_delete_args(
            Seq::new(args.len(), |i: int| args[i]@),
            Flags { dry_run: false, verbose: false, force: false },
            seq![],
        ),
        delete_result(Ok(o)) == (DeleteReading::Request {
            flags: o.flags,
            paths: Seq::new(o.paths@.len(), |i: int| o.paths@[i]@),
        }),
        delete_result(Err(DeleteArgError::UnknownFlag(c))) == DeleteReading::UnknownFlag(c),
        delete_result(Err(DeleteArgError::NoPaths)) == DeleteReading::NoPaths,
        delete_error_text(DeleteArgError::UnknownFlag(c)) == "trash: unknown flag '-"@ + seq![c]
            + "'"@,
        delete_error_text(DeleteArgError::NoPaths) == "trash: no paths specified"@,
{
    assert(text::texts(args) =~= Seq::new(args.len(), |i: int| args[i]@));
    assert(text::texts(o.paths@) =~= Seq::new(o.paths@.len(), |i: int| o.paths@[i]@));
}

} // verus!

//! Removing a file or a directory, with all that is in it.

use vstd::prelude::*;

verus! {

/// What to do next to remove something. Each phase but the last is answered by
/// an event.
#[derive(Clone, Copy, PartialEq, Eq, Structural)]
pub enum RemovePhase {
    /// See whether the system can be told the path.
    Name,
    /// Remove it as a file or a link.
    Unlink,
    /// Remove it as an empty directory.
    RemoveDir,
    /// See what stands there.
    Look,
    /// Remove what is in it. What cannot be removed is passed over.
    RemoveChildren,
    /// Remove it as a directory that is empty by now.
    RemoveEmptied,
    /// Nothing more is to be done; it is gone, or it is not.
    Done { gone: bool },
}

/// What came of a phase.
#[derive(Clone, Copy, PartialEq, Eq, Structural)]
pub enum RemoveEvent {
    /// It is so, or it was done.
    Yes,
    /// It is not so, or it could not be done.
    No,
    /// What stands at the path is, or leads to, a directory; it is a link.
    Seen { is_dir: bool, is_symlink: bool },
}

/// What is in it is to be removed as well: it is a directory, and no link to
/// one.
pub open spec fn descends(is_dir: bool, is_symlink: bool) -> bool {
    is_dir && !is_symlink
}

/// Whether what is in it is to be removed as well.
pub fn is_descended(is_dir: bool, is_symlink: bool) -> (r: bool)
    ensures
        r == descends(is_dir, is_symlink),
        r == (is_dir && !is_symlink),
{
    is_dir && !is_symlink
}

/// The phase that follows on an event.
pub open spec fn after_phase(phase: RemovePhase, event: RemoveEvent) -> RemovePhase {
    match phase {
        RemovePhase::Name => if event == RemoveEvent::Yes {
            RemovePhase::Unlink
        } else {
            RemovePhase::Done { gone: false }
        },
        RemovePhase::Unlink => if event == RemoveEvent::Yes {
            RemovePhase::Done { gone: true }
        } else {
            RemovePhase::RemoveDir
        },
        RemovePhase::RemoveDir => if event == RemoveEvent::Yes {
            RemovePhase::Done { gone: true }
        } else {
            RemovePhase::Look
        },
        RemovePhase::Look => match event {
            RemoveEvent::Seen { is_dir, is_symlink } => if descends(is_dir, is_symlink) {
                RemovePhase::RemoveChildren
            } else {
                RemovePhase::Done { gone: false }
            },
            _ => RemovePhase::Done { gone: false },
        },
        RemovePhase::RemoveChildren => RemovePhase::RemoveEmptied,
        RemovePhase::RemoveEmptied => RemovePhase::Done { gone: event == RemoveEvent::Yes },
        RemovePhase::Done { gone } => RemovePhase::Done { gone },
    }
}

/// The phase that is reached after some events.
pub open spec fn phase_after(events: Seq<RemoveEvent>) -> RemovePhase
    decreases events.len(),
{
    if events.len() == 0 {
        RemovePhase::Name
    } else {
        after_phase(phase_after(events.drop_last()), events.last())
    }
}

/// The phase that follows on an event.
pub fn next_remove_phase(phase: RemovePhase, event: RemoveEvent) -> (r: RemovePhase)
    ensures
        r == after_phase(phase, event),
{
    match phase {
        RemovePhase::Name => if event == RemoveEvent::Yes {
            RemovePhase::Unlink
        } else {
            RemovePhase::Done { gone: false }
        },
        RemovePhase::Unlink => if event == RemoveEvent::Yes {
            RemovePhase::Done { gone: true }
        } else {
            RemovePhase::RemoveDir
        },
        RemovePhase::RemoveDir => if event == RemoveEvent::Yes {
            RemovePhase::Done { gone: true }
        } else {
            RemovePhase::Look
        },
        RemovePhase::Look => match event {
            RemoveEvent::Seen { is_dir, is_symlink } => if is_descended(is_dir, is_symlink) {
                RemovePhase::RemoveChildren
            } else {
                RemovePhase::Done { gone: false }
            },
            _ => RemovePhase::Done { gone: false },
        },
        RemovePhase::RemoveChildren => RemovePhase::RemoveEmptied,
        RemovePhase::RemoveEmptied => RemovePhase::Done { gone: event == RemoveEvent::Yes },
        RemovePhase::Done { gone } => RemovePhase::Done { gone },
    }
}

/// The phase removes the thing itself.
pub open spec fn removes_it(phase: RemovePhase) -> bool {
    phase == RemovePhase::Unlink || phase == RemovePhase::RemoveDir || phase
        == RemovePhase::RemoveEmptied
}

/// It counts as gone just when the system has removed it.
pub proof fn law_gone_is_removed(events: Seq<RemoveEvent>)
    ensures
        phase_after(events) == (RemovePhase::Done { gone: true }) <==> exists|k: int|
            0 <= k < events.len() && removes_it(phase_after(#[trigger] events.take(k)))
                && events[k] == RemoveEvent::Yes,
    decreases events.len(),
{
    if events.len() > 0 {
        let before = events.drop_last();
        let n = events.len() - 1;
        law_gone_is_removed(before);
        assert(events.take(n) =~= before);
        if phase_after(before) == (RemovePhase::Done { gone: true }) {
            let k = choose|k: int|
                0 <= k < before.len() && removes_it(phase_after(#[trigger] before.take(k)))
                    && before[k] == RemoveEvent::Yes;
            assert(events.take(k) =~= before.take(k));
        } else {
            if removes_it(phase_after(before)) && events.last() == RemoveEvent::Yes {
                assert(removes_it(phase_after(events.take(n))) && events[n] == RemoveEvent::Yes);
            }
            assert forall|k: int|
                0 <= k < n && removes_it(phase_after(#[trigger] events.take(k))) implies events[k]
                != RemoveEvent::Yes by {
                assert(events.take(k) =~= before.take(k));
            }
        }
    }
}

/// Nothing inside is touched unless it could neither be removed as a file nor as
/// an empty directory, and was then seen to be a directory and no link.
pub proof fn law_links_are_not_followed(events: Seq<RemoveEvent>)
    requires
        phase_after(events) == RemovePhase::RemoveChildren,
    ensures
        events.len() == 4,
        events[1] != RemoveEvent::Yes,
        events[2] != RemoveEvent::Yes,
        events[3] == (RemoveEvent::Seen { is_dir: true, is_symlink: false }),
{
    let e3 = events.drop_last();
    let e2 = e3.drop_last();
    let e1 = e2.drop_last();
    let e0 = e1.drop_last();
    assert(phase_after(e3) == RemovePhase::Look);
    assert(phase_after(e2) == RemovePhase::RemoveDir);
    assert(phase_after(e1) == RemovePhase::Unlink);
    assert(phase_after(e0) == RemovePhase::Name);
    lemma_first_phase(e0);
}

/// Only the start of a removal is its first phase.
proof fn lemma_first_phase(events: Seq<RemoveEvent>)
    requires
        phase_after(events) == RemovePhase::Name,
    ensures
        events.len() == 0,
{
}

/// A link that cannot be removed itself stays, with all that it leads to.
pub proof fn law_stubborn_link_stays(is_dir: bool)
    ensures
        phase_after(
            seq![
                RemoveEvent::Yes,
                RemoveEvent::No,
                RemoveEvent::No,
                RemoveEvent::Seen { is_dir, is_symlink: true },
            ],
        ) == (RemovePhase::Done { gone: false }),
{
    let named = RemoveEvent::Yes;
    let seen = RemoveEvent::Seen { is_dir, is_symlink: true };
    let e4 = seq![named, RemoveEvent::No, RemoveEvent::No, seen];
    assert(e4.drop_last() =~= seq![named, RemoveEvent::No, RemoveEvent::No]);
    assert(e4.drop_last().drop_last() =~= seq![named, RemoveEvent::No]);
    assert(e4.drop_last().drop_last().drop_last() =~= seq![named]);
    assert(seq![named].drop_last() =~= seq![]);
    reveal_with_fuel(phase_after, 5);
}

/// A removal ends after at most six events of its own.
pub proof fn law_removal_ends(events: Seq<RemoveEvent>)
    requires
        events.len() >= 6,
    ensures
        phase_after(events) is Done,
    decreases events.len(),
{
    if events.len() > 6 {
        law_removal_ends(events.drop_last());
    } else {
        reveal_with_fuel(phase_after, 7);
    }
}

/// Where a removal goes on from each phase: it tries a file, then an empty
/// directory, and only a directory that is no link is emptied first.
pub proof fn law_each_answer_leads_on(event: RemoveEvent, is_dir: bool, is_symlink: bool)
    ensures
        after_phase(RemovePhase::Name, event) == if event == RemoveEvent::Yes {
            RemovePhase::Unlink
        } else {
            RemovePhase::Done { gone: false }
        },
        after_phase(RemovePhase::Unlink, event) == if event == RemoveEvent::Yes {
            RemovePhase::Done { gone: true }
        } else {
            RemovePhase::RemoveDir
        },
        after_phase(RemovePhase::RemoveDir, event) == if event == RemoveEvent::Yes {
            RemovePhase::Done { gone: true }
        } else {
            RemovePhase::Look
        },
        after_phase(RemovePhase::Look, RemoveEvent::Seen { is_dir, is_symlink }) == if is_dir
            && !is_symlink {
            RemovePhase::RemoveChildren
        } else {
            RemovePhase::Done { gone: false }
        },
        after_phase(RemovePhase::RemoveChildren, event) == RemovePhase::RemoveEmptied,
        after_phase(RemovePhase::RemoveEmptied, event) == (RemovePhase::Done {
            gone: event == RemoveEvent::Yes,
        }),
        after_phase(RemovePhase::Done { gone: is_dir }, event) == (RemovePhase::Done {
            gone: is_dir,
        }),
{
}

/// A removal takes one event at a time, from the question whether the system can
/// be told the path.
pub proof fn law_removals_take_one_event_at_a_time(events: Seq<RemoveEvent>, event: RemoveEvent)
    ensures
        phase_after(seq![]) == RemovePhase::Name,
        phase_after(events.push(event)) == after_phase(phase_after(events), event),
{
    assert(events.push(event).drop_last() =~= events);
}

} // verus!

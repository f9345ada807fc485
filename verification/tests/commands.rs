use trash_cli::delete::{
    delete_code, delete_report, fails, next_delete_phase, parse_delete_args, DeleteArgError,
    DeleteDetails, DeleteEnd, DeleteOptions, DeletePhase, Flags,
};
use trash_cli::empty::{
    agrees, confirmation_prompt, empty_report, emptied_places, expired, is_emptied,
    is_orphan, next_empty_phase, next_empty_step, orphan_places, parse_empty_args, removal_failure,
    select_expired, settles, start_empty, EmptyArgError, EmptyEnd, EmptyEvent, EmptyOptions,
    EmptyPhase, EmptyStep,
};
use trash_cli::info::TrashEntry;
use trash_cli::invoke::{
    homeless_report, print_help, read_invocation, unsupported_report, version_report, Command, Invocation,
};
use trash_cli::list::older;
use trash_cli::remove::{is_descended, next_remove_phase, RemoveEvent, RemovePhase};
use trash_cli::report::Report;
use trash_cli::restore::{
    find_matches, is_allowed_target, next_restore_phase, parse_restore_args, parse_selection, restore_report,
    restore_target, selection_menu, RestoreArgError, RestoreDetails, RestoreEnd, RestoreEvent,
    RestorePhase,
};
use trash_cli::size::{
    checked_dir_size, cmd_size, dir_size, human_size, is_measured_whole, is_walked, size_report, wants_bytes,
    Tree,
};

fn strings(v: &[&str]) -> Vec<String> {
    v.iter().map(|s| s.to_string()).collect()
}

fn entry(name: &str, path: &str, date: &str, time: Option<u64>, exists: bool) -> TrashEntry {
    TrashEntry {
        trash_filename: name.to_string(),
        original_path: path.to_string(),
        deletion_date: date.to_string(),
        deletion_time: time,
        exists_in_trash: exists,
    }
}

fn said(r: Report) -> (String, String, u8) {
    (r.out, r.err, r.code)
}

fn printed(out: &str) -> (String, String, u8) {
    (out.to_string(), String::new(), 0)
}

fn failed(err: &str) -> (String, String, u8) {
    (String::new(), err.to_string(), 1)
}

// Sizes.

fn float_size(bytes: u64) -> String {
    let mut size = bytes as f64;
    for unit in ["B", "KiB", "MiB", "GiB", "TiB"] {
        if size < 1024.0 || unit == "TiB" {
            return if unit == "B" {
                format!("{} {}", bytes, unit)
            } else {
                format!("{:.1} {}", size, unit)
            };
        }
        size /= 1024.0;
    }
    unreachable!()
}

#[test]
fn sizes_by_unit() {
    assert_eq!(human_size(0), "0 B");
    assert_eq!(human_size(1023), "1023 B");
    assert_eq!(human_size(1024), "1.0 KiB");
    assert_eq!(human_size(1536), "1.5 KiB");
    assert_eq!(human_size(1048575), "1024.0 KiB");
    assert_eq!(human_size(1048576), "1.0 MiB");
    assert_eq!(human_size(5 << 30), "5.0 GiB");
    assert_eq!(human_size(1 << 40), "1.0 TiB");
    assert_eq!(human_size(u64::MAX), "16777216.0 TiB");
}

#[test]
fn sizes_on_the_half_go_to_even() {
    assert_eq!(human_size(1280), "1.2 KiB");
    assert_eq!(human_size(1792), "1.8 KiB");
    assert_eq!(human_size(1 << 20 | 1 << 18), "1.2 MiB");
}

#[test]
fn sizes_agree_with_floating_point() {
    for n in 0u64..5000 {
        assert_eq!(human_size(n), float_size(n));
    }
    for shift in 0..64u32 {
        for d in [-129i64, -128, -127, -3, -2, -1, 0, 1, 2, 3, 51, 127, 128, 129] {
            let n = (1u64 << shift).wrapping_add(d as u64);
            assert_eq!(human_size(n), float_size(n), "{}", n);
        }
    }
    let mut x: u64 = 88172645463325252;
    for _ in 0..20000 {
        x ^= x << 13;
        x ^= x >> 7;
        x ^= x << 17;
        let n = x >> (x % 60);
        assert_eq!(human_size(n), float_size(n), "{}", n);
        let half = (n >> 5) << 5 | 1 << 4;
        assert_eq!(human_size(half), float_size(half), "{}", half);
    }
    // Ties, up to where double precision leaves out whole numbers.
    for k in 0..200u64 {
        for unit in [10, 20, 30, 40] {
            let n = (1u64 << unit) + k * (1u64 << (unit - 2));
            assert_eq!(human_size(n), float_size(n), "{}", n);
        }
        let wide = (1u64 << 54) + k;
        assert_eq!(human_size(wide), float_size(wide), "{}", wide);
    }
}

#[test]
fn written_size_is_near() {
    for n in [1025u64, 99999, 123456789, 987654321987, 4503599627370495] {
        let text = human_size(n);
        let (number, unit) = text.split_once(' ').unwrap();
        let factor = match unit {
            "KiB" => 1u64 << 10,
            "MiB" => 1 << 20,
            "GiB" => 1 << 30,
            _ => 1 << 40,
        };
        let tenths: u128 = number.replace('.', "").parse().unwrap();
        let difference = (tenths * factor as u128).abs_diff(n as u128 * 10);
        assert!(2 * difference <= factor as u128);
    }
}

#[test]
fn directory_sizes_add_up() {
    let t = Tree::Dir(vec![
        Tree::Leaf(Some(10)),
        Tree::Dir(vec![Tree::Leaf(Some(5)), Tree::Leaf(None), Tree::Dir(vec![])]),
        Tree::Leaf(Some(7)),
    ]);
    assert_eq!(dir_size(&t), 22);
    assert_eq!(checked_dir_size(&t), Some(22));
    assert_eq!(dir_size(&Tree::Leaf(Some(3))), 3);
    assert_eq!(dir_size(&Tree::Leaf(None)), 0);
    let large = Tree::Dir(vec![Tree::Leaf(Some(u64::MAX)), Tree::Leaf(Some(1))]);
    assert_eq!(checked_dir_size(&large), None);
    assert!(is_measured_whole(true, false) && is_measured_whole(false, true));
    assert!(!is_measured_whole(false, false));
    assert!(is_walked(true, false) && !is_walked(true, true) && !is_walked(false, false));
}

#[test]
fn size_command() {
    assert_eq!(cmd_size(&strings(&[]), None), "Trash is empty (0 B)\n");
    assert_eq!(cmd_size(&strings(&["--bytes"]), None), "0\n");
    assert_eq!(cmd_size(&strings(&["x", "--bytes"]), Some(2048)), "2048\n");
    assert_eq!(cmd_size(&strings(&["--byte"]), Some(2048)), "2.0 KiB\n");
    assert!(wants_bytes(&strings(&["--bytes"])) && !wants_bytes(&[]));
    assert_eq!(said(size_report(&[], Some(2048))), printed("2.0 KiB\n"));
}

// Emptying.

#[test]
fn empty_arguments() {
    let o = parse_empty_args(&strings(&["--older", "7d", "-y"])).ok().unwrap();
    assert_eq!(o.older_than, Some(604800));
    assert!(o.confirmed);
    let o = parse_empty_args(&strings(&["--yes"])).ok().unwrap();
    assert_eq!(o.older_than, None);
    assert!(o.confirmed);
    let o = parse_empty_args(&[]).ok().unwrap();
    assert!(!o.confirmed);
    assert_eq!(
        confirmation_prompt(&o),
        "Empty ALL trash? This cannot be undone. [y/N] "
    );
    // The question names the first age, though the last one counts.
    let o = parse_empty_args(&strings(&["--older", "7d", "--older", "1h"])).ok().unwrap();
    assert_eq!(o.older_than, Some(3600));
    assert_eq!(confirmation_prompt(&o), "Empty trash items older than 7d? [y/N] ");
}

#[test]
fn empty_arguments_refused() {
    let message = |v: &[&str]| match parse_empty_args(&strings(v)) {
        Ok(_) => panic!("accepted"),
        Err(e) => e.message(),
    };
    assert_eq!(message(&["--older"]), "trash empty: --older requires an age (e.g. 7d)");
    assert_eq!(message(&["--older", "--yes"]), "trash empty: invalid age '--yes'");
    assert_eq!(message(&["--all"]), "trash empty: unknown option '--all'");
    assert!(matches!(
        parse_empty_args(&strings(&["-y", "--older"])),
        Err(EmptyArgError::MissingAge)
    ));
    assert_eq!(message(&["--older", "584942417356y"]), "trash empty: invalid age '584942417356y'");
    assert_eq!(
        said(parse_empty_args(&strings(&["--older"])).err().unwrap().report()),
        failed("trash empty: --older requires an age (e.g. 7d)\n")
    );
}

#[test]
fn answers_that_agree() {
    for s in ["y", "Y", "yes", "YES", "yEs", " y\n", "yes\r\n", "\u{a0}Y"] {
        assert!(agrees(s), "{:?}", s);
    }
    for s in ["", "\n", "n", "no", "ye", "yess", "y es", "oui", "ｙ", "yeſ"] {
        assert!(!agrees(s), "{:?}", s);
    }
}

#[test]
fn answers_agree_with_lower_case_of_std() {
    let yes = |s: &str| {
        let answer = s.trim().to_lowercase();
        answer == "y" || answer == "yes"
    };
    for n in 0..=0x10ffffu32 {
        if let Some(c) = char::from_u32(n) {
            let mut s = c.to_string();
            assert_eq!(agrees(&s), yes(&s), "{:x}", n);
            s.insert_str(0, "ye");
            assert_eq!(agrees(&s), yes(&s), "{:x}", n);
            let s = format!("{}es", c);
            assert_eq!(agrees(&s), yes(&s), "{:x}", n);
            let s = format!("y{}s", c);
            assert_eq!(agrees(&s), yes(&s), "{:x}", n);
        }
    }
}

#[test]
fn expired_items() {
    let now = 1000i64;
    let v = [
        entry("old", "/o", "1", Some(100), true),
        entry("undated", "/u", "", None, true),
        entry("even", "/e", "2", Some(900), false),
        entry("young", "/y", "3", Some(901), true),
        entry("future", "/f", "4", Some(5000), true),
    ];
    assert_eq!(select_expired(&v, 100, now), vec![0, 2]);
    assert_eq!(select_expired(&v, 0, now), vec![0, 2, 3]);
    assert!(select_expired(&v, 901, now).is_empty());
    for e in &v {
        // What is removed for its age is what is shown for that age, but for
        // items without a date.
        for age in [0, 99, 100, 101, 5000] {
            assert_eq!(expired(e, age, now) || e.deletion_time.is_none(), older(e, age, now));
        }
    }
    assert!(!expired(&v[1], 0, now));
    assert!(!expired(&v[0], 0, -1));
}

#[test]
fn steps_for_one_expired_item() {
    let mut s = EmptyStep::Look;
    s = next_empty_step(s, true);
    assert!(s == EmptyStep::RemoveItem);
    assert!(next_empty_step(s, false) == EmptyStep::Failed);
    s = next_empty_step(s, true);
    assert!(s == EmptyStep::RemoveInfo);
    assert!(next_empty_step(s, false) == EmptyStep::Removed);
    assert!(next_empty_step(EmptyStep::Look, false) == EmptyStep::RemoveInfo);
}

fn options(older_than: Option<u64>, confirmed: bool) -> EmptyOptions {
    EmptyOptions { older_than, confirmed, age_text: older_than.map(|_| "1d".to_string()) }
}

fn run_empty(o: &EmptyOptions, events: &[EmptyEvent]) -> (EmptyPhase, Vec<bool>) {
    let mut phase = start_empty(o);
    let mut outcomes = Vec::new();
    for e in events {
        if let Some(ok) = settles(phase, *e) {
            outcomes.push(ok);
        }
        phase = next_empty_phase(o, phase, *e);
    }
    (phase, outcomes)
}

#[test]
fn empty_needs_consent() {
    let o = options(None, false);
    let done = |end| EmptyPhase::Done(end);
    assert!(start_empty(&o) == EmptyPhase::CheckTerminal);
    assert!(run_empty(&o, &[EmptyEvent::No]).0 == done(EmptyEnd::Refused));
    assert!(run_empty(&o, &[EmptyEvent::Yes]).0 == EmptyPhase::Ask);
    assert!(run_empty(&o, &[EmptyEvent::Yes, EmptyEvent::Unreadable]).0 == done(EmptyEnd::Unanswered));
    assert!(run_empty(&o, &[EmptyEvent::Yes, EmptyEvent::No]).0 == done(EmptyEnd::Cancelled));
    assert!(run_empty(&o, &[EmptyEvent::Yes, EmptyEvent::Yes]).0 == EmptyPhase::ListTrash);
    assert!(start_empty(&options(None, true)) == EmptyPhase::ListTrash);
    assert!(start_empty(&options(Some(1), true)) == EmptyPhase::Select);
}

#[test]
fn empty_all_run() {
    let events = [
        EmptyEvent::Found(2),
        EmptyEvent::Yes,
        EmptyEvent::No,
        EmptyEvent::Found(1),
        EmptyEvent::No,
        EmptyEvent::Found(0),
    ];
    let (phase, outcomes) = run_empty(&options(None, true), &events);
    assert!(phase == EmptyPhase::Done(EmptyEnd::Finished));
    assert_eq!(outcomes, vec![true, false]);
    assert_eq!(
        said(empty_report(EmptyEnd::Finished, &outcomes)),
        failed("Removed 1 items (1 errors)\n")
    );
}

#[test]
fn empty_selective_run() {
    let events = [
        EmptyEvent::Found(2),
        // In the trash, but it cannot be removed.
        EmptyEvent::Yes,
        EmptyEvent::No,
        // Not in the trash, so only its description goes.
        EmptyEvent::No,
        EmptyEvent::Yes,
        EmptyEvent::Found(1),
        EmptyEvent::Yes,
    ];
    let o = options(Some(60), true);
    let (phase, outcomes) = run_empty(&o, &events);
    assert!(phase == EmptyPhase::Done(EmptyEnd::Finished));
    assert_eq!(outcomes, vec![false, true]);
    // Nothing else in the trash is ever looked at.
    for n in 0..events.len() {
        let p = run_empty(&o, &events[..n]).0;
        assert!(!matches!(p, EmptyPhase::ListTrash | EmptyPhase::RemoveOne { .. }));
        assert!(!matches!(p, EmptyPhase::ListInfo | EmptyPhase::ClearOne { .. }));
    }
}

#[test]
fn empty_twice() {
    let none = EmptyEvent::Found(0);
    let o = options(None, true);
    let (phase, outcomes) = run_empty(&o, &[none, none, none]);
    assert!(phase == EmptyPhase::Done(EmptyEnd::Finished));
    assert!(outcomes.is_empty());
    assert_eq!(said(empty_report(EmptyEnd::Finished, &outcomes)), printed("Removed 0 items\n"));
}

#[test]
fn empty_reports() {
    assert_eq!(said(empty_report(EmptyEnd::Finished, &[true, true])), printed("Removed 2 items\n"));
    assert_eq!(said(empty_report(EmptyEnd::Finished, &[])), printed("Removed 0 items\n"));
    assert_eq!(
        said(empty_report(EmptyEnd::Refused, &[])),
        failed("trash empty: refusing to empty trash without --yes (not a TTY)\n")
    );
    assert_eq!(said(empty_report(EmptyEnd::Cancelled, &[])), failed("Cancelled.\n"));
    assert_eq!(said(empty_report(EmptyEnd::Unanswered, &[])), failed(""));
    assert_eq!(removal_failure("/t/a", "no"), "trash empty: failed to remove /t/a: no");
}

#[test]
fn what_empty_leaves() {
    assert!(is_emptied("a") && is_emptied(".DS_Store"));
    assert!(!is_emptied(".trash-metadata"));
    assert!(is_orphan("a.trashinfo", false));
    assert!(!is_orphan("a.trashinfo", true));
    assert!(!is_orphan("a.txt", false));
}

#[test]
fn places_that_empty_takes() {
    let names = strings(&["a", ".trash-metadata", ".DS_Store", "b"]);
    assert_eq!(emptied_places(&names), vec![0, 2, 3]);
    assert!(emptied_places(&strings(&[".trash-metadata"])).is_empty());
    let infos = strings(&["a.trashinfo", "b.trashinfo", "c.txt", "d.trashinfo"]);
    assert_eq!(orphan_places(&infos, &[false, true, false, false]), vec![0, 3]);
    assert!(orphan_places(&infos, &[true, true, true, true]).is_empty());
    assert!(orphan_places(&[], &[]).is_empty());
}

#[test]
fn descriptions_and_orphans_are_visited_once() {
    let o = options(None, true);
    let events = [
        EmptyEvent::Found(0),
        EmptyEvent::Found(2),
        EmptyEvent::Yes,
        EmptyEvent::No,
        EmptyEvent::Found(3),
        EmptyEvent::Yes,
        EmptyEvent::No,
        EmptyEvent::Yes,
    ];
    let mut cleared = Vec::new();
    let mut orphans = Vec::new();
    let mut phase = start_empty(&o);
    for e in &events {
        match phase {
            EmptyPhase::ClearOne { place, .. } => cleared.push(place),
            EmptyPhase::RemoveOrphan { place, .. } => orphans.push(place),
            _ => {}
        }
        phase = next_empty_phase(&o, phase, *e);
    }
    assert!(phase == EmptyPhase::Done(EmptyEnd::Finished));
    assert_eq!(cleared, vec![0, 1]);
    assert_eq!(orphans, vec![0, 1, 2]);
}

#[test]
fn consent_leads_to_the_work() {
    for age in [None, Some(60)] {
        let asked = run_empty(&options(age, false), &[EmptyEvent::Yes, EmptyEvent::Yes]).0;
        assert!(asked == start_empty(&options(age, true)));
    }
}

// Restoring.

#[test]
fn restore_arguments() {
    let o = parse_restore_args(&strings(&["a.txt", "--to", "/x"])).ok().unwrap();
    assert_eq!(o.pattern, "a.txt");
    assert_eq!(o.to, Some("/x".to_string()));
    let o = parse_restore_args(&strings(&["--to", "-odd", "", "p"])).ok().unwrap();
    assert_eq!(o.pattern, "p");
    assert_eq!(o.to, Some("-odd".to_string()));
    let o = parse_restore_args(&strings(&["p", "--to", "a", "--to", "b"])).ok().unwrap();
    assert_eq!(o.to, Some("b".to_string()));
    let o = parse_restore_args(&strings(&["p"])).ok().unwrap();
    assert_eq!(o.to, None);
}

#[test]
fn restore_arguments_refused() {
    let message = |v: &[&str]| match parse_restore_args(&strings(v)) {
        Ok(_) => panic!("accepted"),
        Err(e) => e.message(),
    };
    assert_eq!(message(&[]), "trash restore: requires a pattern");
    assert_eq!(message(&["--to", "x"]), "trash restore: requires a pattern");
    assert_eq!(message(&[""]), "trash restore: requires a pattern");
    assert_eq!(message(&["p", "--to"]), "trash restore: --to requires a path");
    assert_eq!(message(&["-p"]), "trash restore: unknown option '-p'");
    assert_eq!(message(&["-"]), "trash restore: unknown option '-'");
    assert_eq!(message(&["p", "q"]), "trash restore: unexpected argument 'q'");
    assert!(matches!(
        parse_restore_args(&strings(&["p", "--to"])),
        Err(RestoreArgError::MissingTarget)
    ));
    assert_eq!(
        said(parse_restore_args(&[]).err().unwrap().report()),
        failed("trash restore: requires a pattern\n")
    );
}

fn trash() -> Vec<TrashEntry> {
    vec![
        entry("a.txt", "/home/me/a.txt", "2025-01-01T00:00:00", Some(1735689600), true),
        entry("a 2.txt", "/work/a.txt", "2024-01-01T00:00:00", Some(1704067200), true),
        entry("gone", "/home/me/gone", "2023-01-01T00:00:00", Some(1672531200), false),
        entry("stray", "", "", None, true),
    ]
}

#[test]
fn matches_of_a_pattern() {
    let v = trash();
    assert_eq!(find_matches(&v, "a.txt"), vec![0, 1]);
    assert_eq!(find_matches(&v, "work"), vec![1]);
    assert_eq!(find_matches(&v, "a 2"), vec![1]);
    assert_eq!(find_matches(&v, "stray"), vec![3]);
    assert!(find_matches(&v, "gone").is_empty());
    assert!(find_matches(&v, "A.TXT").is_empty());
    assert_eq!(find_matches(&v, "/"), vec![0, 1]);
}

#[test]
fn menu_of_matches() {
    let v = trash();
    assert_eq!(
        selection_menu(&v, &[0, 3]),
        "Multiple matches:\n  1: /home/me/a.txt [2025-01-01T00:00:00]\n  \
         2: stray (no original path)\nSelect [1-2]: "
    );
    assert_eq!(selection_menu(&v, &[]), "Multiple matches:\nSelect [1-0]: ");
}

#[test]
fn selections() {
    assert_eq!(parse_selection("1\n", 3), Some(0));
    assert_eq!(parse_selection(" 3 ", 3), Some(2));
    assert_eq!(parse_selection("+2", 3), Some(1));
    assert_eq!(parse_selection("002", 3), Some(1));
    for s in ["0", "4", "", "x", "-1", "1.0", "1 2", "99999999999999999999"] {
        assert_eq!(parse_selection(s, 3), None, "{:?}", s);
    }
}

#[test]
fn targets() {
    let v = trash();
    assert_eq!(restore_target(&v[0], &None), Some("/home/me/a.txt".to_string()));
    assert_eq!(restore_target(&v[0], &Some("x".to_string())), Some("x".to_string()));
    assert_eq!(restore_target(&v[3], &Some("x".to_string())), Some("x".to_string()));
    assert_eq!(restore_target(&v[3], &None), None);
}

#[test]
fn targets_that_are_refused() {
    let at = |path| entry("n", path, "", None, true);
    let to = Some("x".to_string());
    assert!(is_allowed_target(&at("/home/me/a"), &None));
    for path in ["a", "./a", "/home/../etc/a", "/home/me/.."] {
        assert!(!is_allowed_target(&at(path), &None), "{}", path);
        assert!(is_allowed_target(&at(path), &to));
    }
}

fn run_restore(events: &[RestoreEvent]) -> RestorePhase {
    let mut phase = RestorePhase::Match;
    for e in events {
        phase = next_restore_phase(phase, *e);
    }
    phase
}

#[test]
fn restore_runs() {
    let yes = RestoreEvent::Yes;
    let no = RestoreEvent::No;
    let found = |n| RestoreEvent::Found(n);
    let done = |e| RestorePhase::Done(e);
    assert!(run_restore(&[found(0)]) == done(RestoreEnd::NoMatch));
    assert!(run_restore(&[found(1)]) == RestorePhase::FindTarget { choice: 0 });
    assert!(run_restore(&[found(2), no]) == done(RestoreEnd::Ambiguous));
    assert!(run_restore(&[found(2), yes]) == RestorePhase::Choose { count: 2 });
    let asked = [found(2), yes];
    let and = |more: &[RestoreEvent]| {
        let mut v = asked.to_vec();
        v.extend_from_slice(more);
        run_restore(&v)
    };
    assert!(and(&[RestoreEvent::Unreadable]) == done(RestoreEnd::Unanswered));
    assert!(and(&[no]) == done(RestoreEnd::InvalidSelection));
    assert!(and(&[RestoreEvent::Chosen(2)]) == done(RestoreEnd::InvalidSelection));
    assert!(and(&[RestoreEvent::Chosen(1)]) == RestorePhase::FindTarget { choice: 1 });
    assert!(and(&[RestoreEvent::Chosen(1), yes]) == RestorePhase::VetTarget { choice: 1 });
    assert!(and(&[RestoreEvent::Chosen(1), yes, yes]) == RestorePhase::CheckTarget { choice: 1 });
    assert!(run_restore(&[found(1), yes, no]) == done(RestoreEnd::OddTarget));
    assert!(run_restore(&[found(1), no]) == done(RestoreEnd::NoTarget));
    assert!(run_restore(&[found(1), yes, yes, yes]) == done(RestoreEnd::TargetExists));
    assert!(run_restore(&[found(1), yes, yes, no]) == RestorePhase::CheckParent { choice: 0 });
    assert!(run_restore(&[found(1), yes, yes, no, yes]) == RestorePhase::Move { choice: 0 });
    assert!(run_restore(&[found(1), yes, yes, no, no]) == RestorePhase::CreateParent { choice: 0 });
    assert!(run_restore(&[found(1), yes, yes, no, no, no]) == done(RestoreEnd::ParentFailed));
    assert!(run_restore(&[found(1), yes, yes, no, no, yes, no]) == done(RestoreEnd::MoveFailed));
    assert!(
        run_restore(&[found(1), yes, yes, no, yes, yes]) == RestorePhase::RemoveInfo { choice: 0 }
    );
    assert!(run_restore(&[found(1), yes, yes, no, yes, yes, no]) == done(RestoreEnd::Restored));
}

#[test]
fn restore_reports() {
    let d = |needs_permission| RestoreDetails {
        pattern: "p".to_string(),
        name: "n".to_string(),
        target: "/t".to_string(),
        parent: "/q".to_string(),
        trash_path: "/trash/n".to_string(),
        reason: "why".to_string(),
        needs_permission,
    };
    let v = trash();
    let report = |end, hint| said(restore_report(end, &d(hint), &v, &[0, 3]));
    assert_eq!(report(RestoreEnd::NoMatch, false), failed("trash restore: no match for 'p'\n"));
    assert_eq!(
        report(RestoreEnd::Ambiguous, false),
        failed(
            "trash restore: multiple matches, use more specific pattern or run interactively:\n  \
             /home/me/a.txt\n  stray\n"
        )
    );
    assert_eq!(report(RestoreEnd::Unanswered, false), failed(""));
    assert_eq!(report(RestoreEnd::InvalidSelection, false), failed("Invalid selection.\n"));
    assert_eq!(
        report(RestoreEnd::NoTarget, false),
        failed("trash restore: no original path for 'n' — use --to <path>\n")
    );
    assert_eq!(
        report(RestoreEnd::OddTarget, false),
        failed("trash restore: refusing original path '/t' — use --to <path>\n")
    );
    assert_eq!(
        report(RestoreEnd::TargetExists, false),
        failed("trash restore: target already exists: /t\n")
    );
    assert_eq!(
        report(RestoreEnd::ParentFailed, false),
        failed("trash restore: cannot create /q: why\n")
    );
    assert_eq!(
        report(RestoreEnd::MoveFailed, false),
        failed("trash restore: failed to move /trash/n -> /t: why\n")
    );
    assert_eq!(
        report(RestoreEnd::MoveFailed, true),
        failed(
            "trash restore: failed to move /trash/n -> /t: why\n\
             hint: grant Full Disk Access to your terminal app in\n  \
             System Settings > Privacy & Security > Full Disk Access\n"
        )
    );
    assert_eq!(report(RestoreEnd::Restored, false), printed("Restored: n -> /t\n"));
}

// Moving paths to the trash.

fn read(v: &[&str]) -> Result<DeleteOptions, DeleteArgError> {
    parse_delete_args(&strings(v))
}

fn flags(dry_run: bool, verbose: bool, force: bool) -> Flags {
    Flags { dry_run, verbose, force }
}

#[test]
fn delete_arguments() {
    let o = read(&["-n", "a", "--verbose", "b"]).ok().unwrap();
    assert!(o.flags == flags(true, true, false));
    assert_eq!(o.paths, strings(&["a", "b"]));
    let o = read(&["-nf", "build/", "dist/"]).ok().unwrap();
    assert!(o.flags == flags(true, false, true));
    assert_eq!(o.paths, strings(&["build/", "dist/"]));
    let o = read(&["--dry-run", "--force", "-v", "x"]).ok().unwrap();
    assert!(o.flags == flags(true, true, true));
}

#[test]
fn paths_behind_two_dashes() {
    let o = read(&["--", "-weird-filename"]).ok().unwrap();
    assert_eq!(o.paths, strings(&["-weird-filename"]));
    let o = read(&["a", "--", "-n", "--", "b"]).ok().unwrap();
    assert!(o.flags == flags(false, false, false));
    assert_eq!(o.paths, strings(&["a", "-n", "--", "b"]));
    assert!(matches!(read(&["--"]), Err(DeleteArgError::NoPaths)));
}

#[test]
fn dashes_that_are_paths() {
    let o = read(&["-", "--recursive", "---", ""]).ok().unwrap();
    assert_eq!(o.paths, strings(&["-", "--recursive", "---", ""]));
}

#[test]
fn ignored_flags() {
    for w in ["-r", "-R", "-rf"] {
        let o = read(&[w, "x"]).ok().unwrap();
        assert!(o.flags == flags(false, false, false));
        assert_eq!(o.paths, strings(&["x"]));
    }
    // Other orders of the same letters do ask for force.
    assert!(read(&["-fr", "x"]).ok().unwrap().flags == flags(false, false, true));
    assert!(read(&["-Rf", "x"]).ok().unwrap().flags == flags(false, false, true));
    assert!(read(&["-r", "-f", "x"]).ok().unwrap().flags == flags(false, false, true));
}

#[test]
fn letters_may_share_a_dash() {
    let one = read(&["-nvfrR", "x"]).ok().unwrap();
    let many = read(&["-n", "-v", "-f", "-r", "-R", "x"]).ok().unwrap();
    assert!(one.flags == many.flags);
    assert!(one.flags == flags(true, true, true));
}

#[test]
fn delete_arguments_refused() {
    let message = |v: &[&str]| match read(v) {
        Ok(_) => panic!("accepted"),
        Err(e) => e.message(),
    };
    assert_eq!(message(&["-x", "a"]), "trash: unknown flag '-x'");
    assert_eq!(message(&["-né", "a"]), "trash: unknown flag '-é'");
    assert_eq!(message(&["-n-", "a"]), "trash: unknown flag '--'");
    assert_eq!(message(&["-n"]), "trash: no paths specified");
    assert_eq!(message(&[]), "trash: no paths specified");
    assert!(matches!(read(&["-nx", "-y"]), Err(DeleteArgError::UnknownFlag('x'))));
    assert_eq!(said(read(&[]).err().unwrap().report()), failed("trash: no paths specified\n"));
}

fn run_delete(f: Flags, describes: bool, answers: &[bool]) -> DeletePhase {
    let mut phase = DeletePhase::Exists;
    for a in answers {
        phase = next_delete_phase(f, describes, phase, *a);
    }
    phase
}

#[test]
fn delete_runs() {
    let done = |e| DeletePhase::Done(e);
    let plain = flags(false, false, false);
    let force = flags(false, false, true);
    assert!(run_delete(plain, false, &[false]) == done(DeleteEnd::NotFound));
    assert!(run_delete(force, false, &[false]) == done(DeleteEnd::Skipped));
    assert!(run_delete(plain, false, &[true, false]) == done(DeleteEnd::Unresolved));
    assert!(run_delete(plain, false, &[true, true]) == DeletePhase::Delete);
    assert!(run_delete(plain, false, &[true, true, false]) == done(DeleteEnd::Failed));
    assert!(run_delete(plain, false, &[true, true, true]) == done(DeleteEnd::Trashed));
    assert!(run_delete(plain, true, &[true, true, true]) == DeletePhase::Trace);
    assert!(run_delete(plain, true, &[true, true, true, false]) == done(DeleteEnd::NotTraced));
    assert!(run_delete(plain, true, &[true, true, true, true]) == DeletePhase::Describe);
    assert!(
        run_delete(plain, true, &[true, true, true, true, false]) == done(DeleteEnd::NotDescribed)
    );
    assert!(run_delete(plain, true, &[true, true, true, true, true]) == done(DeleteEnd::Trashed));
}

#[test]
fn dry_run_deletes_nothing() {
    for n in 0..32u32 {
        let answers: Vec<bool> = (0..5).map(|i| n >> i & 1 == 1).collect();
        for k in 0..=5 {
            let p = run_delete(flags(true, false, n % 2 == 0), true, &answers[..k]);
            assert!(p != DeletePhase::Delete && p != DeletePhase::Describe);
        }
    }
    let dry = flags(true, false, false);
    assert!(run_delete(dry, true, &[true, true]) == DeletePhase::IsDir);
    assert!(
        run_delete(dry, true, &[true, true, true]) == DeletePhase::Done(DeleteEnd::WouldTrashDir)
    );
    assert!(
        run_delete(dry, true, &[true, true, false]) == DeletePhase::Done(DeleteEnd::WouldTrashFile)
    );
}

#[test]
fn delete_reports() {
    let d = DeleteDetails {
        path: "p".to_string(),
        target: "/t".to_string(),
        name: "n".to_string(),
        reason: "why".to_string(),
    };
    let quiet = |end| said(delete_report(end, flags(false, false, false), &d));
    let loud = |end| said(delete_report(end, flags(false, true, false), &d));
    assert_eq!(quiet(DeleteEnd::Skipped), printed(""));
    assert_eq!(
        loud(DeleteEnd::Skipped),
        (String::new(), "trash: skipping (not found): p\n".to_string(), 0)
    );
    assert_eq!(quiet(DeleteEnd::NotFound), failed("trash: not found: p\n"));
    assert_eq!(quiet(DeleteEnd::Unresolved), failed("trash: cannot resolve p: why\n"));
    assert_eq!(quiet(DeleteEnd::WouldTrashDir), printed("would trash dir : /t\n"));
    assert_eq!(quiet(DeleteEnd::WouldTrashFile), printed("would trash file: /t\n"));
    assert_eq!(quiet(DeleteEnd::Trashed), printed(""));
    assert_eq!(loud(DeleteEnd::Trashed), printed("trashed: /t\n"));
    assert_eq!(quiet(DeleteEnd::Failed), failed("trash: failed to trash /t: why\n"));
    assert_eq!(quiet(DeleteEnd::NotTraced), printed(""));
    assert_eq!(
        loud(DeleteEnd::NotTraced),
        (
            "trashed: /t\n".to_string(),
            "trash: warning: could not find trash entry for /t\n".to_string(),
            0
        )
    );
    assert_eq!(quiet(DeleteEnd::NotDescribed), printed(""));
    assert_eq!(
        loud(DeleteEnd::NotDescribed),
        (
            "trashed: /t\n".to_string(),
            "trash: warning: failed to write metadata for n: why\n".to_string(),
            0
        )
    );
}

#[test]
fn exit_status_tells_of_errors() {
    assert_eq!(delete_code(&[]), 0);
    assert_eq!(delete_code(&[DeleteEnd::Trashed, DeleteEnd::Skipped, DeleteEnd::NotTraced]), 0);
    assert_eq!(delete_code(&[DeleteEnd::Trashed, DeleteEnd::NotFound]), 1);
    assert_eq!(delete_code(&[DeleteEnd::Failed, DeleteEnd::Trashed]), 1);
    assert!(fails(DeleteEnd::Unresolved) && !fails(DeleteEnd::NotDescribed));
}

// What the program is asked to do.

#[test]
fn invocations() {
    let asked = |v: &[&str]| read_invocation(&strings(v));
    assert!(asked(&[]) == Invocation::Nothing);
    assert!(asked(&["-h"]) == Invocation::Help);
    assert!(asked(&["--help", "x"]) == Invocation::Help);
    assert!(asked(&["-V"]) == Invocation::Version);
    assert!(asked(&["--version"]) == Invocation::Version);
    assert!(asked(&["list", "--json"]) == Invocation::Command(Command::List));
    assert!(asked(&["size"]) == Invocation::Command(Command::Size));
    assert!(asked(&["empty"]) == Invocation::Command(Command::Empty));
    assert!(asked(&["restore"]) == Invocation::Command(Command::Restore));
    assert!(asked(&["./list"]) == Invocation::Delete);
    assert!(asked(&["/list"]) == Invocation::Delete);
    assert!(asked(&["--", "list"]) == Invocation::Delete);
    assert!(asked(&["x", "list"]) == Invocation::Delete);
    assert!(asked(&["-v", "--help"]) == Invocation::Delete);
    assert!(asked(&["List"]) == Invocation::Delete);
    assert!(asked(&[""]) == Invocation::Delete);
}

#[test]
fn help_and_version() {
    let help = print_help(true);
    assert_eq!(
        help.out,
        "trash — move files and directories to the system trash

USAGE:
    trash [OPTIONS] <path>...
    trash list [--older <age>] [--project] [--json]
    trash size [--bytes]
    trash empty [--older <age>] [--yes]
    trash restore <pattern> [--to <path>]

OPTIONS:
    -n, --dry-run   Show what would be trashed without doing it
    -v, --verbose   Print each path as it is trashed
    -f, --force     Ignore missing files (no error)
    -r              Accepted for rm compatibility (directories always work)
    -h, --help      Show this help
    -V, --version   Show version

SUBCOMMANDS:
    list            List items in trash
      --older <age>   Filter to items older than age (e.g. 7d, 2w, 1M)
      --project       Only items originally under current directory
      --json          Output as JSON array

    size            Show total trash size
      --bytes         Show exact byte count

    empty           Empty the trash
      --older <age>   Only remove items older than age
      --yes, -y       Skip confirmation prompt

    restore         Restore item from trash
      <pattern>       Match against original path or trash filename
      --to <path>     Restore to specific path (required if no metadata)

AGE UNITS:
    s=seconds  m=minutes  h=hours  d=days  w=weeks  M=months  y=years

EXAMPLES:
    trash file.txt                  # trash a file
    trash -v src/old/ tmp/*.log     # trash dir + glob, verbose
    trash -nf build/ dist/          # dry-run, skip missing
    trash -- -weird-filename        # path starting with dash
    trash list                      # show trashed items
    trash list --older 30d          # items older than 30 days
    trash size                      # human-readable trash size
    trash empty --older 7d --yes    # delete items older than 7 days
    trash restore myfile.rs         # restore matching item
    trash restore src/ --to ./old/  # restore to specific location

PLATFORMS:
    macOS    Finder Trash (with metadata tracking)
    Windows  Recycle Bin (subcommands not yet supported)
    Linux    freedesktop.org trash spec (~/.local/share/Trash)

https://github.com/quantum-encoding/ai-trash\n"
    );
    assert_eq!(help.code, 0);
    assert_eq!(help.err, "");
    let usage = print_help(false);
    assert_eq!(usage.out, help.out);
    assert_eq!(usage.code, 1);
    assert_eq!(said(version_report("0.3.0")), printed("trash 0.3.0\n"));
}

#[test]
fn commands_without_directories() {
    assert_eq!(
        said(unsupported_report(Command::List)),
        failed("trash list: subcommand not yet supported on Windows\n")
    );
    assert_eq!(
        said(unsupported_report(Command::Restore)),
        failed("trash restore: subcommand not yet supported on Windows\n")
    );
    assert_eq!(
        said(homeless_report()),
        failed("trash: HOME is not set to an absolute path\n")
    );
    assert_eq!(Command::Size.name(), "size");
    assert_eq!(Command::Empty.name(), "empty");
}

// Removing.

fn run_remove(events: &[RemoveEvent]) -> RemovePhase {
    let mut phase = RemovePhase::Name;
    for e in events {
        phase = next_remove_phase(phase, *e);
    }
    phase
}

#[test]
fn removal_runs() {
    let yes = RemoveEvent::Yes;
    let no = RemoveEvent::No;
    let gone = RemovePhase::Done { gone: true };
    let kept = RemovePhase::Done { gone: false };
    let seen = |is_dir, is_symlink| RemoveEvent::Seen { is_dir, is_symlink };
    assert!(run_remove(&[no]) == kept);
    assert!(run_remove(&[yes]) == RemovePhase::Unlink);
    assert!(run_remove(&[yes, yes]) == gone);
    assert!(run_remove(&[yes, no, yes]) == gone);
    assert!(run_remove(&[yes, no, no]) == RemovePhase::Look);
    assert!(run_remove(&[yes, no, no, seen(false, false)]) == kept);
    assert!(run_remove(&[yes, no, no, seen(true, false)]) == RemovePhase::RemoveChildren);
    for any in [no, yes] {
        let emptied = [yes, no, no, seen(true, false), any];
        assert!(run_remove(&emptied) == RemovePhase::RemoveEmptied);
    }
    assert!(next_remove_phase(RemovePhase::RemoveEmptied, yes) == gone);
    assert!(next_remove_phase(RemovePhase::RemoveEmptied, no) == kept);
}

#[test]
fn removal_follows_no_link() {
    let yes = RemoveEvent::Yes;
    let no = RemoveEvent::No;
    for is_dir in [false, true] {
        let link = RemoveEvent::Seen { is_dir, is_symlink: true };
        assert!(run_remove(&[yes, no, no, link]) == RemovePhase::Done { gone: false });
        assert!(!is_descended(is_dir, true));
    }
    assert!(is_descended(true, false));
}

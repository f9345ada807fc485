use trash_cli::entries::{collect_entries, find_new_trash_entry, sort_newest_first, InfoFile};
use trash_cli::info::{now_iso, read_trash_info, write_trash_info, TrashEntry};
use trash_cli::list::{
    cmd_list, list_report, older, parse_list_args, ListArgError, ListOptions,
};
use trash_cli::paths::{
    climbs, info_dir, info_file_name, is_info_name, knows_home, path_stem_of, stands_under, path_to_cstring, trash_dir, CPathError,
    Platform,
};

fn strings(v: &[&str]) -> Vec<String> {
    v.iter().map(|s| s.to_string()).collect()
}

fn entry(name: &str, path: &str, date: &str, time: Option<u64>, exists: bool) -> TrashEntry {
    TrashEntry {
        trash_filename: name.to_string(),
        original_path: path.to_string(),
        deletion_date: date.to_string(),
        deletion_time: time,
        exists_in_trash: exists,
    }
}

fn names(v: &[TrashEntry]) -> Vec<&str> {
    v.iter().map(|e| e.trash_filename.as_str()).collect()
}

#[test]
fn directories_of_the_trash() {
    let home = || Some("/home/me".to_string());
    assert_eq!(trash_dir(Platform::Linux, home()), "/home/me/.local/share/Trash/files");
    assert_eq!(info_dir(Platform::Linux, home()), "/home/me/.local/share/Trash/info");
    assert_eq!(trash_dir(Platform::MacOs, home()), "/home/me/.Trash");
    assert_eq!(info_dir(Platform::MacOs, home()), "/home/me/.Trash/.trash-metadata");
    assert_eq!(trash_dir(Platform::Linux, None), "/tmp/.local/share/Trash/files");
    assert_eq!(trash_dir(Platform::MacOs, Some(String::new())), ".Trash");
    assert_eq!(trash_dir(Platform::MacOs, Some("/".to_string())), "/.Trash");
}

#[test]
fn stems_agree_with_std() {
    for p in [
        "", "/", "a", "a.txt", "a.tar.gz", ".hidden", ".hidden.txt", "a.", "..", ".", "...", "a/b.c",
        "a/b.c/", "a/b.c/.", "a/..", "/x.trashinfo", "x.trashinfo//", ".trashinfo", "..trashinfo",
        "é.ü", "a b.c d", "./x.y", "a/./",
    ] {
        let path = std::path::Path::new(p);
        let stem = path.file_stem().unwrap_or_default().to_string_lossy().to_string();
        assert_eq!(path_stem_of(p), stem, "{:?}", p);
        let is_info = path.extension().and_then(|e| e.to_str()) == Some("trashinfo");
        assert_eq!(is_info_name(p), is_info, "{:?}", p);
    }
}

#[test]
fn info_name_names_its_item() {
    for item in ["a", "a.txt", ".hidden", "x y", "a.trashinfo", ".."] {
        let n = info_file_name(item);
        assert_eq!(n, format!("{}.trashinfo", item));
        assert!(is_info_name(&n));
        assert_eq!(path_stem_of(&n), item);
    }
}

#[test]
fn paths_for_the_c_library() {
    assert!(path_to_cstring(Some("/a é")) == Ok("/a é\0".as_bytes().to_vec()));
    assert!(path_to_cstring(Some("")) == Ok(vec![0]));
    assert!(path_to_cstring(Some("a\0b")) == Err(CPathError::ContainsNull));
    assert!(path_to_cstring(None) == Err(CPathError::Invalid));
    assert_eq!(CPathError::ContainsNull.message(), "path contains null");
    assert_eq!(CPathError::Invalid.message(), "invalid path");
}

#[test]
fn info_is_read() {
    let text = "[Trash Info]\nPath=/home/me/a%20b.txt\nDeletionDate=2025-01-01T00:00:00\n";
    let e = read_trash_info("a b.txt.trashinfo", text, true).unwrap();
    assert_eq!(e.trash_filename, "a b.txt");
    assert_eq!(e.original_path, "/home/me/a b.txt");
    assert_eq!(e.deletion_date, "2025-01-01T00:00:00");
    assert_eq!(e.deletion_time, Some(1735689600));
    assert!(e.exists_in_trash);
}

#[test]
fn last_lines_of_info_count() {
    let text = "Path=/one\r\nPath=/two\r\nDeletionDate=x\r\nDeletionDate=\r\n Path=/three\n";
    let e = read_trash_info("n.trashinfo", text, false).unwrap();
    assert_eq!(e.original_path, "/two");
    assert_eq!(e.deletion_date, "");
    assert_eq!(e.deletion_time, None);
    assert!(!e.exists_in_trash);
}

#[test]
fn info_without_path_is_none() {
    assert!(read_trash_info("n.trashinfo", "", true).is_none());
    assert!(read_trash_info("n.trashinfo", "DeletionDate=2025-01-01T00:00:00\n", true).is_none());
    assert!(read_trash_info("n.trashinfo", "Path=\n", true).is_none());
    assert!(read_trash_info("n.trashinfo", "Path=/x\nPath=\n", true).is_none());
    assert!(read_trash_info("n.trashinfo", "path=/x\n", true).is_none());
}

#[test]
fn info_whose_date_cuts_a_character() {
    let text = "Path=/x\nDeletionDate=202é-01-01T00:00:00\n";
    let e = read_trash_info("n.trashinfo", text, true).unwrap();
    assert_eq!(e.original_path, "/x");
    assert_eq!(e.deletion_date, "202é-01-01T00:00:00");
    assert_eq!(e.deletion_time, None);
}

#[test]
fn info_with_a_path_that_is_not_utf8() {
    let e = read_trash_info("n.trashinfo", "Path=%FF\n", true).unwrap();
    assert_eq!(e.original_path, "\u{fffd}");
}

#[test]
fn written_info_is_read_back() {
    let now = now_iso(Some("2025-06-30T10:20:30\n".as_bytes()), 0);
    assert_eq!(now, "2025-06-30T10:20:30");
    let text = write_trash_info("/home/me/é file", &now);
    assert_eq!(text, "[Trash Info]\nPath=/home/me/é file\nDeletionDate=2025-06-30T10:20:30\n");
    let e = read_trash_info(&info_file_name("é file"), &text, true).unwrap();
    assert_eq!(e.trash_filename, "é file");
    assert_eq!(e.original_path, "/home/me/é file");
    assert_eq!(e.deletion_date, now);
    assert_eq!(e.deletion_time, Some(1751278830));
}

#[test]
fn every_written_path_comes_back() {
    for path in ["/tmp/a%41.txt", "/tmp/100%", "/a\nPath=/b", "/c\r", "relative", "/é \u{10000}"] {
        for now in ["2025-06-30T10:20:30", "x\nPath=/evil", "x\r\r\nPath=", "", "\n"] {
            let text = write_trash_info(path, now);
            let e = read_trash_info("n.trashinfo", &text, true).unwrap();
            assert_eq!(e.original_path, path);
            assert_eq!(e.deletion_date, now.lines().next().unwrap_or("").trim_end_matches('\r'));
        }
    }
    assert_eq!(
        write_trash_info("/tmp/a%41.txt", "x"),
        "[Trash Info]\nPath=/tmp/a%2541.txt\nDeletionDate=x\n"
    );
}

#[test]
fn time_without_a_clock_command() {
    assert_eq!(now_iso(None, 1735689600), "epoch+1735689600");
    assert_eq!(now_iso(Some(b"  x "), 5), "x");
    assert_eq!(now_iso(Some(b"\xff\n"), 5), "\u{fffd}");
}

fn info(name: &str, content: Option<&str>, exists: bool) -> InfoFile {
    InfoFile {
        name: name.to_string(),
        content: content.map(|s| s.to_string()),
        exists_in_trash: exists,
    }
}

#[test]
fn items_are_collected() {
    let files = [
        info("old.trashinfo", Some("Path=/p/old\nDeletionDate=2020-01-01T00:00:00\n"), true),
        info("gone.trashinfo", Some("Path=/p/gone\nDeletionDate=2024-01-01T00:00:00\n"), false),
        info("bad.trashinfo", Some("nothing"), true),
        info("unreadable.trashinfo", None, true),
        info("other.txt", Some("Path=/p/other\n"), true),
        info("new.trashinfo", Some("Path=/p/new\nDeletionDate=2025-01-01T00:00:00\n"), true),
    ];
    let dir = strings(&["old", "bad", ".DS_Store", "new", ".trash-metadata", "stray", "stray"]);
    let v = collect_entries(&files, &dir);
    assert_eq!(names(&v), vec!["new", "gone", "old", "bad", "stray"]);
    assert_eq!(v[3].original_path, "");
    assert_eq!(v[3].deletion_date, "");
    assert_eq!(v[3].deletion_time, None);
    assert!(v[3].exists_in_trash);
    assert!(!v[1].exists_in_trash);
}

#[test]
fn odd_date_spoils_no_other_item() {
    let odd = "Path=/x\nDeletionDate=żẐẑẓ-01-01T00:00:00\n";
    let good = "Path=/y\nDeletionDate=2025-01-01T00:00:00\n";
    let files = [info("x.trashinfo", Some(odd), true), info("y.trashinfo", Some(good), true)];
    let v = collect_entries(&files, &[]);
    assert_eq!(names(&v), vec!["x", "y"]);
    assert_eq!(v[0].deletion_time, None);
    assert_eq!(v[1].deletion_time, Some(1735689600));
}

#[test]
fn sorting_is_stable_and_newest_first() {
    let dates = ["b", "", "a", "b", "c", "", "a", "ä", "B"];
    let mut want: Vec<(String, String)> = Vec::new();
    let mut v = Vec::new();
    for (i, d) in dates.iter().enumerate() {
        want.push((i.to_string(), d.to_string()));
        v.push(entry(&i.to_string(), "", d, None, true));
    }
    want.sort_by(|a, b| b.1.cmp(&a.1));
    let out = sort_newest_first(v);
    let got: Vec<(String, String)> = out
        .iter()
        .map(|e| (e.trash_filename.clone(), e.deletion_date.clone()))
        .collect();
    assert_eq!(got, want);
    assert_eq!(out[7].deletion_date, "");
    assert_eq!(out[8].deletion_date, "");
}

#[test]
fn new_item_is_found() {
    let before = strings(&["a.txt", "b"]);
    let after = strings(&["zz", "a.txt", "a 2.txt", "b"]);
    let none = strings(&[]);
    // Under its own name.
    assert_eq!(
        find_new_trash_entry(&before, "c", true, &none, &none),
        Some("c".to_string())
    );
    // Under a name that holds its stem.
    assert_eq!(
        find_new_trash_entry(&before, "a.txt", true, &after, &after),
        Some("a 2.txt".to_string())
    );
    // Under any new name.
    assert_eq!(
        find_new_trash_entry(&before, "q.txt", false, &after, &after),
        Some("zz".to_string())
    );
    // Not at all.
    let hidden = strings(&["a.txt", ".DS_Store", ".trash-metadata"]);
    assert_eq!(find_new_trash_entry(&before, "a.txt", true, &hidden, &hidden), None);
    // The second look may show more than the first.
    assert_eq!(
        find_new_trash_entry(&before, "a.txt", true, &none, &after),
        Some("zz".to_string())
    );
}

#[test]
fn list_arguments() {
    let o = parse_list_args(&strings(&["--older", "7d", "--project", "--json"])).ok().unwrap();
    assert_eq!(o.older_than, Some(604800));
    assert!(o.project && o.json);
    let o = parse_list_args(&[]).ok().unwrap();
    assert_eq!(o.older_than, None);
    assert!(!o.project && !o.json);
    let o = parse_list_args(&strings(&["--older", "7d", "--older", "1h"])).ok().unwrap();
    assert_eq!(o.older_than, Some(3600));
}

#[test]
fn list_arguments_refused() {
    let message = |v: &[&str]| match parse_list_args(&strings(v)) {
        Ok(_) => panic!("accepted"),
        Err(e) => e.message(),
    };
    assert_eq!(message(&["--older"]), "trash list: --older requires an age (e.g. 7d)");
    assert_eq!(message(&["--older", "x"]), "trash list: invalid age 'x'");
    assert_eq!(message(&["--json", "-x"]), "trash list: unknown option '-x'");
    assert!(matches!(
        parse_list_args(&strings(&["--bad", "--older"])),
        Err(ListArgError::UnknownOption(_))
    ));
    assert_eq!(message(&["--older", "584942417356y"]), "trash list: invalid age '584942417356y'");
    // What is refused before is refused first.
    assert_eq!(message(&["--bad", "--older"]), "trash list: unknown option '--bad'");
    let r = parse_list_args(&strings(&["-x"])).err().unwrap().report();
    assert_eq!(r.err, "trash list: unknown option '-x'\n");
    assert_eq!((r.out.as_str(), r.code), ("", 1));
}

fn options(older_than: Option<u64>, project: bool, json: bool) -> ListOptions {
    ListOptions { older_than, project, json }
}

#[test]
fn list_as_table() {
    let v = [
        entry("a", "/p/a", "2025-01-01T00:00:00", Some(1735689600), true),
        entry("b", "/q/b", "yesterday", None, false),
        entry("c", "", "", None, true),
    ];
    assert_eq!(
        cmd_list(&v, &options(None, false, false), 0, "/p"),
        "2025-01-01T00:00:00  /p/a\n\
         yesterday            /q/b [missing]\n\
         unknown       c (trashed externally)\n"
    );
    assert_eq!(
        cmd_list(&v, &options(None, true, false), 0, "/p"),
        "2025-01-01T00:00:00  /p/a\n"
    );
    assert_eq!(cmd_list(&v, &options(None, true, false), 0, "/r"), "Trash is empty.\n");
    assert_eq!(cmd_list(&[], &options(None, false, false), 0, ""), "Trash is empty.\n");
}

#[test]
fn date_column_is_padded_or_truncated() {
    for d in ["é", "2025-01-01T00:00:00", "2026-03-31T14:30:22.123Z", "x y", "2026-03-31T14:30:2é4"] {
        let v = [entry("a", "/home/u/a", d, None, true)];
        assert_eq!(
            cmd_list(&v, &options(None, false, false), 0, ""),
            format!("{:<19.19}  /home/u/a\n", d)
        );
    }
    let v = [entry("a", "/home/u/a", "2026-03-31T14:30:22.123Z", None, true)];
    assert_eq!(
        cmd_list(&v, &options(None, false, false), 0, ""),
        "2026-03-31T14:30:22  /home/u/a\n"
    );
}

#[test]
fn project_shows_what_is_under_the_directory() {
    let v = [
        entry("a", "/home/u/proj/a.txt", "1", None, true),
        entry("b", "/home/u/project2/a.txt", "1", None, true),
        entry("c", "/home/u/proj", "1", None, true),
        entry("d", "", "", None, true),
        entry("e", "/home/u", "1", None, true),
    ];
    let out = cmd_list(&v, &options(None, true, false), 0, "/home/u/proj");
    assert!(out.contains("/home/u/proj/a.txt\n") && out.contains("/home/u/proj\n"));
    assert_eq!(out.lines().count(), 2);
    let out = cmd_list(&v, &options(None, true, false), 0, "/");
    assert_eq!(out.lines().count(), 4);
    for (p, d) in [("/a/b", "/a"), ("/ab", "/a"), ("/a", "/a"), ("/a/", "/a"), ("/", "/"), ("/x", "/")] {
        assert_eq!(stands_under(p, d), std::path::Path::new(p).starts_with(d), "{} {}", p, d);
    }
}

#[test]
fn list_never_fails() {
    let r = list_report(&[], &options(None, false, false), 0, "");
    assert_eq!((r.out.as_str(), r.err.as_str(), r.code), ("Trash is empty.\n", "", 0));
}

#[test]
fn home_directories() {
    assert!(knows_home(&Some("/home/me".to_string())));
    assert!(!knows_home(&Some("home".to_string())));
    assert!(!knows_home(&Some(String::new())));
    assert!(!knows_home(&None));
}

#[test]
fn paths_that_go_up() {
    for p in ["..", "/..", "a/..", "/a/../b", "../a", "/a/..//"] {
        assert!(climbs(p), "{}", p);
    }
    for p in ["", "/", ".", "/a/b", "/a..", "/..a/b", "...", "/a/.../b"] {
        assert!(!climbs(p), "{}", p);
    }
}

#[test]
fn list_as_json() {
    let v = [
        entry("a\"", "/p/a", "2025-01-01T00:00:00", Some(1735689600), true),
        entry("c", "", "", None, false),
    ];
    assert_eq!(
        cmd_list(&v, &options(None, false, true), 0, ""),
        "[\n  {\"name\":\"a\\\"\",\"path\":\"/p/a\",\"date\":\"2025-01-01T00:00:00\",\"in_trash\":true},\
         \n  {\"name\":\"c\",\"path\":\"(trashed externally)\",\"date\":\"\",\"in_trash\":false}\n]\n"
    );
    assert_eq!(cmd_list(&[], &options(None, false, true), 0, ""), "[\n]\n");
}

#[test]
fn list_by_age() {
    let now = 1_000_000i64;
    let v = [
        entry("young", "/y", "3", Some(999_950), true),
        entry("even", "/e", "2", Some(999_900), true),
        entry("old", "/o", "1", Some(5), true),
        entry("future", "/f", "4", Some(2_000_000), true),
        entry("undated", "/u", "", None, true),
    ];
    let shown = |age| cmd_list(&v, &options(Some(age), false, false), now, "");
    let out = shown(100);
    assert!(!out.contains("/y") && !out.contains("/f"));
    for p in ["/e", "/o", "/u"] {
        assert!(out.contains(p), "{}", p);
    }
    // Asking for a greater age shows no more.
    assert!(!shown(101).contains("/e"));
    assert!(shown(0).contains("/y"));
    assert!(!shown(0).contains("/f"));
    assert!(!older(&v[0], 51, now));
    assert!(older(&v[0], 50, now));
    assert!(!older(&v[3], 0, now));
    assert!(older(&v[4], 50, now));
}

#[test]
fn list_before_1970() {
    let v = entry("x", "/x", "1", Some(0), true);
    assert!(!older(&v, 0, -1));
    assert!(older(&v, 0, 0));
    assert!(!older(&v, 10, 0));
}

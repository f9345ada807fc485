//! Paths as texts: where the trash is, and what file names are made of.

use crate::text;
use vstd::prelude::*;
use vstd::utf8::*;

verus! {

/// The systems whose trash is a pair of directories.
#[derive(Clone, Copy, PartialEq, Eq, Structural)]
pub enum Platform {
    MacOs,
    Linux,
}

/// A relative path appended to a directory, with one slash between them.
pub open spec fn joined(dir: Seq<char>, rest: Seq<char>) -> Seq<char> {
    if dir.len() == 0 || dir.last() == '/' {
        dir + rest
    } else {
        dir + "/"@ + rest
    }
}

/// The path is that of a directory or of something in it, component by
/// component.
pub open spec fn is_under(p: Seq<char>, dir: Seq<char>) -> bool {
    p == dir || joined(dir, seq![]).is_prefix_of(p)
}

/// The home directory, or `/tmp` where none is known.
pub open spec fn home_or_tmp(home: Option<String>) -> Seq<char> {
    match home {
        Some(h) => h@,
        None => "/tmp"@,
    }
}

/// A home directory is known, and by an absolute path.
pub open spec fn has_home(home: Option<String>) -> bool {
    home matches Some(h) && is_absolute(h@)
}

/// The path is absolute.
pub open spec fn is_absolute(p: Seq<char>) -> bool {
    p.len() > 0 && p[0] == '/'
}

/// The path goes up: one of its components is `..`.
pub open spec fn goes_up(p: Seq<char>) -> bool
    decreases p.len(),
{
    let cut = last_place(p, '/');
    let piece = p.skip(cut + 1);
    piece == seq!['.', '.'] || (0 <= cut < p.len() && goes_up(p.take(cut)))
}

/// The last place of `c` in `s`, or -1 where there is none.
pub open spec fn last_place(s: Seq<char>, c: char) -> int
    decreases s.len(),
{
    if s.len() == 0 {
        -1
    } else if s.last() == c {
        s.len() - 1
    } else {
        last_place(s.drop_last(), c)
    }
}

/// The last component of a path, where it is a name. Slashes at the end and
/// components `.` do not count; `..` is no name.
pub open spec fn file_name(p: Seq<char>) -> Option<Seq<char>>
    decreases p.len(),
{
    let cut = last_place(p, '/');
    let piece = p.skip(cut + 1);
    if piece.len() == 0 || piece == seq!['.'] {
        if 0 <= cut < p.len() {
            file_name(p.take(cut))
        } else {
            None
        }
    } else if piece == seq!['.', '.'] {
        None
    } else {
        Some(piece)
    }
}

/// A file name without its extension: what stands before the last dot, unless
/// that is the first character.
pub open spec fn stem(n: Seq<char>) -> Seq<char> {
    let dot = last_place(n, '.');
    if dot <= 0 {
        n
    } else {
        n.take(dot)
    }
}

/// The extension of a file name: what stands behind the last dot, unless that
/// is the first character.
pub open spec fn extension(n: Seq<char>) -> Option<Seq<char>> {
    let dot = last_place(n, '.');
    if dot <= 0 {
        None
    } else {
        Some(n.skip(dot + 1))
    }
}

/// The stem of the file that a path names; empty where it names none.
pub open spec fn path_stem(p: Seq<char>) -> Seq<char> {
    match file_name(p) {
        Some(n) => stem(n),
        None => seq![],
    }
}

/// The path names a `.trashinfo` file.
pub open spec fn names_info(p: Seq<char>) -> bool {
    file_name(p) matches Some(n) && extension(n) == Some("trashinfo"@)
}

/// The name of the file that describes a trashed item.
pub open spec fn info_name(item: Seq<char>) -> Seq<char> {
    item + ".trashinfo"@
}

/// The bounds of a place.
pub proof fn lemma_last_place(s: Seq<char>, c: char)
    ensures
        -1 <= last_place(s, c) < s.len(),
        last_place(s, c) >= 0 ==> s[last_place(s, c)] == c,
        forall|i: int| last_place(s, c) < i < s.len() ==> #[trigger] s[i] != c,
    decreases s.len(),
{
    if s.len() > 0 && s.last() != c {
        lemma_last_place(s.drop_last(), c);
        assert forall|i: int| last_place(s, c) < i < s.len() implies #[trigger] s[i] != c by {
            if i < s.len() - 1 {
                assert(s[i] == s.drop_last()[i]);
            }
        }
    }
}

/// A place behind which `c` does not stand again is the last one.
proof fn lemma_is_last_place(s: Seq<char>, c: char, k: int)
    requires
        -1 <= k < s.len(),
        k >= 0 ==> s[k] == c,
        forall|i: int| k < i < s.len() ==> #[trigger] s[i] != c,
    ensures
        last_place(s, c) == k,
{
    lemma_last_place(s, c);
    let m = last_place(s, c);
    if m < k {
        assert(s[k] != c);
    }
}

/// Joins a relative path to a directory.
fn join(dir: &str, rest: &str) -> (r: String)
    ensures
        r@ == joined(dir@, rest@),
{
    let v = text::chars_of(dir);
    let mut r = dir.to_owned();
    if v.len() > 0 && v[v.len() - 1] != '/' {
        r.append("/");
    }
    r.append(rest);
    r
}

/// Whether a home directory is known, and by an absolute path.
pub fn knows_home(home: &Option<String>) -> (r: bool)
    ensures
        r == has_home(*home),
{
    match home {
        Some(h) => starts_at_root(h.as_str()),
        None => false,
    }
}

/// Whether a path is absolute.
pub fn starts_at_root(p: &str) -> (r: bool)
    ensures
        r == is_absolute(p@),
{
    let v = text::chars_of(p);
    v.len() > 0 && v[0] == '/'
}

/// Whether one of the components of a path is `..`.
pub fn climbs(p: &str) -> (r: bool)
    ensures
        r == goes_up(p@),
{
    let v = text::chars_of(p);
    let mut end: usize = v.len();
    assert(v@.take(end as int) =~= p@);
    loop
        invariant
            end <= v@.len(),
            goes_up(v@.take(end as int)) == goes_up(p@),
        decreases end,
    {
        let ghost s = v@.take(end as int);
        let mut cut: usize = end;
        while cut > 0 && v[cut - 1] != '/'
            invariant
                cut <= end <= v@.len(),
                forall|i: int| cut <= i < end ==> #[trigger] v@[i] != '/',
            decreases cut,
        {
            cut -= 1;
        }
        proof {
            lemma_is_last_place(s, '/', cut - 1);
            assert(s.skip(cut as int) =~= v@.subrange(cut as int, end as int));
        }
        if end - cut == 2 && v[cut] == '.' && v[cut + 1] == '.' {
            assert(s.skip(cut as int) =~= seq!['.', '.']);
            return true;
        }
        assert(s.skip(cut as int) != seq!['.', '.']) by {
            if s.skip(cut as int) == seq!['.', '.'] {
                assert(s.skip(cut as int)[0] == '.' && s.skip(cut as int)[1] == '.');
            }
        }
        if cut == 0 {
            return false;
        }
        assert(s.take(cut - 1) =~= v@.take(cut - 1));
        end = cut - 1;
    }
}

/// Whether a path is that of a directory or of something in it.
pub fn stands_under(p: &str, dir: &str) -> (r: bool)
    ensures
        r == is_under(p@, dir@),
{
    let front = join(dir, "");
    proof {
        reveal_strlit("");
        assert(""@ =~= seq![]);
    }
    text::str_eq(p, dir) || text::starts_with(p, front.as_str())
}

/// The home directory, or `/tmp` where none is known.
fn home_dir(home: Option<String>) -> (r: String)
    ensures
        r@ == home_or_tmp(home),
{
    match home {
        Some(h) => h,
        None => "/tmp".to_owned(),
    }
}

/// The directory that holds trashed items.
pub fn trash_dir(platform: Platform, home: Option<String>) -> (r: String)
    ensures
        r@ == joined(
            home_or_tmp(home),
            match platform {
                Platform::MacOs => ".Trash"@,
                Platform::Linux => ".local/share/Trash/files"@,
            },
        ),
{
    let h = home_dir(home);
    match platform {
        Platform::MacOs => join(h.as_str(), ".Trash"),
        Platform::Linux => join(h.as_str(), ".local/share/Trash/files"),
    }
}

/// The directory that holds the `.trashinfo` files.
pub fn info_dir(platform: Platform, home: Option<String>) -> (r: String)
    ensures
        r@ == joined(
            home_or_tmp(home),
            match platform {
                Platform::MacOs => ".Trash/.trash-metadata"@,
                Platform::Linux => ".local/share/Trash/info"@,
            },
        ),
{
    let h = home_dir(home);
    match platform {
        Platform::MacOs => join(h.as_str(), ".Trash/.trash-metadata"),
        Platform::Linux => join(h.as_str(), ".local/share/Trash/info"),
    }
}

/// The last component of a path, where it is a name.
fn file_name_of(p: &str) -> (r: Option<Vec<char>>)
    ensures
        match r {
            Some(n) => file_name(p@) == Some(n@),
            None => file_name(p@) is None,
        },
{
    let v = text::chars_of(p);
    let mut end: usize = v.len();
    assert(p@.take(end as int) =~= p@);
    loop
        invariant
            v@ == p@,
            end <= v@.len(),
            file_name(p@) == file_name(p@.take(end as int)),
        decreases end,
    {
        let ghost q = p@.take(end as int);
        let mut start: usize = end;
        while start > 0 && v[start - 1] != '/'
            invariant
                v@ == p@,
                start <= end <= v@.len(),
                forall|i: int| start <= i < end ==> #[trigger] p@[i] != '/',
            decreases start,
        {
            start -= 1;
        }
        let mut piece: Vec<char> = Vec::new();
        let mut i: usize = start;
        while i < end
            invariant
                v@ == p@,
                start <= i <= end <= v@.len(),
                piece@ == p@.subrange(start as int, i as int),
            decreases end - i,
        {
            piece.push(v[i]);
            i += 1;
        }
        proof {
            assert forall|j: int| start - 1 < j < q.len() implies #[trigger] q[j] != '/' by {
                assert(q[j] == p@[j]);
            }
            lemma_is_last_place(q, '/', start - 1);
        }
        assert(piece@ =~= q.skip(start as int));
        if piece.len() == 0 || (piece.len() == 1 && piece[0] == '.') {
            assert(piece@.len() == 0 || piece@ =~= seq!['.']);
            if start == 0 {
                return None;
            }
            assert(q.take(start - 1) =~= p@.take(start - 1));
            end = start - 1;
        } else if piece.len() == 2 && piece[0] == '.' && piece[1] == '.' {
            assert(piece@ =~= seq!['.', '.']);
            return None;
        } else {
            return Some(piece);
        }
    }
}

/// The place of the last dot of a file name, or zero where there is none.
fn last_dot(n: &Vec<char>) -> (k: usize)
    ensures
        k == if last_place(n@, '.') < 0 {
            0
        } else {
            last_place(n@, '.')
        },
{
    let mut k: usize = n.len();
    while k > 0
        invariant
            k <= n@.len(),
            forall|i: int| k <= i < n@.len() ==> #[trigger] n@[i] != '.',
        decreases k,
    {
        if n[k - 1] == '.' {
            proof {
                lemma_is_last_place(n@, '.', k - 1);
            }
            return k - 1;
        }
        k -= 1;
    }
    proof {
        lemma_is_last_place(n@, '.', -1);
    }
    0
}

/// The stem of the file that a path names; empty where it names none.
pub fn path_stem_of(p: &str) -> (r: String)
    ensures
        r@ == path_stem(p@),
{
    match file_name_of(p) {
        Some(n) => {
            proof {
                lemma_last_place(n@, '.');
            }
            let dot = last_dot(&n);
            let end: usize = if dot == 0 {
                n.len()
            } else {
                dot
            };
            let s = text::string_of(&n, 0, end);
            assert(s@ =~= stem(n@));
            s
        },
        None => String::new(),
    }
}

/// Whether a path names a `.trashinfo` file.
pub fn is_info_name(p: &str) -> (r: bool)
    ensures
        r == names_info(p@),
{
    match file_name_of(p) {
        Some(n) => {
            proof {
                lemma_last_place(n@, '.');
            }
            let dot = last_dot(&n);
            if dot == 0 {
                false
            } else {
                let len: usize = n.len();
                assert(dot < len);
                let e = text::string_of(&n, dot + 1, len);
                assert(e@ =~= n@.skip(dot + 1));
                text::str_eq(e.as_str(), "trashinfo")
            }
        },
        None => false,
    }
}

/// The name of the file that describes a trashed item.
pub fn info_file_name(item: &str) -> (r: String)
    ensures
        r@ == info_name(item@),
{
    let mut r = item.to_owned();
    r.append(".trashinfo");
    r
}

/// The file that describes an item names that item: its name is recognised,
/// and its stem is the item's name.
pub proof fn law_info_name_names_item(item: Seq<char>)
    requires
        item.len() > 0,
        !item.contains('/'),
    ensures
        names_info(info_name(item)),
        path_stem(info_name(item)) == item,
{
    reveal_strlit(".trashinfo");
    reveal_strlit("trashinfo");
    let n = info_name(item);
    assert(n.len() == item.len() + 10);
    assert forall|i: int| -1 < i < n.len() implies #[trigger] n[i] != '/' by {
        if i < item.len() {
            assert(n[i] == item[i]);
            assert(item.contains(item[i]));
        } else {
            assert(n[i] == ".trashinfo"@[i - item.len()]);
        }
    }
    lemma_is_last_place(n, '/', -1);
    assert(n.skip(0) =~= n);
    assert(file_name(n) == Some(n));
    let k = item.len() as int;
    assert(n[k] == '.');
    assert forall|i: int| k < i < n.len() implies #[trigger] n[i] != '.' by {
        assert(n[i] == ".trashinfo"@[i - k]);
    }
    lemma_is_last_place(n, '.', k);
    assert(n.take(k) =~= item);
    assert(n.skip(k + 1) =~= "trashinfo"@);
}

/// Why a path cannot be handed to the C library.
#[derive(Clone, Copy, PartialEq, Eq, Structural)]
pub enum CPathError {
    Invalid,
    ContainsNull,
}

/// How the error is worded.
pub open spec fn c_path_message(e: CPathError) -> Seq<char> {
    match e {
        CPathError::Invalid => "invalid path"@,
        CPathError::ContainsNull => "path contains null"@,
    }
}

impl CPathError {
    /// How the error is worded.
    pub fn message(&self) -> (s: String)
        ensures
            s@ == c_path_message(*self),
    {
        match self {
            CPathError::Invalid => "invalid path".to_owned(),
            CPathError::ContainsNull => "path contains null".to_owned(),
        }
    }
}

/// The bytes of a path with a zero byte behind them, as the C library wants
/// them. No path that is not text has any, nor one that holds a zero byte.
pub fn path_to_cstring(path: Option<&str>) -> (r: Result<Vec<u8>, CPathError>)
    ensures
        match path {
            None => r == Err::<Vec<u8>, CPathError>(CPathError::Invalid),
            Some(p) => if encode_utf8(p@).contains(0) {
                r == Err::<Vec<u8>, CPathError>(CPathError::ContainsNull)
            } else {
                r is Ok && r->Ok_0@ == encode_utf8(p@).push(0)
            },
        },
{
    match path {
        None => Err(CPathError::Invalid),
        Some(p) => {
            let b = p.as_bytes();
            let mut out: Vec<u8> = Vec::new();
            let mut i: usize = 0;
            while i < b.len()
                invariant
                    i <= b@.len(),
                    b@ == encode_utf8(p@),
                    out@ == b@.take(i as int),
                    forall|j: int| 0 <= j < i ==> #[trigger] b@[j] != 0,
                    path == Some(p),
                decreases b.len() - i,
            {
                if b[i] == 0 {
                    assert(b@[i as int] == 0);
                    return Err(CPathError::ContainsNull);
                }
                out.push(b[i]);
                i += 1;
            }
            out.push(0);
            assert(b@.take(i as int) =~= b@);
            Ok(out)
        },
    }
}

/// A directory holds what is named behind it and a slash, and nothing whose
/// name only starts alike.
pub proof fn law_siblings_are_not_under(dir: Seq<char>, rest: Seq<char>)
    requires
        dir.len() > 0,
        dir.last() != '/',
    ensures
        is_under(dir + rest, dir) <==> rest.len() == 0 || rest[0] == '/',
{
    reveal_strlit("/");
    let p = dir + rest;
    let front = joined(dir, seq![]);
    assert(front =~= dir.push('/'));
    if rest.len() == 0 {
        assert(p =~= dir);
    } else {
        assert(p.len() != dir.len());
        assert(p[dir.len() as int] == rest[0]);
        if rest[0] == '/' {
            assert(p.subrange(0, front.len() as int) =~= front);
        } else if front.is_prefix_of(p) {
            assert(p.subrange(0, front.len() as int)[dir.len() as int] == '/');
        }
    }
}

/// What is joined to a directory stands behind it and one slash.
pub proof fn law_joined_behind_one_slash(dir: Seq<char>, rest: Seq<char>)
    ensures
        dir.len() == 0 ==> joined(dir, rest) == rest,
        dir.len() > 0 && dir.last() == '/' ==> joined(dir, rest) == dir + rest,
        dir.len() > 0 && dir.last() != '/' ==> joined(dir, rest) == dir + seq!['/'] + rest,
{
    reveal_strlit("/");
    assert("/"@ =~= seq!['/']);
    if dir.len() == 0 {
        assert(dir + rest =~= rest);
    }
}

/// The home directory is the one that is known, whatever it is.
pub proof fn law_known_home_is_used(home: Option<String>)
    ensures
        home matches Some(h) ==> home_or_tmp(home) == h@,
        home is None ==> home_or_tmp(home) == "/tmp"@,
        has_home(home) <==> home is Some && home->0@.len() > 0 && home->0@[0] == '/',
{
}

/// A path is under a directory just where it is that directory, or starts with
/// it and a slash.
pub proof fn law_under_is_behind_a_slash(p: Seq<char>, dir: Seq<char>)
    requires
        dir.len() > 0,
    ensures
        dir.last() != '/' ==> (is_under(p, dir) <==> p == dir || (p.len() > dir.len() && p.take(
            dir.len() as int,
        ) == dir && p[dir.len() as int] == '/')),
        dir.last() == '/' ==> (is_under(p, dir) <==> p.len() >= dir.len() && p.take(
            dir.len() as int,
        ) == dir),
{
    reveal_strlit("/");
    let n = dir.len() as int;
    let front = joined(dir, seq![]);
    if dir.last() != '/' {
        assert(front =~= dir.push('/'));
        if front.is_prefix_of(p) {
            assert(p.subrange(0, n + 1)[n] == '/');
            assert(p.take(n) =~= p.subrange(0, n + 1).take(n));
            assert(front.take(n) =~= dir);
        }
        if p.len() > n && p.take(n) == dir && p[n] == '/' {
            assert(p.subrange(0, n + 1) =~= p.take(n).push('/'));
        }
    } else {
        assert(front =~= dir);
        assert(p.len() >= n ==> p.subrange(0, n) =~= p.take(n));
        if p == dir {
            assert(p.take(n) =~= dir);
        }
    }
}

/// A path names what stands behind its last slash.
pub proof fn law_last_name_counts(dir: Seq<char>, name: Seq<char>)
    requires
        dir.len() > 0 ==> dir.last() == '/',
        name.len() > 0,
        !name.contains('/'),
        name != seq!['.'],
        name != seq!['.', '.'],
    ensures
        file_name(dir + name) == Some(name),
        path_stem(dir + name) == path_stem(name),
        names_info(dir + name) == names_info(name),
{
    let none = Seq::<char>::empty();
    lemma_named_behind(dir, name);
    lemma_named_behind(none, name);
    assert(none + name =~= name);
}

proof fn lemma_named_behind(dir: Seq<char>, name: Seq<char>)
    requires
        dir.len() > 0 ==> dir.last() == '/',
        name.len() > 0,
        !name.contains('/'),
        name != seq!['.'],
        name != seq!['.', '.'],
    ensures
        file_name(dir + name) == Some(name),
{
    let p = dir + name;
    let k = dir.len() - 1;
    assert forall|i: int| k < i < p.len() implies #[trigger] p[i] != '/' by {
        assert(p[i] == name[i - dir.len()]);
        assert(name.contains(name[i - dir.len()]));
    }
    lemma_is_last_place(p, '/', k);
    assert(p.skip(k + 1) =~= name);
}

/// A name is its stem, a dot and its extension, where there is something before
/// its last dot; else it is all stem. It names a description just where that
/// extension is `trashinfo`.
pub proof fn law_stem_dot_extension(stem: Seq<char>, extension: Seq<char>)
    requires
        !stem.contains('/'),
        !extension.contains('/'),
        !extension.contains('.'),
    ensures
        stem.len() > 0 && stem + seq!['.'] + extension != seq!['.', '.'] ==> path_stem(
            stem + seq!['.'] + extension,
        ) == stem,
        stem.len() > 0 && stem + seq!['.'] + extension != seq!['.', '.'] ==> (names_info(
            stem + seq!['.'] + extension,
        ) <==> extension == "trashinfo"@),
        extension.len() > 0 ==> path_stem(extension) == extension && !names_info(extension),
        extension.len() > 0 ==> path_stem(seq!['.'] + extension) == seq!['.'] + extension
            && !names_info(seq!['.'] + extension),
{
    let n = stem + seq!['.'] + extension;
    let k = stem.len() as int;
    let none = Seq::<char>::empty();
    assert forall|i: int| 0 <= i < n.len() implies n[i] != '/' by {
        if i < k {
            assert(stem.contains(stem[i]));
        } else if i > k {
            assert(extension.contains(extension[i - k - 1]));
        }
    }
    assert forall|i: int| k < i < n.len() implies #[trigger] n[i] != '.' by {
        assert(extension.contains(extension[i - k - 1]));
    }
    lemma_is_last_place(n, '.', k);
    assert(n.take(k) =~= stem);
    assert(n.skip(k + 1) =~= extension);
    if stem.len() > 0 && n != seq!['.', '.'] {
        assert(n.len() > 1);
        law_last_name_counts(none, n);
        assert(none + n =~= n);
    }
    if extension.len() > 0 {
        let h = seq!['.'] + extension;
        assert forall|i: int| -1 < i < extension.len() implies #[trigger] extension[i] != '.' by {
            assert(extension.contains(extension[i]));
        }
        assert(extension[0] != '.');
        lemma_is_last_place(extension, '.', -1);
        law_last_name_counts(none, extension);
        assert(none + extension =~= extension);
        assert forall|i: int| 0 < i < h.len() implies #[trigger] h[i] != '.' by {
            assert(extension.contains(extension[i - 1]));
        }
        assert forall|i: int| 0 <= i < h.len() implies h[i] != '/' by {
            if i > 0 {
                assert(extension.contains(extension[i - 1]));
            }
        }
        assert(h[1] == extension[0]);
        lemma_is_last_place(h, '.', 0);
        law_last_name_counts(none, h);
        assert(none + h =~= h);
    }
}

/// A path goes up just where two dots stand in it with a slash, or nothing, on
/// either side.
pub proof fn law_two_dots_go_up(p: Seq<char>)
    ensures
        goes_up(p) <==> exists|i: int|
            0 <= i < p.len() - 1 && #[trigger] p[i] == '.' && p[i + 1] == '.' && (i == 0 || p[i - 1]
                == '/') && (i + 2 == p.len() || p[i + 2] == '/'),
{
    if goes_up(p) {
        lemma_goes_up(p);
    }
    if exists|i: int|
        0 <= i < p.len() - 1 && #[trigger] p[i] == '.' && p[i + 1] == '.' && (i == 0 || p[i - 1]
                == '/') && (i + 2 == p.len() || p[i + 2] == '/') {
        let i = choose|i: int|
            0 <= i < p.len() - 1 && #[trigger] p[i] == '.' && p[i + 1] == '.' && (i == 0 || p[i - 1]
                == '/') && (i + 2 == p.len() || p[i + 2] == '/');
        lemma_up_goes_up(p, i);
    }
}

proof fn lemma_goes_up(p: Seq<char>)
    requires
        goes_up(p),
    ensures
        exists|i: int|
            0 <= i < p.len() - 1 && #[trigger] p[i] == '.' && p[i + 1] == '.' && (i == 0 || p[i - 1]
                == '/') && (i + 2 == p.len() || p[i + 2] == '/'),
    decreases p.len(),
{
    lemma_last_place(p, '/');
    let cut = last_place(p, '/');
    let piece = p.skip(cut + 1);
    if piece == seq!['.', '.'] {
        assert(piece.len() == 2 && piece.len() == p.len() - cut - 1);
        assert(p[cut + 1] == piece[0] && p[cut + 2] == piece[1]);
    } else {
        let q = p.take(cut);
        lemma_goes_up(q);
        let i = choose|i: int|
            0 <= i < q.len() - 1 && #[trigger] q[i] == '.' && q[i + 1] == '.' && (i == 0 || q[i - 1]
                == '/') && (i + 2 == q.len() || q[i + 2] == '/');
        assert(p[i] == q[i]);
    }
}

proof fn lemma_up_goes_up(p: Seq<char>, i: int)
    requires
        0 <= i < p.len() - 1,
        p[i] == '.',
        p[i + 1] == '.',
        i == 0 || p[i - 1] == '/',
        i + 2 == p.len() || p[i + 2] == '/',
    ensures
        goes_up(p),
    decreases p.len(),
{
    lemma_last_place(p, '/');
    let cut = last_place(p, '/');
    if i + 2 == p.len() {
        lemma_is_last_place(p, '/', i - 1);
        assert(p.skip(i) =~= seq!['.', '.']);
    } else {
        if cut < i + 2 {
            lemma_behind_last_place(p, '/', i + 2);
        }
        lemma_up_goes_up(p.take(cut), i);
    }
}

/// Behind the last place of a character there is none.
proof fn lemma_behind_last_place(s: Seq<char>, c: char, k: int)
    requires
        last_place(s, c) < k < s.len(),
    ensures
        s[k] != c,
    decreases s.len(),
{
    lemma_last_place(s, c);
    if s.last() != c && k < s.len() - 1 {
        lemma_behind_last_place(s.drop_last(), c, k);
    }
}

/// A slash at the end of a path, or a slash and a dot, does not matter to what
/// the path names; two dots name nothing.
pub proof fn law_ends_of_paths(p: Seq<char>)
    ensures
        file_name(p.push('/')) == file_name(p),
        file_name(p.push('/').push('.')) == file_name(p),
        file_name(p.push('/').push('.').push('.')) is None,
        file_name(seq![]) is None,
        file_name(p) is None ==> path_stem(p).len() == 0 && !names_info(p),
{
    let n = p.len() as int;
    let one = p.push('/');
    let two = one.push('.');
    let three = two.push('.');
    lemma_is_last_place(one, '/', n);
    lemma_is_last_place(two, '/', n);
    lemma_is_last_place(three, '/', n);
    assert(one.skip(n + 1) =~= seq![]);
    assert(two.skip(n + 1) =~= seq!['.']);
    assert(three.skip(n + 1) =~= seq!['.', '.']);
    assert(one.take(n) =~= p);
    assert(two.take(n) =~= p);
    assert(three.skip(n + 1)[1] == '.' && three.skip(n + 1).len() == 2);
}

/// How it is worded that a path cannot be handed to the C library.
pub proof fn law_refused_paths_are_told_apart()
    ensures
        c_path_message(CPathError::Invalid) == "invalid path"@,
        c_path_message(CPathError::ContainsNull) == "path contains null"@,
{
}

} // verus!

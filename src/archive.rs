use vstd::prelude::*;
use vstd::string::*;
use crate::error::AppError;

verus! {

/// The packagings an uploaded site may come in.
#[derive(Debug, Clone, Copy, PartialEq, Eq, Structural)]
pub enum ArchiveFormat {
    /// A gzip-compressed tar archive (`.tar.gz` or `.tgz`).
    TarGz,
    /// A zip archive (`.zip`).
    Zip,
}

/// `s` ends with `suffix`.
pub open spec fn has_suffix(s: Seq<char>, suffix: Seq<char>) -> bool {
    suffix.len() <= s.len() && s.subrange(s.len() - suffix.len(), s.len() as int) == suffix
}

/// The format that an archive's file name selects, if any.
pub open spec fn format_of(file_name: Seq<char>) -> Option<ArchiveFormat> {
    if has_suffix(file_name, seq!['.', 't', 'a', 'r', '.', 'g', 'z'])
        || has_suffix(file_name, seq!['.', 't', 'g', 'z']) {
        Some(ArchiveFormat::TarGz)
    } else if has_suffix(file_name, seq!['.', 'z', 'i', 'p']) {
        Some(ArchiveFormat::Zip)
    } else {
        None
    }
}

fn ends_with(s: &str, suffix: &str) -> (r: bool)
    ensures
        r == has_suffix(s@, suffix@),
{
    let n = s.unicode_len();
    let m = suffix.unicode_len();
    if m > n {
        return false;
    }
    let mut k: usize = 0;
    while k < m
        invariant
            n == s@.len(),
            m == suffix@.len(),
            m <= n,
            k <= m,
            forall|j: int| 0 <= j < k ==> s@[n - m + j] == #[trigger] suffix@[j],
        decreases m - k,
    {
        if s.get_char(n - m + k) != suffix.get_char(k) {
            assert(s@.subrange(n - m, n as int)[k as int] != suffix@[k as int]);
            return false;
        }
        k = k + 1;
    }
    assert(s@.subrange(n - m, n as int) =~= suffix@);
    true
}

/// Selects the archive format from the archive's file name.
pub fn archive_format(file_name: &str) -> (r: Result<ArchiveFormat, AppError>)
    ensures
        match format_of(file_name@) {
            Some(f) => r == Ok::<ArchiveFormat, AppError>(f),
            None => r matches Err(e) && e is UnsupportedFormat,
        },
{
    proof {
        reveal_strlit(".tar.gz");
        reveal_strlit(".tgz");
        reveal_strlit(".zip");
    }
    assert(".tar.gz"@ =~= seq!['.', 't', 'a', 'r', '.', 'g', 'z']);
    assert(".tgz"@ =~= seq!['.', 't', 'g', 'z']);
    assert(".zip"@ =~= seq!['.', 'z', 'i', 'p']);
    if ends_with(file_name, ".tar.gz") || ends_with(file_name, ".tgz") {
        Ok(ArchiveFormat::TarGz)
    } else if ends_with(file_name, ".zip") {
        Ok(ArchiveFormat::Zip)
    } else {
        Err(AppError::UnsupportedFormat)
    }
}

/// A path separator inside an archive entry's name.
pub open spec fn is_sep(c: char) -> bool {
    c == '/' || c == '\\'
}

/// The runs of characters between separators, empty runs included.
pub open spec fn segments(s: Seq<char>) -> Seq<Seq<char>>
    decreases s.len(),
{
    if s.len() == 0 {
        seq![Seq::empty()]
    } else {
        let rest = segments(s.drop_last());
        if is_sep(s.last()) {
            rest.push(Seq::empty())
        } else {
            rest.update(rest.len() - 1, rest.last().push(s.last()))
        }
    }
}

/// A segment that names something: neither empty nor `.`.
pub open spec fn is_named(c: Seq<char>) -> bool {
    c.len() > 0 && c != seq!['.']
}

/// The segments that name something, in order.
pub open spec fn named(x: Seq<Seq<char>>) -> Seq<Seq<char>>
    decreases x.len(),
{
    if x.len() == 0 {
        Seq::empty()
    } else {
        let k = named(x.drop_last());
        if is_named(x.last()) {
            k.push(x.last())
        } else {
            k
        }
    }
}

/// The components of an entry's path, as a filesystem would walk them.
pub open spec fn path_components(s: Seq<char>) -> Seq<Seq<char>> {
    named(segments(s))
}

/// The parent-directory component `..`.
pub open spec fn parent_dir() -> Seq<char> {
    seq!['.', '.']
}

/// The path starts at a root.
pub open spec fn is_rooted(s: Seq<char>) -> bool {
    s.len() > 0 && is_sep(s[0])
}

/// The path starts with a drive prefix such as `C:`.
pub open spec fn has_drive_prefix(s: Seq<char>) -> bool {
    s.len() >= 2 && (('a' <= s[0] <= 'z') || ('A' <= s[0] <= 'Z')) && s[1] == ':'
}

/// An entry path that could reach outside the destination directory.
pub open spec fn is_unsafe_entry_path(s: Seq<char>) -> bool {
    is_rooted(s) || has_drive_prefix(s) || path_components(s).contains(parent_dir())
}

/// The views of a sequence of strings.
pub open spec fn strings_view(v: Seq<String>) -> Seq<Seq<char>> {
    Seq::new(v.len(), |i: int| v[i]@)
}

proof fn lemma_segments_nonempty(s: Seq<char>)
    ensures
        segments(s).len() >= 1,
    decreases s.len(),
{
    if s.len() > 0 {
        lemma_segments_nonempty(s.drop_last());
    }
}

/// Splits an archive entry's name into the path components under the
/// destination directory, refusing a name that could reach outside it.
pub fn entry_components(name: &str) -> (r: Result<Vec<String>, AppError>)
    ensures
        r is Err <==> is_unsafe_entry_path(name@),
        r matches Err(e) ==> e matches AppError::UnsafePath(n) && n@ == name@,
        r matches Ok(v) ==> strings_view(v@) == path_components(name@),
{
    let n = name.unicode_len();
    let mut out: Vec<String> = Vec::new();
    let mut start: usize = 0;
    let mut i: usize = 0;
    let mut has_parent = false;
    proof {
        lemma_segments_nonempty(name@.subrange(0, 0));
        assert(name@.subrange(0, 0) =~= Seq::<char>::empty());
    }
    while i < n
        invariant
            n == name@.len(),
            start <= i <= n,
            segments(name@.subrange(0, i as int)).len() >= 1,
            segments(name@.subrange(0, i as int)).last() == name@.subrange(start as int, i as int),
            strings_view(out@) == named(segments(name@.subrange(0, i as int)).drop_last()),
            has_parent == named(segments(name@.subrange(0, i as int)).drop_last()).contains(parent_dir()),
        decreases n - i,
    {
        let ghost pre = name@.subrange(0, i as int);
        let ghost post = name@.subrange(0, i + 1);
        let c = name.get_char(i);
        assert(post.drop_last() =~= pre);
        assert(post.last() == c);
        proof {
            lemma_segments_nonempty(pre);
        }
        if c == '/' || c == '\\' {
            let cur = name.substring_char(start, i);
            let len = i - start;
            let ghost segs = segments(pre);
            let ghost k = named(segs.drop_last());
            assert(segments(post) == segs.push(Seq::<char>::empty()));
            assert(segments(post).drop_last() =~= segs);
            assert(segs.drop_last().push(segs.last()) =~= segs);
            let named_now = len > 0 && !(len == 1 && cur.get_char(0) == '.');
            let parent_now = len == 2 && cur.get_char(0) == '.' && cur.get_char(1) == '.';
            proof {
                assert(cur@ == segs.last());
                if len == 1 {
                    assert(named_now == (cur@ != seq!['.'])) by {
                        if cur@ == seq!['.'] {
                        } else {
                            assert(cur@[0] != '.' ==> cur@ != seq!['.']);
                            if cur@[0] == '.' {
                                assert(cur@ =~= seq!['.']);
                            }
                        }
                    }
                }
                if len == 2 {
                    if cur@[0] == '.' && cur@[1] == '.' {
                        assert(cur@ =~= parent_dir());
                    }
                }
                assert(cur@.len() == len);
                if cur@ == parent_dir() {
                    assert(cur@[0] == '.' && cur@[1] == '.');
                }
                assert(parent_now == (cur@ == parent_dir()));
                assert(named_now == is_named(cur@));
            }
            if named_now {
                out.push(String::from_str(cur));
                proof {
                    assert(strings_view(out@) =~= k.push(cur@));
                    assert(k.push(cur@).contains(parent_dir()) == (k.contains(parent_dir()) || cur@ == parent_dir())) by {
                        if cur@ == parent_dir() {
                            assert(k.push(cur@)[k.len() as int] == parent_dir());
                        }
                        if k.contains(parent_dir()) {
                            let j = choose|j: int| 0 <= j < k.len() && k[j] == parent_dir();
                            assert(k.push(cur@)[j] == parent_dir());
                        }
                        if k.push(cur@).contains(parent_dir()) {
                            let j = choose|j: int| 0 <= j < k.len() + 1 && k.push(cur@)[j] == parent_dir();
                            if j < k.len() {
                                assert(k[j] == parent_dir());
                            }
                        }
                    }
                }
            }
            has_parent = has_parent || parent_now;
            start = i + 1;
        } else {
            let ghost segs = segments(pre);
            assert(segments(post) == segs.update(segs.len() - 1, segs.last().push(c)));
            assert(segments(post).drop_last() =~= segs.drop_last());
            assert(name@.subrange(start as int, i + 1) =~= name@.subrange(start as int, i as int).push(c));
        }
        i = i + 1;
    }
    // the segment after the last separator
    let ghost pre = name@.subrange(0, n as int);
    let ghost segs = segments(pre);
    let ghost k = named(segs.drop_last());
    assert(pre =~= name@);
    assert(segs.drop_last().push(segs.last()) =~= segs);
    assert(named(segs) == if is_named(segs.last()) { k.push(segs.last()) } else { k });
    let cur = name.substring_char(start, n);
    let len = n - start;
    let named_now = len > 0 && !(len == 1 && cur.get_char(0) == '.');
    let parent_now = len == 2 && cur.get_char(0) == '.' && cur.get_char(1) == '.';
    proof {
        assert(cur@ == segs.last());
        if len == 1 && cur@[0] == '.' {
            assert(cur@ =~= seq!['.']);
        }
        if len == 2 && cur@[0] == '.' && cur@[1] == '.' {
            assert(cur@ =~= parent_dir());
        }
        assert(parent_now == (cur@ == parent_dir()));
        assert(named_now == is_named(cur@));
    }
    if named_now {
        out.push(String::from_str(cur));
        proof {
            assert(strings_view(out@) =~= k.push(cur@));
            assert(k.push(cur@).contains(parent_dir()) == (k.contains(parent_dir()) || cur@ == parent_dir())) by {
                if cur@ == parent_dir() {
                    assert(k.push(cur@)[k.len() as int] == parent_dir());
                }
                if k.contains(parent_dir()) {
                    let j = choose|j: int| 0 <= j < k.len() && k[j] == parent_dir();
                    assert(k.push(cur@)[j] == parent_dir());
                }
                if k.push(cur@).contains(parent_dir()) {
                    let j = choose|j: int| 0 <= j < k.len() + 1 && k.push(cur@)[j] == parent_dir();
                    if j < k.len() {
                        assert(k[j] == parent_dir());
                    }
                }
            }
        }
    }
    has_parent = has_parent || parent_now;
    let rooted = n > 0 && (name.get_char(0) == '/' || name.get_char(0) == '\\');
    let drive = n >= 2 && {
        let c0 = name.get_char(0);
        (('a' <= c0 && c0 <= 'z') || ('A' <= c0 && c0 <= 'Z')) && name.get_char(1) == ':'
    };
    if rooted || drive || has_parent {
        return Err(AppError::UnsafePath(String::from_str(name)));
    }
    Ok(out)
}

/// A component that stays one level below the directory it is joined to:
/// it names something, is not `..`, and holds no separator.
pub open spec fn is_local_component(c: Seq<char>) -> bool {
    &&& is_named(c)
    &&& c != parent_dir()
    &&& forall|j: int| 0 <= j < c.len() ==> !is_sep(#[trigger] c[j])
}

proof fn lemma_segments_have_no_sep(s: Seq<char>)
    ensures
        forall|i: int, j: int|
            0 <= i < segments(s).len() && 0 <= j < segments(s)[i].len() ==> !is_sep(
                #[trigger] segments(s)[i][j],
            ),
    decreases s.len(),
{
    lemma_segments_nonempty(s);
    if s.len() > 0 {
        lemma_segments_have_no_sep(s.drop_last());
        lemma_segments_nonempty(s.drop_last());
        let rest = segments(s.drop_last());
        if !is_sep(s.last()) {
            assert forall|i: int, j: int|
                0 <= i < segments(s).len() && 0 <= j < segments(s)[i].len() implies !is_sep(
                #[trigger] segments(s)[i][j]) by {
                if i == rest.len() - 1 && j == rest.last().len() {
                } else if i == rest.len() - 1 {
                    assert(segments(s)[i][j] == rest[i][j]);
                }
            }
        }
    }
}

proof fn lemma_named_are_named(x: Seq<Seq<char>>)
    ensures
        forall|j: int| 0 <= j < named(x).len() ==> is_named(#[trigger] named(x)[j]),
        forall|j: int| 0 <= j < named(x).len() ==> exists|i: int| 0 <= i < x.len() && x[i] == #[trigger] named(x)[j],
    decreases x.len(),
{
    if x.len() > 0 {
        lemma_named_are_named(x.drop_last());
        let k = named(x.drop_last());
        assert forall|j: int| 0 <= j < named(x).len() implies exists|i: int| 0 <= i < x.len() && x[i] == #[trigger] named(x)[j] by {
            if j < k.len() {
                let i = choose|i: int| 0 <= i < x.drop_last().len() && x.drop_last()[i] == k[j];
                assert(x[i] == named(x)[j]);
            } else {
                assert(x[x.len() - 1] == named(x)[j]);
            }
        }
    }
}

/// An entry whose path starts at a root or has a `..` component is always
/// refused; every component of an accepted entry stays one level below the
/// directory it is joined to, so joining them all to the destination never
/// leaves it.
pub proof fn lemma_entry_paths_stay_inside(s: Seq<char>)
    ensures
        is_rooted(s) || path_components(s).contains(parent_dir()) ==> is_unsafe_entry_path(s),
        !is_unsafe_entry_path(s) ==> forall|j: int|
            0 <= j < path_components(s).len() ==> is_local_component(#[trigger] path_components(s)[j]),
{
    lemma_segments_have_no_sep(s);
    lemma_named_are_named(segments(s));
    if !is_unsafe_entry_path(s) {
        assert forall|j: int| 0 <= j < path_components(s).len() implies is_local_component(
            #[trigger] path_components(s)[j]) by {
            let c = path_components(s)[j];
            let i = choose|i: int| 0 <= i < segments(s).len() && segments(s)[i] == c;
            if c == parent_dir() {
                assert(path_components(s).contains(parent_dir()));
            }
            assert forall|m: int| 0 <= m < c.len() implies !is_sep(#[trigger] c[m]) by {
                assert(segments(s)[i][m] == c[m]);
            }
        }
    }
}

/// Where an archive entry lands, relative to the destination directory.
pub struct EntryTarget {
    /// The directory to create (with its parents).
    pub dir: Vec<String>,
    /// For a file entry, its name inside `dir`.
    pub file: Option<String>,
}

/// An entry that cannot be extracted: its path could leave the destination,
/// or it is a file entry that names no file.
pub open spec fn is_refused_entry(name: Seq<char>, is_dir: bool) -> bool {
    is_unsafe_entry_path(name) || (!is_dir && path_components(name).len() == 0)
}

/// Decides where an archive entry is written: a directory entry is created
/// with its parents, a file entry gets its parent directories created and is
/// then written under its last component.
pub fn plan_entry(name: &str, is_dir: bool) -> (r: Result<EntryTarget, AppError>)
    ensures
        r is Err <==> is_refused_entry(name@, is_dir),
        r matches Err(e) ==> e matches AppError::UnsafePath(n) && n@ == name@,
        r matches Ok(t) ==> {
            let comps = path_components(name@);
            if is_dir {
                strings_view(t.dir@) == comps && t.file is None
            } else {
                strings_view(t.dir@) == comps.drop_last() && (t.file matches Some(f) && f@ == comps.last())
            }
        },
{
    let mut comps = entry_components(name)?;
    if is_dir {
        return Ok(EntryTarget { dir: comps, file: None });
    }
    let ghost before = comps@;
    match comps.pop() {
        Some(f) => {
            assert(strings_view(comps@) =~= strings_view(before).drop_last());
            assert(strings_view(before).last() == f@);
            Ok(EntryTarget { dir: comps, file: Some(f) })
        },
        None => Err(AppError::UnsafePath(String::from_str(name))),
    }
}

} // verus!

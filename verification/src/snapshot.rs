//! Snapshots of directory trees.
//!
//! A snapshot records, relative to one root directory, every directory and
//! every regular file found beneath it. Paths are sequences of name segments;
//! a segment is a byte string, as file names are not guaranteed to be text.
//! A file entry also records the file's size and, when one was computed, a
//! content digest used only for change detection.

use vstd::prelude::*;

verus! {

/// One regular file in a snapshot: its path relative to the snapshot root,
/// its size in bytes, and an optional content digest. `None` means the digest
/// was not computed or could not be (an unreadable file); such a file can
/// never be proved unchanged.
pub struct FileEntry {
    pub path: Vec<Vec<u8>>,
    pub size: u64,
    pub digest: Option<Vec<u8>>,
}

/// The mathematical value of a [`FileEntry`].
pub struct SpecFileEntry {
    pub path: Seq<Seq<u8>>,
    pub size: u64,
    pub digest: Option<Seq<u8>>,
}

/// The mathematical value of an optional digest.
pub open spec fn digest_view(d: Option<Vec<u8>>) -> Option<Seq<u8>> {
    match d {
        Some(x) => Some(x@),
        None => None,
    }
}

impl View for FileEntry {
    type V = SpecFileEntry;

    open spec fn view(&self) -> SpecFileEntry {
        SpecFileEntry {
            path: self.path.deep_view(),
            size: self.size,
            digest: digest_view(self.digest),
        }
    }
}

impl DeepView for FileEntry {
    type V = SpecFileEntry;

    open spec fn deep_view(&self) -> SpecFileEntry {
        self.view()
    }
}

/// A snapshot of one directory tree: the directories beneath the root and
/// the regular files beneath it, in the order the walk found them.
pub struct Snapshot {
    pub dirs: Vec<Vec<Vec<u8>>>,
    pub files: Vec<FileEntry>,
}

/// The mathematical value of a [`Snapshot`].
pub struct SpecSnapshot {
    pub dirs: Seq<Seq<Seq<u8>>>,
    pub files: Seq<SpecFileEntry>,
}

impl View for Snapshot {
    type V = SpecSnapshot;

    open spec fn view(&self) -> SpecSnapshot {
        SpecSnapshot {
            dirs: self.dirs.deep_view(),
            files: self.files@.map_values(|f: FileEntry| f@),
        }
    }
}

impl DeepView for Snapshot {
    type V = SpecSnapshot;

    open spec fn deep_view(&self) -> SpecSnapshot {
        self.view()
    }
}

/// A snapshot is well formed when every path is nonempty, no two entries
/// share a path, and no path names both a file and a directory — exactly what
/// a walk of a real directory tree yields.
pub open spec fn snap_wf(s: SpecSnapshot) -> bool {
    &&& forall|i: int| 0 <= i < s.files.len() ==> (#[trigger] s.files[i].path).len() >= 1
    &&& forall|i: int| 0 <= i < s.dirs.len() ==> (#[trigger] s.dirs[i]).len() >= 1
    &&& forall|i: int, j: int|
        0 <= i < j < s.files.len() ==> s.files[i].path != s.files[j].path
    &&& forall|i: int, j: int|
        0 <= i < j < s.dirs.len() ==> s.dirs[i] != s.dirs[j]
    &&& forall|i: int, j: int|
        0 <= i < s.files.len() && 0 <= j < s.dirs.len()
            ==> (#[trigger] s.files[i].path) != (#[trigger] s.dirs[j])
}

/// The first file at or after position `i` whose path is `path`.
pub open spec fn find_file_from(
    files: Seq<SpecFileEntry>,
    path: Seq<Seq<u8>>,
    i: int,
) -> Option<SpecFileEntry>
    decreases files.len() - i,
{
    if i < 0 || i >= files.len() {
        None
    } else if files[i].path == path {
        Some(files[i])
    } else {
        find_file_from(files, path, i + 1)
    }
}

/// The file a snapshot holds at a path, if any.
pub open spec fn find_file(s: SpecSnapshot, path: Seq<Seq<u8>>) -> Option<SpecFileEntry> {
    find_file_from(s.files, path, 0)
}

/// Whether a snapshot holds a directory at a path.
pub open spec fn has_dir(s: SpecSnapshot, path: Seq<Seq<u8>>) -> bool {
    s.dirs.contains(path)
}

/// Whether a snapshot holds anything — a file or a directory — at a path.
pub open spec fn entry_exists(s: SpecSnapshot, path: Seq<Seq<u8>>) -> bool {
    has_dir(s, path) || find_file(s, path) is Some
}

/// Scans a file name leftwards from position `i` for the dot that starts the
/// extension. A dot in the first position does not count: a name that starts
/// with a dot and has no other dot has no extension.
pub open spec fn ext_search(name: Seq<u8>, i: int) -> Option<Seq<u8>>
    decreases i,
{
    if i <= 0 {
        None
    } else if name[i] == 46 {
        Some(name.subrange(i + 1, name.len() as int))
    } else {
        ext_search(name, i - 1)
    }
}

/// The extension of a file name: the part after the final dot, without the
/// dot itself. A name with no dot past its first byte has no extension.
pub open spec fn spec_extension(name: Seq<u8>) -> Option<Seq<u8>> {
    if name.len() >= 2 {
        ext_search(name, name.len() - 1)
    } else {
        None
    }
}

/// Compares two byte strings for equality.
pub fn bytes_eq(a: &Vec<u8>, b: &Vec<u8>) -> (r: bool)
    ensures
        r == (a@ == b@),
{
    if a.len() != b.len() {
        return false;
    }
    let mut i: usize = 0;
    while i < a.len()
        invariant
            0 <= i <= a.len(),
            a.len() == b.len(),
            forall|k: int| 0 <= k < i ==> a@[k] == b@[k],
        decreases a.len() - i,
    {
        if a[i] != b[i] {
            return false;
        }
        i = i + 1;
    }
    proof {
        assert(a@ =~= b@);
    }
    true
}

/// Copies a byte string.
pub fn clone_bytes(v: &Vec<u8>) -> (r: Vec<u8>)
    ensures
        r@ == v@,
{
    let mut r: Vec<u8> = Vec::new();
    let mut i: usize = 0;
    while i < v.len()
        invariant
            0 <= i <= v.len(),
            r@ == v@.subrange(0, i as int),
        decreases v.len() - i,
    {
        r.push(v[i]);
        proof {
            assert(v@.subrange(0, i + 1) =~= v@.subrange(0, i as int).push(v@[i as int]));
        }
        i = i + 1;
    }
    proof {
        assert(v@.subrange(0, v@.len() as int) =~= v@);
    }
    r
}

/// Copies a path.
pub fn clone_path(p: &Vec<Vec<u8>>) -> (r: Vec<Vec<u8>>)
    ensures
        r.deep_view() == p.deep_view(),
{
    let mut r: Vec<Vec<u8>> = Vec::new();
    let mut i: usize = 0;
    while i < p.len()
        invariant
            0 <= i <= p.len(),
            r@.len() == i,
            forall|k: int| 0 <= k < i ==> #[trigger] r@[k]@ == p@[k]@,
        decreases p.len() - i,
    {
        r.push(clone_bytes(&p[i]));
        i = i + 1;
    }
    proof {
        assert(r.deep_view() =~= p.deep_view());
    }
    r
}

/// Compares two paths segment by segment.
pub fn path_eq(a: &Vec<Vec<u8>>, b: &Vec<Vec<u8>>) -> (r: bool)
    ensures
        r == (a.deep_view() == b.deep_view()),
{
    if a.len() != b.len() {
        proof {
            assert(a.deep_view().len() == a@.len());
            assert(b.deep_view().len() == b@.len());
        }
        return false;
    }
    let mut i: usize = 0;
    while i < a.len()
        invariant
            0 <= i <= a.len(),
            a.len() == b.len(),
            forall|k: int| 0 <= k < i ==> #[trigger] a@[k]@ == b@[k]@,
        decreases a.len() - i,
    {
        if !bytes_eq(&a[i], &b[i]) {
            proof {
                assert(a.deep_view()[i as int] == a@[i as int]@);
                assert(b.deep_view()[i as int] == b@[i as int]@);
            }
            return false;
        }
        i = i + 1;
    }
    proof {
        assert(a.deep_view() =~= b.deep_view());
    }
    true
}

/// Whether a byte string stands in a list of tokens.
pub fn token_listed(toks: &Vec<Vec<u8>>, t: &Vec<u8>) -> (r: bool)
    ensures
        r == toks.deep_view().contains(t@),
{
    let mut i: usize = 0;
    while i < toks.len()
        invariant
            0 <= i <= toks.len(),
            forall|k: int| 0 <= k < i ==> #[trigger] toks.deep_view()[k] != t@,
        decreases toks.len() - i,
    {
        proof {
            assert(toks.deep_view()[i as int] =~= toks@[i as int]@);
        }
        if bytes_eq(&toks[i], t) {
            return true;
        }
        i = i + 1;
    }
    proof {
        assert(toks.deep_view().len() == toks@.len());
    }
    false
}

/// The file a snapshot holds at a path, if any.
pub fn lookup_file<'a>(s: &'a Snapshot, path: &Vec<Vec<u8>>) -> (r: Option<&'a FileEntry>)
    ensures
        match r {
            Some(f) => find_file(s@, path.deep_view()) == Some(f@),
            None => find_file(s@, path.deep_view()) is None,
        },
{
    let mut i: usize = 0;
    while i < s.files.len()
        invariant
            0 <= i <= s.files.len(),
            find_file(s@, path.deep_view()) == find_file_from(s@.files, path.deep_view(), i as int),
        decreases s.files.len() - i,
    {
        if path_eq(&s.files[i].path, path) {
            proof {
                assert(s@.files[i as int] == s.files@[i as int]@);
                assert(s@.files[i as int].path == path.deep_view());
            }
            return Some(&s.files[i]);
        }
        proof {
            assert(s@.files[i as int] == s.files@[i as int]@);
            assert(s@.files[i as int].path != path.deep_view());
        }
        i = i + 1;
    }
    None
}

/// Whether a snapshot holds a directory at a path.
pub fn contains_dir(s: &Snapshot, path: &Vec<Vec<u8>>) -> (r: bool)
    ensures
        r == has_dir(s@, path.deep_view()),
{
    let mut i: usize = 0;
    while i < s.dirs.len()
        invariant
            0 <= i <= s.dirs.len(),
            forall|k: int| 0 <= k < i ==> #[trigger] s@.dirs[k] != path.deep_view(),
        decreases s.dirs.len() - i,
    {
        if path_eq(&s.dirs[i], path) {
            proof {
                assert(s@.dirs[i as int] == path.deep_view());
            }
            return true;
        }
        proof {
            assert(s@.dirs[i as int] == s.dirs@[i as int].deep_view());
        }
        i = i + 1;
    }
    proof {
        assert(forall|k: int| 0 <= k < s@.dirs.len() ==> #[trigger] s@.dirs[k] != path.deep_view());
    }
    false
}

/// The extension of a file name, if it has one: the part after the final
/// dot, without the dot. A dot in the first position starts no extension.
pub fn extension_of(name: &Vec<u8>) -> (r: Option<Vec<u8>>)
    ensures
        match r {
            Some(e) => spec_extension(name@) == Some(e@),
            None => spec_extension(name@) is None,
        },
{
    if name.len() < 2 {
        return None;
    }
    let mut i: usize = name.len() - 1;
    loop
        invariant
            1 <= i <= name.len() - 1,
            name.len() >= 2,
            spec_extension(name@) == ext_search(name@, i as int),
        decreases i,
    {
        if name[i] == 46 {
            let mut e: Vec<u8> = Vec::new();
            let mut j: usize = i + 1;
            while j < name.len()
                invariant
                    i + 1 <= j <= name.len(),
                    i < name.len(),
                    e@ == name@.subrange(i + 1, j as int),
                decreases name.len() - j,
            {
                e.push(name[j]);
                proof {
                    assert(name@.subrange(i + 1, j + 1)
                        =~= name@.subrange(i + 1, j as int).push(name@[j as int]));
                }
                j = j + 1;
            }
            return Some(e);
        }
        if i == 1 {
            proof {
                assert(ext_search(name@, 1) == ext_search(name@, 0));
                assert(ext_search(name@, 0) is None);
            }
            return None;
        }
        i = i - 1;
    }
}

} // verus!

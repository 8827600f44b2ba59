//! The filesystem storage backend, as decisions on what is found on disk.
//!
//! Each operation takes what the caller observed at the paths it names (a
//! [`PathKind`], or a directory listing) and decides the outcome; the caller
//! performs the reads and writes.

use vstd::prelude::*;

use std::collections::{HashMap, HashSet};

use crate::entry_id::{entry_id_text, parse_entry_id, uuid_of_text, uuid_text};
use crate::text::{chars_of, push_char, str_eq, string_of_range};

verus! {

/// What exists at a path.
#[derive(PartialEq, Eq, Structural, Clone, Copy, Debug)]
pub enum PathKind {
    Missing,
    File,
    Directory,
}

/// Why a storage operation is refused.
#[derive(PartialEq, Eq, Structural, Clone, Copy, Debug)]
pub enum StorageError {
    /// A path that must be a directory is a file.
    NotADirectory,
    /// A path that must be a file is a directory.
    IsADirectory,
    /// What is to be created exists already.
    AlreadyExists,
}

/// `name` below `base`: joined by `/` unless `base` is empty or already
/// ends in one.
pub open spec fn join(base: Seq<char>, name: Seq<char>) -> Seq<char> {
    if base.len() == 0 {
        name
    } else if base.last() == '/' {
        base + name
    } else {
        base + seq!['/'] + name
    }
}

/// Joins `name` below `base`, as [`join`] states.
pub(crate) fn join_path(base: &String, name: &str) -> (r: String)
    ensures
        r@ == join(base@, name@),
{
    let chars = crate::text::chars_of(base.as_str());
    if chars.len() == 0 {
        return String::from_str(name);
    }
    let mut r = base.clone();
    if chars[chars.len() - 1] != '/' {
        push_char(&mut r, '/');
    }
    r.append(name);
    r
}

/// A path that is a directory, or where nothing exists yet.
pub struct Directory {
    path: String,
}

impl View for Directory {
    type V = Seq<char>;

    closed spec fn view(&self) -> Seq<char> {
        self.path@
    }
}

/// A path that is a file, or where nothing exists yet.
pub struct File {
    path: String,
}

impl View for File {
    type V = Seq<char>;

    closed spec fn view(&self) -> Seq<char> {
        self.path@
    }
}

impl Directory {
    /// A directory at `path`, given what exists there.
    ///
    /// Fails with `NotADirectory` when `path` is a file.
    pub fn new(path: &str, kind: PathKind) -> (r: Result<Directory, StorageError>)
        ensures
            kind == PathKind::File ==> r == Err::<Directory, StorageError>(
                StorageError::NotADirectory,
            ),
            kind != PathKind::File ==> (r matches Ok(d) && d@ == path@),
    {
        if kind == PathKind::File {
            return Err(StorageError::NotADirectory);
        }
        Ok(Directory { path: String::from_str(path) })
    }

    /// The directory `name` inside this one, given what exists there.
    pub fn subdirectory(&self, name: &str, kind: PathKind) -> (r: Result<Directory, StorageError>)
        ensures
            kind == PathKind::File ==> r == Err::<Directory, StorageError>(
                StorageError::NotADirectory,
            ),
            kind != PathKind::File ==> (r matches Ok(d) && d@ == join(self@, name@)),
    {
        let path = join_path(&self.path, name);
        Directory::new(path.as_str(), kind)
    }

    /// The file `name` inside this directory, given what exists there.
    pub fn subfile(&self, name: &str, kind: PathKind) -> (r: Result<File, StorageError>)
        ensures
            kind == PathKind::Directory ==> r == Err::<File, StorageError>(
                StorageError::IsADirectory,
            ),
            kind != PathKind::Directory ==> (r matches Ok(f) && f@ == join(self@, name@)),
    {
        let path = join_path(&self.path, name);
        File::new(path.as_str(), kind)
    }

    /// The path of this directory.
    pub fn to_string(&self) -> (r: String)
        ensures
            r@ == self@,
    {
        self.path.clone()
    }
}

impl File {
    /// A file at `path`, given what exists there.
    ///
    /// Fails with `IsADirectory` when `path` is a directory.
    pub fn new(path: &str, kind: PathKind) -> (r: Result<File, StorageError>)
        ensures
            kind == PathKind::Directory ==> r == Err::<File, StorageError>(
                StorageError::IsADirectory,
            ),
            kind != PathKind::Directory ==> (r matches Ok(f) && f@ == path@),
    {
        if kind == PathKind::Directory {
            return Err(StorageError::IsADirectory);
        }
        Ok(File { path: String::from_str(path) })
    }

    /// The path of this file.
    pub fn to_string(&self) -> (r: String)
        ensures
            r@ == self@,
    {
        self.path.clone()
    }
}

/// `i` is the position of the last `c` in `s`.
pub open spec fn is_last(s: Seq<char>, c: char, i: int) -> bool {
    &&& 0 <= i < s.len()
    &&& s[i] == c
    &&& forall|k: int| i < k < s.len() ==> s[k] != c
}

/// The identifier an entry file's name carries: the name splits at its last
/// `.` into a stem and an extension; the extension must be `age` and the
/// stem, not empty, must read as an identifier.
pub open spec fn entry_id_of(name: Seq<char>) -> Option<u128> {
    if exists|i: int| is_last(name, '.', i) {
        let i = choose|i: int| is_last(name, '.', i);
        if i > 0 && name.skip(i + 1) == "age"@ {
            uuid_of_text(name.take(i))
        } else {
            None
        }
    } else {
        None
    }
}

/// The name of the file that holds the entry `id`.
pub open spec fn entry_name(id: u128) -> Seq<char> {
    uuid_text(id) + "."@ + "age"@
}

/// The path of the entries directory below a vault root.
pub open spec fn entries_dir(root: Seq<char>) -> Seq<char> {
    join(root, "entries"@)
}

/// One item of a directory listing: its name, `None` when the name is not
/// valid Unicode, and whether it is a directory.
pub struct DirEntry {
    pub name: Option<String>,
    pub is_dir: bool,
}

/// Model of a [`DirEntry`].
pub type DirEntryModel = (Option<Seq<char>>, bool);

impl View for DirEntry {
    type V = DirEntryModel;

    open spec fn view(&self) -> DirEntryModel {
        (
            match self.name {
                Some(n) => Some(n@),
                None => None,
            },
            self.is_dir,
        )
    }
}

/// The identifier a listed item stands for: only files whose names carry
/// one count.
pub open spec fn listed_id(e: DirEntryModel) -> Option<u128> {
    if e.1 {
        None
    } else {
        match e.0 {
            Some(n) => entry_id_of(n),
            None => None,
        }
    }
}

/// The entries a listing of `dir` holds: each identifier mapped to the
/// path of the last file that carries it. Other items are skipped.
pub open spec fn entries_map(dir: Seq<char>, ls: Seq<DirEntryModel>) -> Map<u128, Seq<char>>
    decreases ls.len(),
{
    if ls.len() == 0 {
        Map::empty()
    } else {
        let m = entries_map(dir, ls.drop_last());
        match listed_id(ls.last()) {
            Some(id) => m.insert(id, join(dir, ls.last().0->0)),
            None => m,
        }
    }
}

/// The identifier that an entry file's name carries, as [`entry_id_of`]
/// states.
pub fn entry_id(name: &str) -> (r: Option<u128>)
    ensures
        r == entry_id_of(name@),
{
    let chars = chars_of(name);
    let mut i: usize = chars.len();
    while i > 0 && chars[i - 1] != '.'
        invariant
            i <= chars.len(),
            chars@ == name@,
            forall|k: int| i <= k < chars.len() ==> chars@[k] != '.',
        decreases i,
    {
        i = i - 1;
    }
    if i == 0 {
        assert(!exists|j: int| is_last(name@, '.', j));
        return None;
    }
    let dot = i - 1;
    assert(is_last(name@, '.', dot as int));
    let ghost j = choose|j: int| is_last(name@, '.', j);
    assert(j == dot);
    if dot == 0 {
        return None;
    }
    let ext = string_of_range(&chars, dot + 1, chars.len());
    if !str_eq(ext.as_str(), "age") {
        return None;
    }
    let stem = string_of_range(&chars, 0, dot);
    assert(chars@.subrange(0, dot as int) == name@.take(dot as int));
    parse_entry_id(stem.as_str())
}

/// The name of the file that holds the entry `id`.
pub fn entry_file_name(id: u128) -> (r: String)
    ensures
        r@ == entry_name(id),
        entry_id_of(r@) == Some(id),
{
    let text = entry_id_text(id);
    let mut name = text.clone();
    name.append(".");
    name.append("age");
    proof {
        reveal_strlit(".");
        reveal_strlit("age");
        let n = name@;
        assert(n.len() == 40);
        assert forall|k: int| 0 <= k < 36 implies n[k] != '.' by {
            assert(n[k] == uuid_text(id)[k]);
        }
        assert(is_last(n, '.', 36));
        let j = choose|j: int| is_last(n, '.', j);
        assert(j == 36);
        assert(n.take(36) == text@);
        assert(n.skip(37) == "age"@);
    }
    name
}

/// What adding the entry `id` to the vault at `root` gives, when the
/// entries found there carry the identifiers `existing`: the path of the new
/// entry, or why it is refused.
pub open spec fn add_entry_outcome(
    root: Seq<char>,
    id: u128,
    entries_kind: PathKind,
    existing: Set<u128>,
) -> Result<Seq<char>, StorageError> {
    if entries_kind == PathKind::File {
        Err(StorageError::NotADirectory)
    } else if existing.contains(id) {
        Err(StorageError::AlreadyExists)
    } else {
        Ok(join(entries_dir(root), entry_name(id)))
    }
}

/// A vault kept in a directory: its entries are files in the `entries`
/// subdirectory of the root, named after their identifiers. It records the
/// identifiers it has allocated, so that none is handed out twice.
pub struct Filesystem {
    root: Directory,
    allocated: HashSet<u128>,
}

impl View for Filesystem {
    type V = Seq<char>;

    closed spec fn view(&self) -> Seq<char> {
        self.root@
    }
}

impl Filesystem {
    /// The identifiers this vault has allocated.
    pub closed spec fn allocated(&self) -> Set<u128> {
        self.allocated@
    }

    /// A vault rooted at `root`, given what exists there.
    ///
    /// Fails with `NotADirectory` when `root` is a file.
    pub fn new(root: &str, kind: PathKind) -> (r: Result<Filesystem, StorageError>)
        ensures
            kind == PathKind::File ==> r == Err::<Filesystem, StorageError>(
                StorageError::NotADirectory,
            ),
            kind != PathKind::File ==> (r matches Ok(fs) && fs@ == root@ && fs.allocated()
                == Set::<u128>::empty()),
    {
        let root = Directory::new(root, kind)?;
        Ok(Filesystem { root, allocated: HashSet::new() })
    }

    /// The entries directory, given what exists there.
    pub fn entries_path(&self, kind: PathKind) -> (r: Result<Directory, StorageError>)
        ensures
            kind == PathKind::File ==> r == Err::<Directory, StorageError>(
                StorageError::NotADirectory,
            ),
            kind != PathKind::File ==> (r matches Ok(d) && d@ == entries_dir(self@)),
    {
        self.root.subdirectory("entries", kind)
    }

    /// The directory to create for a new vault, given what exists at the
    /// entries path. A vault is never initialized twice: an existing entries
    /// directory gives `AlreadyExists`.
    pub fn create(&self, kind: PathKind) -> (r: Result<Directory, StorageError>)
        ensures
            kind == PathKind::File ==> r == Err::<Directory, StorageError>(
                StorageError::NotADirectory,
            ),
            kind == PathKind::Directory ==> r == Err::<Directory, StorageError>(
                StorageError::AlreadyExists,
            ),
            kind == PathKind::Missing ==> (r matches Ok(d) && d@ == entries_dir(self@)),
    {
        let path = self.entries_path(kind)?;
        if kind == PathKind::Directory {
            return Err(StorageError::AlreadyExists);
        }
        Ok(path)
    }

    /// The entries that a listing of the entries directory holds. Items
    /// that are directories, lack a Unicode name, or whose name carries no
    /// identifier are skipped.
    pub fn entries(&self, listing: &Vec<DirEntry>) -> (r: HashMap<u128, File>)
        ensures
            r@.dom() == entries_map(
                entries_dir(self@),
                listing@.map_values(|e: DirEntry| e@),
            ).dom(),
            forall|id: u128| #[trigger]
                r@.contains_key(id) ==> r@[id]@ == entries_map(
                    entries_dir(self@),
                    listing@.map_values(|e: DirEntry| e@),
                )[id],
    {
        broadcast use vstd::std_specs::hash::group_hash_axioms;

        let ghost ls = listing@.map_values(|e: DirEntry| e@);
        let dir = join_path(&self.root.path, "entries");
        let mut map: HashMap<u128, File> = HashMap::new();
        let mut i: usize = 0;
        assert(ls.take(0) =~= Seq::<DirEntryModel>::empty());
        while i < listing.len()
            invariant
                i <= listing.len(),
                ls == listing@.map_values(|e: DirEntry| e@),
                dir@ == entries_dir(self@),
                map@.dom() == entries_map(dir@, ls.take(i as int)).dom(),
                forall|id: u128| #[trigger]
                    map@.contains_key(id) ==> map@[id]@ == entries_map(dir@, ls.take(i as int))[id],
            decreases listing.len() - i,
        {
            let e = &listing[i];
            assert(ls.take(i + 1).drop_last() == ls.take(i as int));
            assert(ls.take(i + 1).last() == e@);
            if !e.is_dir {
                if let Some(name) = &e.name {
                    if let Some(id) = entry_id(name.as_str()) {
                        let path = join_path(&dir, name.as_str());
                        map.insert(id, File { path });
                    }
                }
            }
            i = i + 1;
        }
        assert(ls.take(i as int) == ls);
        map
    }

    /// A reference for a new entry `id`, given what exists at the entries
    /// path and the entries found there. An entry is never overwritten: an
    /// identifier that is found there, or that this vault has allocated
    /// before, gives `AlreadyExists` and changes nothing. The new entry's
    /// file name carries `id`, so that enumeration finds it.
    pub fn add_entry(
        &mut self,
        id: u128,
        entries_kind: PathKind,
        existing: &HashMap<u128, File>,
    ) -> (r: Result<File, StorageError>)
        ensures
            final(self)@ == old(self)@,
            match add_entry_outcome(
                old(self)@,
                id,
                entries_kind,
                existing@.dom().union(old(self).allocated()),
            ) {
                Ok(p) => r matches Ok(f) && f@ == p,
                Err(e) => r == Err::<File, StorageError>(e),
            },
            r is Ok ==> final(self).allocated() == old(self).allocated().insert(id),
            r is Err ==> final(self).allocated() == old(self).allocated(),
            r is Ok ==> entry_id_of(entry_name(id)) == Some(id),
    {
        broadcast use vstd::std_specs::hash::group_hash_axioms;

        let dir = self.entries_path(entries_kind)?;
        if existing.contains_key(&id) || self.allocated.contains(&id) {
            return Err(StorageError::AlreadyExists);
        }
        let name = entry_file_name(id);
        let file = File::new(join_path(&dir.path, name.as_str()).as_str(), PathKind::Missing);
        self.allocated.insert(id);
        file
    }
}

/// Adding an entry twice: once adding `id` has succeeded, the identifiers
/// taken (those found plus those allocated) hold `id`, and adding `id` again
/// gives `AlreadyExists` and no reference, so nothing can be written over it.
pub proof fn lemma_add_entry_twice(
    root: Seq<char>,
    id: u128,
    entries_kind: PathKind,
    existing: Set<u128>,
)
    requires
        add_entry_outcome(root, id, entries_kind, existing) is Ok,
    ensures
        add_entry_outcome(root, id, entries_kind, existing.insert(id)) == Err::<
            Seq<char>,
            StorageError,
        >(StorageError::AlreadyExists),
{
}

/// An entry file that is listed is found by enumeration, at its path,
/// whatever else the listing holds before it.
pub proof fn lemma_listed_entry_found(dir: Seq<char>, ls: Seq<DirEntryModel>, id: u128)
    requires
        entry_id_of(entry_name(id)) == Some(id),
    ensures
        entries_map(dir, ls.push((Some(entry_name(id)), false))).contains_key(id),
        entries_map(dir, ls.push((Some(entry_name(id)), false)))[id] == join(dir, entry_name(id)),
{
    let l2 = ls.push((Some(entry_name(id)), false));
    assert(l2.drop_last() == ls);
}

} // verus!

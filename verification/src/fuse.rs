//! The kernel-facing adapter: inodes, open files and operation dispatch.
//!
//! Every node is named to the kernel by an inode number.  The adapter keeps
//! a bijection between inode numbers and node hashes, growing it on demand
//! and never dropping an entry while mounted, an open-file table keyed by
//! file handle, and the two counters that allocate fresh numbers.  Each
//! operation resolves numbers through those tables and answers with an
//! attribute or data payload, or a POSIX errno.

use crate::blocks::FileReader;
use crate::error::SeafError;
use crate::hash::Sha1;
use crate::library::{Library, spec_load_fs};
use crate::node::{DirentJson, DirentModel, FsJson, FsModel};
use std::collections::HashMap;
use vstd::prelude::*;

verus! {

broadcast use vstd::std_specs::hash::group_hash_axioms;

/// The reserved inode number of the filesystem root.
pub const FUSE_ROOT_ID: u64 = 1;

/// The POSIX error numbers the adapter answers with.
#[derive(Debug, Clone, Copy, PartialEq, Eq, Structural)]
#[allow(non_camel_case_types)]
pub enum Errno {
    ENOENT,
    ENOTDIR,
    EINVAL,
    EBADF,
    EIO,
}

/// The kind of a filesystem node.
#[derive(Debug, Clone, Copy, PartialEq, Eq, Structural)]
pub enum FileKind {
    Directory,
    RegularFile,
}

/// The attributes presented for a node.  All timestamps are the epoch and
/// are left to the transport layer.
#[derive(Debug, Clone, Copy, PartialEq, Eq, Structural)]
pub struct FileAttr {
    pub ino: u64,
    pub size: u64,
    pub blocks: u64,
    pub kind: FileKind,
    pub perm: u16,
    pub nlink: u32,
    pub uid: u32,
    pub gid: u32,
    pub rdev: u32,
    pub blksize: u32,
    pub flags: u32,
}

/// One directory entry as listed to the kernel.
#[derive(Debug)]
pub struct Dentry {
    pub ino: u64,
    pub kind: FileKind,
    pub name: String,
}

/// The attributes of a node, fixed by its kind and size alone.
pub open spec fn spec_attr_of(fs: FsModel, ino: u64) -> FileAttr {
    match fs {
        FsModel::Dir(_) => FileAttr {
            ino,
            size: 0,
            blocks: 0,
            kind: FileKind::Directory,
            perm: 0o755,
            nlink: 1,
            uid: 0,
            gid: 0,
            rdev: 0,
            blksize: 0,
            flags: 0,
        },
        FsModel::File(f) => FileAttr {
            ino,
            size: f.size,
            blocks: 0,
            kind: FileKind::RegularFile,
            perm: 0o644,
            nlink: 1,
            uid: 0,
            gid: 0,
            rdev: 0,
            blksize: 0,
            flags: 0,
        },
    }
}

/// A hash flattened to its five words, the form the inode table stores.
pub type HashWords = (u32, u32, u32, u32, u32);

/// The words of a hash.
pub open spec fn spec_words(s: Sha1) -> HashWords {
    (s.w0, s.w1, s.w2, s.w3, s.w4)
}

/// The hash of a word tuple.
pub open spec fn sha_of_words(w: HashWords) -> Sha1 {
    Sha1 { w0: w.0, w1: w.1, w2: w.2, w3: w.3, w4: w.4 }
}

fn words_of(s: &Sha1) -> (r: HashWords)
    ensures
        r == spec_words(*s),
{
    (s.w0, s.w1, s.w2, s.w3, s.w4)
}

#[verifier::external_type_specification]
#[verifier::external_body]
#[verifier::reject_recursive_types(L)]
#[verifier::reject_recursive_types(R)]
#[verifier::reject_recursive_types(LS)]
#[verifier::reject_recursive_types(RS)]
pub struct ExBiHashMap<L, R, LS, RS>(bimap::BiHashMap<L, R, LS, RS>);

/// The inode table's backing bimap.
pub type InoTable = bimap::BiHashMap<u64, HashWords>;

/// The pairs a bimap holds, as a map from left to right values.
pub uninterp spec fn ino_map_of(m: InoTable) -> Map<u64, HashWords>;

/// Relies on `bimap::BiHashMap::with_capacity`; nothing is assumed of the
/// result, which `ino_map_reset` then gives its starting content.
#[verifier::external_body]
fn ino_map_with_capacity(capacity: usize) -> (r: InoTable)
{
    bimap::BiHashMap::with_capacity(capacity)
}

/// Relies on `bimap::BiHashMap::from_iter`: the table becomes the one
/// holding exactly the given pair.
#[verifier::external_body]
fn ino_map_reset(m: &mut InoTable, ino: u64, w: HashWords)
    ensures
        ino_map_of(*final(m)) =~= Map::empty().insert(ino, w),
{
    *m = bimap::BiHashMap::from_iter([(ino, w)]);
}

/// Relies on `bimap::BiHashMap::insert`: when neither side is present the
/// pair is added and every other pair stays.
#[verifier::external_body]
fn ino_map_insert(m: &mut InoTable, ino: u64, w: HashWords)
    requires
        !ino_map_of(*old(m)).dom().contains(ino),
        forall|k: u64| ino_map_of(*old(m)).dom().contains(k) ==> ino_map_of(*old(m))[k] != w,
    ensures
        ino_map_of(*final(m)) == ino_map_of(*old(m)).insert(ino, w),
{
    m.insert(ino, w);
}

/// Relies on `bimap::BiHashMap::get_by_left`: the right value paired with a
/// left value.
#[verifier::external_body]
fn ino_map_get_by_left(m: &InoTable, ino: u64) -> (r: Option<HashWords>)
    ensures
        match r {
            Some(w) => ino_map_of(*m).dom().contains(ino) && ino_map_of(*m)[ino] == w,
            None => !ino_map_of(*m).dom().contains(ino),
        },
{
    m.get_by_left(&ino).copied()
}

/// Relies on `bimap::BiHashMap::get_by_right`: the left value paired with a
/// right value; `None` means no pair holds it.
#[verifier::external_body]
fn ino_map_get_by_right(m: &InoTable, w: HashWords) -> (r: Option<u64>)
    ensures
        match r {
            Some(ino) => ino_map_of(*m).dom().contains(ino) && ino_map_of(*m)[ino] == w,
            None => forall|k: u64| ino_map_of(*m).dom().contains(k) ==> ino_map_of(*m)[k] != w,
        },
{
    m.get_by_right(&w).copied()
}

/// One open file: its reader, whose cursor lives as long as the handle.
#[derive(Debug)]
struct OpenFile {
    reader: FileReader,
}

/// Instance of a mounted filesystem over one library.
#[derive(Debug)]
pub struct SeafFuse {
    lib: Library,
    ino_table: InoTable,
    open_file_table: HashMap<u64, OpenFile>,
    ino_counter: u64,
    file_handle_counter: u64,
}

/// The first entry with the given name, in stored order.
pub open spec fn spec_find_dirent(dirents: Seq<DirentModel>, name: Seq<char>) -> Option<
    DirentModel,
>
    decreases dirents.len(),
{
    if dirents.len() == 0 {
        None
    } else if dirents[0].name == name {
        Some(dirents[0])
    } else {
        spec_find_dirent(dirents.drop_first(), name)
    }
}

impl SeafFuse {
    /// The inode table: a growing bijection between numbers and hashes.
    pub closed spec fn inos(self) -> Map<u64, Sha1> {
        ino_map_of(self.ino_table).map_values(|w: HashWords| sha_of_words(w))
    }

    /// The open-file table: each handle's reader.
    pub closed spec fn open_map(self) -> Map<u64, FileReader> {
        self.open_file_table@.map_values(|of: OpenFile| of.reader)
    }

    /// The repository read through the adapter.
    pub closed spec fn repo(self) -> crate::store::Repo {
        *self.lib.store
    }

    /// The mounted library.
    pub closed spec fn library(self) -> Library {
        self.lib
    }

    /// The next inode number to be allocated.
    pub closed spec fn next_ino(self) -> u64 {
        self.ino_counter
    }

    /// The next file handle to be probed.
    pub closed spec fn next_fh(self) -> u64 {
        self.file_handle_counter
    }

    /// Well-formedness: the inode map is injective, every allocated number
    /// is below the counter, and the root inode names the head root.
    pub closed spec fn wf(self) -> bool {
        &&& forall|i: u64, j: u64|
            #![trigger self.inos().index(i), self.inos().index(j)]
            self.inos().dom().contains(i) && self.inos().dom().contains(j) && self.inos().index(i)
                == self.inos().index(j) ==> i == j
        &&& forall|i: u64| #[trigger] self.inos().dom().contains(i) ==> i < self.ino_counter
        &&& self.inos().dom().contains(FUSE_ROOT_ID)
        &&& self.inos().index(FUSE_ROOT_ID) == self.lib.head_commit.root_id
    }

    /// Mount a library: the reserved root inode maps to the head commit's
    /// root, and no file is open.
    pub fn new(lib: Library) -> (r: SeafFuse)
        ensures
            r.wf(),
            r.library() == lib,
            r.inos() == Map::<u64, Sha1>::empty().insert(FUSE_ROOT_ID, lib.head_commit.root_id),
            r.open_map() == Map::<u64, FileReader>::empty(),
            r.next_ino() == FUSE_ROOT_ID + 1,
            r.next_fh() == 1,
    {
        let root_id = lib.head_commit.root_id;
        let mut table = ino_map_with_capacity(1);
        ino_map_reset(&mut table, FUSE_ROOT_ID, words_of(&root_id));
        let r = SeafFuse {
            lib,
            ino_table: table,
            open_file_table: HashMap::new(),
            ino_counter: FUSE_ROOT_ID + 1,
            file_handle_counter: 1,
        };
        proof {
            assert(r.inos() =~= Map::<u64, Sha1>::empty().insert(FUSE_ROOT_ID, root_id));
            assert(r.open_map() =~= Map::<u64, FileReader>::empty());
        }
        r
    }

    /// The hash an inode number names, or `EIO` for a number never handed
    /// out — that would be an internal invariant break.
    fn lookup_id_by_ino(&self, ino: u64) -> (r: Result<Sha1, Errno>)
        ensures
            match r {
                Ok(h) => self.inos().dom().contains(ino) && self.inos()[ino] == h,
                Err(e) => e matches Errno::EIO && !self.inos().dom().contains(ino),
            },
    {
        match ino_map_get_by_left(&self.ino_table, ino) {
            Some(w) => {
                let h = Sha1 { w0: w.0, w1: w.1, w2: w.2, w3: w.3, w4: w.4 };
                proof {
                    assert(self.inos()[ino] == sha_of_words(ino_map_of(self.ino_table)[ino]));
                }
                Ok(h)
            },
            None => Err(Errno::EIO),
        }
    }

    /// Load the node an inode names; a failing load is `EIO`.
    fn lookup_fs_by_ino(&self, ino: u64) -> (r: Result<FsJson, Errno>)
        ensures
            match r {
                Ok(fs) => self.inos().dom().contains(ino) && spec_load_fs(
                    self.repo(),
                    self.inos()[ino],
                ) == Some(fs@),
                Err(e) => e matches Errno::EIO && (!self.inos().dom().contains(ino) || (
                self.inos().dom().contains(ino) && spec_load_fs(self.repo(), self.inos()[ino])
                    is None)),
            },
    {
        let id = match self.lookup_id_by_ino(ino) {
            Ok(h) => h,
            Err(e) => {
                return Err(e);
            },
        };
        match self.lib.load_fs(id) {
            Ok(fs) => Ok(fs),
            Err(_) => Err(Errno::EIO),
        }
    }

    /// Allocate or reuse the inode number for a hash.  Numbers persist for
    /// the mount's lifetime; a fresh one comes from the counter.
    fn add_ino(&mut self, id: Sha1) -> (r: Result<u64, Errno>)
        ensures
            old(self).wf() ==> match r {
                Ok(ino) => {
                    &&& final(self).wf()
                    &&& final(self).inos().dom().contains(ino)
                    &&& final(self).inos()[ino] == id
                    &&& (if exists|k: u64|
                        old(self).inos().dom().contains(k) && old(self).inos()[k] == id {
                        final(self).inos() == old(self).inos() && final(self).next_ino() == old(
                            self,
                        ).next_ino()
                    } else {
                        ino == old(self).next_ino() && final(self).inos() == old(self).inos().insert(ino, id)
                            && final(self).next_ino() as int == old(self).next_ino() as int + 1
                    })
                    &&& final(self).library() == old(self).library()
                    &&& final(self).open_map() == old(self).open_map()
                    &&& final(self).next_fh() == old(self).next_fh()
                },
                Err(e) => {
                    &&& e matches Errno::EIO
                    &&& old(self).next_ino() == u64::MAX
                    &&& *final(self) == *old(self)
                },
            },
    {
        let w = words_of(&id);
        match ino_map_get_by_right(&self.ino_table, w) {
            Some(ino) => {
                proof {
                    if old(self).wf() {
                        assert(ino_map_of(self.ino_table).dom().contains(ino));
                        assert(self.inos().dom().contains(ino));
                        assert(self.inos()[ino] == sha_of_words(ino_map_of(self.ino_table)[ino]));
                        assert(sha_of_words(w) == id);
                        assert(self.inos()[ino] == id);
                        assert(exists|k: u64|
                            old(self).inos().dom().contains(k) && old(self).inos()[k] == id);
                    }
                }
                Ok(ino)
            },
            None => {
                if self.ino_counter == u64::MAX {
                    return Err(Errno::EIO);
                }
                let ino = self.ino_counter;
                match ino_map_get_by_left(&self.ino_table, ino) {
                    Some(_) => {
                        // Unreachable in a well-formed table: every allocated
                        // number lies below the counter.
                        proof {
                            if old(self).wf() {
                                assert(ino_map_of(self.ino_table).dom().contains(ino));
                                assert(self.inos().dom().contains(ino));
                                assert(false);
                            }
                        }
                        Err(Errno::EIO)
                    },
                    None => {
                        let ghost old_map = ino_map_of(self.ino_table);
                        ino_map_insert(&mut self.ino_table, ino, w);
                        self.ino_counter = self.ino_counter + 1;
                        proof {
                            if old(self).wf() {
                                assert forall|k: u64|
                                    old(self).inos().dom().contains(
                                        k,
                                    ) implies #[trigger] old(self).inos()[k] != id by {
                                    assert(old_map.dom().contains(k));
                                    assert(old(self).inos()[k] == sha_of_words(old_map[k]));
                                    assert(old_map[k] != w);
                                    assert(sha_of_words(w) == id);
                                }
                                assert(!(exists|k: u64|
                                    old(self).inos().dom().contains(k) && old(self).inos()[k]
                                        == id));
                                assert(self.inos() =~= old(self).inos().insert(ino, id)) by {
                                    assert(sha_of_words(w) == id);
                                }
                                assert forall|i: u64, j: u64|
                                    #![trigger self.inos().index(i), self.inos().index(j)]
                                    self.inos().dom().contains(i) && self.inos().dom().contains(j)
                                        && self.inos().index(i) == self.inos().index(
                                    j) implies i == j by {
                                    if i != ino && j != ino {
                                        assert(old(self).inos().dom().contains(i));
                                        assert(old(self).inos().dom().contains(j));
                                    } else if i == ino && j != ino {
                                        assert(old(self).inos()[j] == sha_of_words(
                                            old_map[j],
                                        ));
                                    } else if i != ino && j == ino {
                                        assert(old(self).inos()[i] == sha_of_words(
                                            old_map[i],
                                        ));
                                    }
                                }
                                assert(self.inos().dom().contains(FUSE_ROOT_ID));
                            }
                        }
                        Ok(ino)
                    },
                }
            },
        }
    }
}


/// The kind of a node.
pub open spec fn spec_kind(fs: FsModel) -> FileKind {
    match fs {
        FsModel::Dir(_) => FileKind::Directory,
        FsModel::File(_) => FileKind::RegularFile,
    }
}

/// The attribute getattr presents for an inode, when its node loads.
pub open spec fn spec_getattr(s: SeafFuse, ino: u64) -> Option<FileAttr> {
    if s.inos().dom().contains(ino) {
        match spec_load_fs(s.repo(), s.inos()[ino]) {
            Some(fs) => Some(spec_attr_of(fs, ino)),
            None => None,
        }
    } else {
        None
    }
}

fn attr_for(fs: &FsJson, ino: u64) -> (r: FileAttr)
    ensures
        r == spec_attr_of(fs@, ino),
{
    match fs {
        FsJson::Dir(_) => FileAttr {
            ino,
            size: 0,
            blocks: 0,
            kind: FileKind::Directory,
            perm: 0o755,
            nlink: 1,
            uid: 0,
            gid: 0,
            rdev: 0,
            blksize: 0,
            flags: 0,
        },
        FsJson::File(f) => FileAttr {
            ino,
            size: f.size,
            blocks: 0,
            kind: FileKind::RegularFile,
            perm: 0o644,
            nlink: 1,
            uid: 0,
            gid: 0,
            rdev: 0,
            blksize: 0,
            flags: 0,
        },
    }
}

proof fn lemma_find_dirent_skip(dirents: Seq<DirentModel>, name: Seq<char>, i: int)
    requires
        0 <= i <= dirents.len(),
        forall|j: int| 0 <= j < i ==> (#[trigger] dirents[j]).name != name,
    ensures
        spec_find_dirent(dirents, name) == spec_find_dirent(dirents.skip(i), name),
    decreases i,
{
    reveal_with_fuel(spec_find_dirent, 3);
    assert(dirents.skip(0) =~= dirents);
    if i > 0 {
        lemma_find_dirent_skip(dirents, name, i - 1);
        assert(dirents.skip(i - 1).drop_first() =~= dirents.skip(i));
        assert(dirents.skip(i - 1)[0] == dirents[i - 1]);
    }
}

impl SeafFuse {
    /// Resolve `name` under a parent directory inode: allocate or reuse the
    /// entry's inode and present its attributes.
    pub fn do_lookup(&mut self, parent: u64, name: &str) -> (r: Result<FileAttr, Errno>)
        ensures
            old(self).wf() ==> {
                &&& final(self).wf()
                &&& final(self).library() == old(self).library()
                &&& final(self).open_map() == old(self).open_map()
                &&& final(self).next_fh() == old(self).next_fh()
                &&& forall|k: u64|
                    #![trigger old(self).inos().dom().contains(k)]
                    old(self).inos().dom().contains(k) ==> final(self).inos().dom().contains(k)
                        && final(self).inos()[k] == old(self).inos()[k]
                &&& match r {
                    Ok(attr) => {
                        &&& old(self).inos().dom().contains(parent)
                        &&& (spec_load_fs(old(self).repo(), old(self).inos()[parent])
                            matches Some(FsModel::Dir(d)) && spec_find_dirent(d.dirents, name@)
                            matches Some(de) && spec_load_fs(old(self).repo(), de.id)
                            matches Some(fs2) && attr == spec_attr_of(fs2, attr.ino) && final(self).inos().dom().contains(attr.ino) && final(self).inos()[attr.ino] == de.id
                            && spec_getattr(*final(self), attr.ino) == Some(attr))
                    },
                    Err(Errno::ENOENT) => {
                        &&& old(self).inos().dom().contains(parent)
                        &&& (spec_load_fs(old(self).repo(), old(self).inos()[parent])
                            matches Some(FsModel::Dir(d)) && spec_find_dirent(d.dirents, name@)
                            is None)
                        &&& final(self).inos() == old(self).inos()
                    },
                    Err(Errno::ENOTDIR) => {
                        &&& old(self).inos().dom().contains(parent)
                        &&& spec_load_fs(old(self).repo(), old(self).inos()[parent]) matches Some(
                            FsModel::File(_),
                        )
                    },
                    Err(Errno::EIO) => {
                        ||| !old(self).inos().dom().contains(parent)
                        ||| (old(self).inos().dom().contains(parent) && spec_load_fs(
                            old(self).repo(),
                            old(self).inos()[parent],
                        ) is None)
                        ||| old(self).next_ino() == u64::MAX
                        ||| (spec_load_fs(old(self).repo(), old(self).inos()[parent])
                            matches Some(FsModel::Dir(d)) && spec_find_dirent(d.dirents, name@)
                            matches Some(de) && spec_load_fs(old(self).repo(), de.id) is None)
                    },
                    Err(_) => false,
                }
            },
    {
        let parent_id = match self.lookup_id_by_ino(parent) {
            Ok(h) => h,
            Err(e) => {
                return Err(e);
            },
        };
        let parent_fs = match self.lib.load_fs(parent_id) {
            Ok(fs) => fs,
            Err(_) => {
                return Err(Errno::EIO);
            },
        };
        let dir = match parent_fs.try_dir() {
            Ok(d) => d,
            Err(_) => {
                return Err(Errno::ENOTDIR);
            },
        };
        let n: usize = dir.dirents.len();
        let mut i: usize = 0;
        while i < n
            invariant
                0 <= i <= n,
                n == dir.dirents@.len(),
                *self == *old(self),
                old(self).inos().dom().contains(parent),
                old(self).inos()[parent] == parent_id,
                spec_load_fs(old(self).repo(), parent_id) == Some(FsModel::Dir(dir@)),
                forall|j: int|
                    0 <= j < i ==> (#[trigger] dir.dirents@[j])@.name != name@,
            decreases n - i,
        {
            if crate::store::str_eq(dir.dirents[i].name.as_str(), name) {
                let de_id = dir.dirents[i].id;
                proof {
                    let dm = dir.dirents@.map_values(|x: DirentJson| x@);
                    lemma_find_dirent_skip(dm, name@, i as int);
                    reveal_with_fuel(spec_find_dirent, 2);
                    assert(dm.skip(i as int)[0] == dm[i as int]);
                    assert(spec_find_dirent(dm, name@) == Some(dm[i as int]));
                }
                let attr_ino = match self.add_ino(de_id) {
                    Ok(x) => x,
                    Err(e) => {
                        return Err(e);
                    },
                };
                let child = match self.lib.load_fs(de_id) {
                    Ok(fs) => fs,
                    Err(_) => {
                        return Err(Errno::EIO);
                    },
                };
                let attr = attr_for(&child, attr_ino);
                return Ok(attr);
            }
            i = i + 1;
        }
        proof {
            let dm = dir.dirents@.map_values(|x: DirentJson| x@);
            lemma_find_dirent_skip(dm, name@, n as int);
            reveal_with_fuel(spec_find_dirent, 2);
            assert(dm.skip(n as int).len() == 0);
        }
        Err(Errno::ENOENT)
    }

    /// The attributes of the node an inode names.
    pub fn do_getattr(&self, ino: u64) -> (r: Result<FileAttr, Errno>)
        ensures
            match r {
                Ok(attr) => spec_getattr(*self, ino) == Some(attr),
                Err(e) => e matches Errno::EIO && spec_getattr(*self, ino) is None,
            },
    {
        let fs = match self.lookup_fs_by_ino(ino) {
            Ok(fs) => fs,
            Err(e) => {
                return Err(e);
            },
        };
        Ok(attr_for(&fs, ino))
    }
}

/// Law: within one mount the inode table is a bijection — two inode
/// numbers naming the same hash are the same number.
pub proof fn lemma_ino_table_injective(s: SeafFuse, i: u64, j: u64)
    requires
        s.wf(),
        s.inos().dom().contains(i),
        s.inos().dom().contains(j),
        s.inos()[i] == s.inos()[j],
    ensures
        i == j,
{
}

/// Law: an attribute handed out by lookup agrees with what getattr then
/// presents for its inode: whenever the state maps `attr.ino` to a hash
/// whose node loads as `fs` with `attr == spec_attr_of(fs, attr.ino)`,
/// getattr presents exactly `attr`.
pub proof fn lemma_lookup_getattr_agree(s: SeafFuse, attr: FileAttr, id: Sha1)
    requires
        s.inos().dom().contains(attr.ino),
        s.inos()[attr.ino] == id,
        spec_load_fs(s.repo(), id) matches Some(fs) && attr == spec_attr_of(fs, attr.ino),
    ensures
        spec_getattr(s, attr.ino) == Some(attr),
{
}


impl SeafFuse {
    /// List a directory inode: every entry in stored order, each with its
    /// allocated inode and its kind.
    #[verifier::rlimit(100)]
    #[verifier::spinoff_prover]
    pub fn do_readdir(&mut self, ino: u64) -> (r: Result<Vec<Dentry>, Errno>)
        ensures
            old(self).wf() ==> {
                &&& final(self).wf()
                &&& final(self).library() == old(self).library()
                &&& final(self).open_map() == old(self).open_map()
                &&& final(self).next_fh() == old(self).next_fh()
                &&& forall|k: u64|
                    #![trigger old(self).inos().dom().contains(k)]
                    old(self).inos().dom().contains(k) ==> final(self).inos().dom().contains(k)
                        && final(self).inos()[k] == old(self).inos()[k]
                &&& match r {
                    Ok(v) => {
                        &&& old(self).inos().dom().contains(ino)
                        &&& (spec_load_fs(old(self).repo(), old(self).inos()[ino]) matches Some(
                            FsModel::Dir(d),
                        ) && v@.len() == d.dirents.len() && (forall|q: int|
                            0 <= q < v@.len() ==> (#[trigger] v@[q]).name@ == d.dirents[q].name
                                && final(self).inos().dom().contains(v@[q].ino) && final(self).inos()[v@[q].ino] == d.dirents[q].id && spec_load_fs(
                                old(self).repo(),
                                d.dirents[q].id,
                            ) is Some && v@[q].kind == spec_kind(
                                spec_load_fs(old(self).repo(), d.dirents[q].id).unwrap(),
                            )))
                    },
                    Err(Errno::ENOTDIR) => {
                        &&& old(self).inos().dom().contains(ino)
                        &&& spec_load_fs(old(self).repo(), old(self).inos()[ino]) matches Some(
                            FsModel::File(_),
                        )
                    },
                    Err(Errno::EIO) => {
                        ||| !old(self).inos().dom().contains(ino)
                        ||| spec_load_fs(old(self).repo(), old(self).inos()[ino]) is None
                        ||| (spec_load_fs(old(self).repo(), old(self).inos()[ino]) matches Some(
                            FsModel::Dir(d),
                        ) && (exists|q: int|
                            0 <= q < d.dirents.len() && spec_load_fs(
                                old(self).repo(),
                                (#[trigger] d.dirents[q]).id,
                            ) is None))
                        ||| (spec_load_fs(old(self).repo(), old(self).inos()[ino]) matches Some(
                            FsModel::Dir(d),
                        ) && old(self).next_ino() as int + d.dirents.len() > u64::MAX)
                    },
                    Err(_) => false,
                }
            },
    {
        let id = match self.lookup_id_by_ino(ino) {
            Ok(h) => h,
            Err(e) => {
                return Err(e);
            },
        };
        let fs = match self.lib.load_fs(id) {
            Ok(fs) => fs,
            Err(_) => {
                return Err(Errno::EIO);
            },
        };
        let dir = match fs.try_dir() {
            Ok(d) => d,
            Err(_) => {
                return Err(Errno::ENOTDIR);
            },
        };
        let mut results: Vec<Dentry> = Vec::new();
        let n: usize = dir.dirents.len();
        let mut i: usize = 0;
        while i < n
            invariant
                0 <= i <= n,
                n == dir.dirents@.len(),
                results@.len() == i,
                old(self).inos().dom().contains(ino),
                old(self).inos()[ino] == id,
                spec_load_fs(old(self).repo(), id) == Some(FsModel::Dir(dir@)),
                old(self).wf() ==> {
                    &&& self.wf()
                    &&& self.library() == old(self).library()
                    &&& self.open_map() == old(self).open_map()
                    &&& self.next_fh() == old(self).next_fh()
                    &&& self.next_ino() as int <= old(self).next_ino() as int + i
                    &&& forall|k: u64|
                        #![trigger old(self).inos().dom().contains(k)]
                        old(self).inos().dom().contains(k) ==> self.inos().dom().contains(k)
                            && self.inos()[k] == old(self).inos()[k]
                    &&& forall|q: int|
                        0 <= q < i ==> (#[trigger] results@[q]).name@ == dir@.dirents[q].name
                            && self.inos().dom().contains(results@[q].ino) && self.inos()[results@[q].ino]
                            == dir@.dirents[q].id && spec_load_fs(
                            old(self).repo(),
                            dir@.dirents[q].id,
                        ) is Some && results@[q].kind == spec_kind(
                            spec_load_fs(old(self).repo(), dir@.dirents[q].id).unwrap(),
                        )
                },
            decreases n - i,
        {
            let ghost pre = *self;
            let de_id = dir.dirents[i].id;
            let de_ino = match self.add_ino(de_id) {
                Ok(x) => x,
                Err(e) => {
                    proof {
                        if old(self).wf() {
                            assert(self.wf());
                            assert(self.library() == old(self).library());
                            assert(self.open_map() == old(self).open_map());
                            assert(self.next_fh() == old(self).next_fh());
                            assert(forall|k: u64|
                                #![trigger self.inos().dom().contains(k)]
                                old(self).inos().dom().contains(k)
                                    ==> self.inos().dom().contains(k) && self.inos()[k] == old(
                                    self,
                                ).inos()[k]);
                            assert(self.next_ino() == u64::MAX);
                            assert(old(self).next_ino() as int + i >= u64::MAX);
                            assert(i < dir@.dirents.len());
                            assert(old(self).next_ino() as int + dir@.dirents.len() > u64::MAX);
                            assert(e matches Errno::EIO);
                        }
                    }
                    return Err(e);
                },
            };
            let child = match self.lib.load_fs(de_id) {
                Ok(fs) => fs,
                Err(_) => {
                    proof {
                        if old(self).wf() {
                            assert(self.library() == old(self).library());
                            assert(self.repo() == old(self).repo());
                            assert(spec_load_fs(old(self).repo(), dir@.dirents[i as int].id)
                                is None);
                            assert(0 <= i < dir@.dirents.len());
                            assert(exists|q: int|
                                0 <= q < dir@.dirents.len() && spec_load_fs(
                                    old(self).repo(),
                                    (#[trigger] dir@.dirents[q]).id,
                                ) is None);
                        }
                    }
                    return Err(Errno::EIO);
                },
            };
            let kind = match &child {
                FsJson::Dir(_) => FileKind::Directory,
                FsJson::File(_) => FileKind::RegularFile,
            };
            let name = crate::walker::clone_string(&dir.dirents[i].name);
            proof {
                if old(self).wf() {
                    assert(dir@.dirents[i as int].name == dir.dirents@[i as int]@.name);
                    assert forall|q: int| 0 <= q < i implies (#[trigger] results@[q]).name@
                        == dir@.dirents[q].name && self.inos().dom().contains(results@[q].ino)
                        && self.inos()[results@[q].ino] == dir@.dirents[q].id && spec_load_fs(
                        old(self).repo(),
                        dir@.dirents[q].id,
                    ) is Some && results@[q].kind == spec_kind(
                        spec_load_fs(old(self).repo(), dir@.dirents[q].id).unwrap(),
                    ) by {
                        assert(pre.inos().dom().contains(results@[q].ino));
                    }
                }
            }
            results.push(Dentry { ino: de_ino, kind, name });
            i = i + 1;
        }
        Ok(results)
    }

    /// Open a file inode: build a reader at position zero and hand out a
    /// fresh file handle.  Opening a directory is refused with `EINVAL`.
    #[verifier::rlimit(100)]
    #[verifier::spinoff_prover]
    pub fn do_open(&mut self, ino: u64) -> (r: Result<u64, Errno>)
        ensures
            old(self).wf() ==> {
                &&& final(self).wf()
                &&& final(self).library() == old(self).library()
                &&& final(self).inos() == old(self).inos()
                &&& final(self).next_ino() == old(self).next_ino()
                &&& match r {
                    Ok(fh) => {
                        &&& old(self).inos().dom().contains(ino)
                        &&& (spec_load_fs(old(self).repo(), old(self).inos()[ino]) matches Some(
                            FsModel::File(f),
                        ) && !old(self).open_map().dom().contains(fh) && final(self).open_map().dom() =~= old(self).open_map().dom().insert(fh) && (forall|h: u64|
                            #![trigger old(self).open_map().dom().contains(h)]
                            old(self).open_map().dom().contains(h) ==> final(self).open_map()[h]
                                == old(self).open_map()[h]) && final(self).open_map()[fh].pos() == 0 && final(self).open_map()[fh].content()
                            == crate::blocks::spec_file_content(old(self).repo(), f.block_ids))
                    },
                    Err(Errno::EINVAL) => {
                        &&& old(self).inos().dom().contains(ino)
                        &&& spec_load_fs(old(self).repo(), old(self).inos()[ino]) matches Some(
                            FsModel::Dir(_),
                        )
                        &&& final(self).open_map() == old(self).open_map()
                    },
                    Err(Errno::EIO) => {
                        &&& final(self).open_map() == old(self).open_map()
                        &&& {
                            ||| !old(self).inos().dom().contains(ino)
                            ||| spec_load_fs(old(self).repo(), old(self).inos()[ino]) is None
                            ||| (spec_load_fs(old(self).repo(), old(self).inos()[ino])
                                matches Some(FsModel::File(f)) && !(crate::blocks::blocks_present(
                                old(self).repo(),
                                f.block_ids,
                            ) && crate::blocks::spec_file_content(old(self).repo(), f.block_ids).len()
                                <= u64::MAX))
                            ||| (forall|h: u64|
                                old(self).next_fh() <= h < u64::MAX ==> #[trigger] old(self).open_map().dom().contains(h))
                        }
                    },
                    Err(_) => false,
                }
            },
    {
        while self.open_file_table.contains_key(&self.file_handle_counter)
            invariant
                self.lib == old(self).lib,
                self.ino_table == old(self).ino_table,
                self.open_file_table == old(self).open_file_table,
                self.ino_counter == old(self).ino_counter,
                self.file_handle_counter >= old(self).file_handle_counter,
                forall|h: u64|
                    old(self).next_fh() <= h < self.file_handle_counter ==> #[trigger] self.open_map().dom().contains(
                        h,
                    ),
            decreases u64::MAX - self.file_handle_counter,
        {
            proof {
                assert(self.open_file_table@.dom().contains(self.file_handle_counter));
                assert(self.open_map().dom().contains(self.file_handle_counter));
            }
            if self.file_handle_counter == u64::MAX {
                proof {
                    assert forall|h: u64|
                        old(self).next_fh() <= h < u64::MAX implies #[trigger] old(self).open_map().dom().contains(h) by {
                        assert(self.open_map().dom().contains(h));
                    }
                }
                return Err(Errno::EIO);
            }
            self.file_handle_counter = self.file_handle_counter + 1;
        }
        let id = match self.lookup_id_by_ino(ino) {
            Ok(h) => h,
            Err(e) => {
                return Err(e);
            },
        };
        let fs = match self.lib.load_fs(id) {
            Ok(fs) => fs,
            Err(_) => {
                return Err(Errno::EIO);
            },
        };
        let file = match fs.try_file() {
            Ok(f) => f,
            Err(_) => {
                return Err(Errno::EINVAL);
            },
        };
        let reader = match self.lib.file_reader(&file) {
            Ok(rd) => rd,
            Err(_) => {
                return Err(Errno::EIO);
            },
        };
        let fh = self.file_handle_counter;
        proof {
            assert(!self.open_file_table@.dom().contains(fh));
            assert(!self.open_map().dom().contains(fh));
            assert(!old(self).open_map().dom().contains(fh));
        }
        if fh == u64::MAX {
            proof {
                assert forall|h: u64|
                    old(self).next_fh() <= h < u64::MAX implies #[trigger] old(self).open_map().dom().contains(h) by {
                    assert(self.open_map().dom().contains(h));
                }
            }
            return Err(Errno::EIO);
        }
        self.file_handle_counter = fh + 1;
        let ghost pre_map = self.open_file_table@;
        let ghost the_reader = reader;
        self.open_file_table.insert(fh, OpenFile { reader });
        proof {
            assert(pre_map == old(self).open_file_table@);
            assert(self.open_file_table@ == pre_map.insert(fh, OpenFile { reader: the_reader }));
            assert(self.open_map() =~= old(self).open_map().insert(fh, the_reader));
            assert(self.open_map().dom() =~= old(self).open_map().dom().insert(fh));
            assert(self.open_map()[fh] == the_reader);
            assert(self.open_map()[fh].pos() == 0);
            assert forall|h: u64|
                #![trigger old(self).open_map().dom().contains(h)]
                old(self).open_map().dom().contains(h) implies self.open_map()[h] == old(
                self,
            ).open_map()[h] by {
                assert(h != fh);
            }
        }
        Ok(fh)
    }

    /// Close a file handle; an unknown handle is `EBADF`.
    pub fn do_release(&mut self, fh: u64) -> (r: Result<(), Errno>)
        ensures
            final(self).library() == old(self).library(),
            final(self).inos() == old(self).inos(),
            final(self).next_ino() == old(self).next_ino(),
            final(self).next_fh() == old(self).next_fh(),
            old(self).wf() ==> final(self).wf(),
            match r {
                Ok(_) => old(self).open_map().dom().contains(fh) && final(self).open_map() == old(self).open_map().remove(fh),
                Err(e) => e matches Errno::EBADF && !old(self).open_map().dom().contains(fh)
                    && final(self).open_map() == old(self).open_map(),
            },
    {
        let ghost pre_map = self.open_file_table@;
        match self.open_file_table.remove(&fh) {
            Some(_) => {
                proof {
                    assert(self.open_file_table@ == pre_map.remove(fh));
                    assert(self.open_map() =~= pre_map.map_values(|of: OpenFile| of.reader).remove(
                        fh,
                    ));
                }
                Ok(())
            },
            None => {
                proof {
                    assert(self.open_file_table@ == pre_map.remove(fh));
                    assert(self.open_map() =~= pre_map.map_values(|of: OpenFile| of.reader));
                }
                Err(Errno::EBADF)
            },
        }
    }

    /// Read up to `size` bytes at `offset` through an open handle: exactly
    /// the file's bytes there, clipped to its end.  A negative offset is
    /// refused; an unknown handle is `EBADF`.
    pub fn do_read(&mut self, fh: u64, offset: i64, size: u32) -> (r: Result<Vec<u8>, Errno>)
        ensures
            final(self).library() == old(self).library(),
            final(self).inos() == old(self).inos(),
            final(self).next_ino() == old(self).next_ino(),
            final(self).next_fh() == old(self).next_fh(),
            old(self).wf() ==> final(self).wf(),
            match r {
                Ok(data) => {
                    &&& offset >= 0
                    &&& old(self).open_map().dom().contains(fh)
                    &&& data@ == old(self).open_map()[fh].content().subrange(
                        vstd::math::min(
                            offset as int,
                            old(self).open_map()[fh].content().len() as int,
                        ),
                        vstd::math::min(
                            offset as int + size as usize as int,
                            old(self).open_map()[fh].content().len() as int,
                        ),
                    )
                    &&& final(self).open_map() == old(self).open_map().insert(
                        fh,
                        final(self).open_map()[fh],
                    )
                    &&& final(self).open_map()[fh].content() == old(self).open_map()[fh].content()
                    &&& final(self).open_map()[fh].pos() == offset + data@.len()
                },
                Err(Errno::EINVAL) => offset < 0 && final(self).open_map() == old(self).open_map(),
                Err(Errno::EBADF) => offset >= 0 && !old(self).open_map().dom().contains(fh)
                    && final(self).open_map() == old(self).open_map(),
                Err(_) => false,
            },
    {
        if offset < 0 {
            return Err(Errno::EINVAL);
        }
        let ghost pre_map = self.open_file_table@;
        let mut of = match self.open_file_table.remove(&fh) {
            Some(of) => of,
            None => {
                proof {
                    assert(self.open_file_table@ == pre_map.remove(fh));
                    assert(self.open_map() =~= pre_map.map_values(|x: OpenFile| x.reader));
                }
                return Err(Errno::EBADF);
            },
        };
        proof {
            assert(pre_map.map_values(|x: OpenFile| x.reader)[fh] == of.reader);
        }
        let sk = of.reader.seek(crate::blocks::SeekFrom::Start(offset as u64));
        proof {
            assert(sk is Ok);
        }
        let data = match of.reader.read(size as usize) {
            Ok(d) => d,
            Err(_) => {
                proof {
                    assert(false);
                }
                return Err(Errno::EIO);
            },
        };
        self.open_file_table.insert(fh, of);
        proof {
            assert(self.open_file_table@ == pre_map.remove(fh).insert(
                fh,
                self.open_file_table@[fh],
            ));
            assert(self.open_map() =~= pre_map.map_values(|x: OpenFile| x.reader).insert(
                fh,
                self.open_map()[fh],
            ));
        }
        Ok(data)
    }

    /// Access checks always succeed: the filesystem is read-only.
    pub fn do_access(&self) -> (r: bool)
        ensures
            r,
    {
        true
    }
}

} // verus!

//! Opening a repository and resolving objects through its stores.
//!
//! A `Library` pairs an object store image with the head commit selected
//! from it: the commit with the numerically largest `ctime`, ties going to
//! the one seen first.  `load_fs` is the single narrow interface to the
//! fs-node store; all higher components compose on it.

use crate::decode::{parse_commit, parse_fs_json, spec_parse_commit, spec_parse_fs_obj};
use crate::error::{IoKind, SeafError};
use crate::hash::Sha1;
use crate::node::{CommitJson, CommitModel, DirModel, FileJson, FsJson, FsModel};
use crate::store::{
    LibraryLocation, ObjectList, Repo, full_obj_path, obj_path_chars, arc_clone, store_get,
};
use std::sync::Arc;
use vstd::prelude::*;

verus! {

/// An opened repository: its location, its object stores and its head commit.
#[derive(Debug)]
pub struct Library {
    pub location: Arc<LibraryLocation>,
    pub store: Arc<Repo>,
    pub head_commit: CommitJson,
}

/// The fs-node stored under `id`: the sentinel zero hash denotes an empty
/// directory with no stored object.
pub open spec fn spec_load_fs(repo: Repo, id: Sha1) -> Option<FsModel> {
    if id.spec_is_zero() {
        Some(FsModel::Dir(DirModel { dirents: Seq::empty(), ty: 0, version: 0 }))
    } else {
        match repo.fs_at(id) {
            Some(bytes) => spec_parse_fs_obj(bytes),
            None => None,
        }
    }
}

/// The commit stored under `id`, decoded.
pub open spec fn spec_commit_obj(repo: Repo, id: Sha1) -> Option<CommitModel> {
    match repo.commit_at(id) {
        Some(bytes) => spec_parse_commit(bytes),
        None => None,
    }
}

/// The head scan continued from entry `i` with the best commit so far.
/// The outer `None` means some entry failed to decode; the inner `None`
/// that no commit was seen.
pub open spec fn spec_scan_head_from(
    commits: Seq<(Sha1, Vec<u8>)>,
    i: int,
    acc: Option<CommitModel>,
) -> Option<Option<CommitModel>>
    decreases commits.len() - i,
{
    if i < 0 || i >= commits.len() {
        Some(acc)
    } else {
        match spec_parse_commit(commits[i].1@) {
            Some(c) => spec_scan_head_from(
                commits,
                i + 1,
                if acc is None || c.ctime > acc.unwrap().ctime {
                    Some(c)
                } else {
                    acc
                },
            ),
            None => None,
        }
    }
}

/// The head commit of a store: the largest `ctime` wins, ties go to the
/// entry seen first.
pub open spec fn spec_scan_head(commits: Seq<(Sha1, Vec<u8>)>) -> Option<Option<CommitModel>> {
    spec_scan_head_from(commits, 0, None)
}

/// Scan every stored commit and keep the most recent one.
fn find_head_commit(location: &LibraryLocation, store: &Repo) -> (r: Result<CommitJson, SeafError>)
    ensures
        match r {
            Ok(c) => spec_scan_head(store.commits@) == Some(Some(c@)),
            Err(SeafError::NoHeadCommit) => spec_scan_head(store.commits@) == Some(
                None::<CommitModel>,
            ),
            Err(SeafError::ParseJson(_)) => spec_scan_head(store.commits@) is None,
            Err(_) => false,
        },
{
    let commits: &ObjectList = &store.commits;
    let n: usize = commits.len();
    let mut head: Option<CommitJson> = None;
    let mut i: usize = 0;
    while i < n
        invariant
            0 <= i <= n,
            n == commits@.len(),
            commits@ == store.commits@,
            spec_scan_head(commits@) == spec_scan_head_from(
                commits@,
                i as int,
                match head {
                    Some(ref h) => Some(h@),
                    None => None,
                },
            ),
        decreases n - i,
    {
        let entry_id = commits[i].0;
        match parse_commit(&commits[i].1) {
            Ok(c) => {
                let replace = match head {
                    Some(ref h) => c.ctime > h.ctime,
                    None => true,
                };
                if replace {
                    head = Some(c);
                }
            },
            Err(_) => {
                return Err(
                    SeafError::ParseJson(full_obj_path(location, "commits", &entry_id)),
                );
            },
        }
        i = i + 1;
    }
    match head {
        Some(h) => Ok(h),
        None => Err(SeafError::NoHeadCommit),
    }
}

/// Resolve one commit by hash, without scanning.
fn find_commit(location: &LibraryLocation, store: &Repo, id: Sha1) -> (r: Result<
    CommitJson,
    SeafError,
>)
    ensures
        match r {
            Ok(c) => spec_commit_obj(*store, id) == Some(c@),
            Err(e) => spec_commit_obj(*store, id) is None && (if store.commit_at(id) is None {
                e matches SeafError::IO(p, IoKind::NotFound) && p@ == obj_path_chars(
                    *location,
                    "commits"@,
                    id,
                )
            } else {
                e matches SeafError::ParseJson(p) && p@ == obj_path_chars(
                    *location,
                    "commits"@,
                    id,
                )
            }),
        },
{
    match store_get(&store.commits, &id) {
        None => Err(
            SeafError::IO(full_obj_path(location, "commits", &id), IoKind::NotFound),
        ),
        Some(bytes) => match parse_commit(bytes) {
            Ok(c) => Ok(c),
            Err(_) => Err(SeafError::ParseJson(full_obj_path(location, "commits", &id))),
        },
    }
}

impl Library {
    /// The repository image this library reads.
    pub open spec fn repo(self) -> Repo {
        *self.store
    }

    /// Open a repository: select the head commit from the stored commits.
    /// Fails with `NoHeadCommit` when the store holds none.
    pub fn open(repo_path: &str, uuid: &str, store: Repo) -> (r: Result<Library, SeafError>)
        ensures
            match r {
                Ok(lib) => {
                    &&& spec_scan_head(store.commits@) == Some(Some(lib.head_commit@))
                    &&& lib.repo() == store
                    &&& lib.location.repo_path@ == repo_path@
                    &&& lib.location.uuid@ == uuid@
                },
                Err(SeafError::NoHeadCommit) => spec_scan_head(store.commits@) == Some(
                    None::<CommitModel>,
                ),
                Err(SeafError::ParseJson(_)) => spec_scan_head(store.commits@) is None,
                Err(_) => false,
            },
    {
        let location = LibraryLocation {
            repo_path: repo_path.to_owned(),
            uuid: uuid.to_owned(),
        };
        let head_commit = match find_head_commit(&location, &store) {
            Ok(c) => c,
            Err(e) => {
                return Err(e);
            },
        };
        Ok(Library { location: Arc::new(location), store: Arc::new(store), head_commit })
    }

    /// Open a repository at a specific commit; no scan is made.
    pub fn open_for_commit(repo_path: &str, uuid: &str, store: Repo, commit_id: Sha1) -> (r: Result<
        Library,
        SeafError,
    >)
        ensures
            match r {
                Ok(lib) => {
                    &&& spec_commit_obj(store, commit_id) == Some(lib.head_commit@)
                    &&& lib.repo() == store
                    &&& lib.location.repo_path@ == repo_path@
                    &&& lib.location.uuid@ == uuid@
                },
                Err(e) => spec_commit_obj(store, commit_id) is None && (if store.commit_at(
                    commit_id,
                ) is None {
                    e matches SeafError::IO(p, IoKind::NotFound) && p@
                        == crate::store::obj_path_chars_of(repo_path@, uuid@, "commits"@, commit_id)
                } else {
                    e matches SeafError::ParseJson(p) && p@ == crate::store::obj_path_chars_of(
                        repo_path@,
                        uuid@,
                        "commits"@,
                        commit_id,
                    )
                }),
            },
    {
        let location = LibraryLocation {
            repo_path: repo_path.to_owned(),
            uuid: uuid.to_owned(),
        };
        let head_commit = match find_commit(&location, &store, commit_id) {
            Ok(c) => c,
            Err(e) => {
                return Err(e);
            },
        };
        Ok(Library { location: Arc::new(location), store: Arc::new(store), head_commit })
    }

    /// Load the fs-node stored under `id`.  The sentinel zero hash yields an
    /// empty directory without touching the store.
    pub fn load_fs(&self, id: Sha1) -> (r: Result<FsJson, SeafError>)
        ensures
            r is Ok <==> spec_load_fs(self.repo(), id) is Some,
            r matches Ok(fs) ==> Some(fs@) == spec_load_fs(self.repo(), id),
            r matches Err(e) ==> (if self.repo().fs_at(id) is None {
                e matches SeafError::IO(p, IoKind::NotFound) && p@ == obj_path_chars(
                    *self.location,
                    "fs"@,
                    id,
                )
            } else {
                e matches SeafError::ParseJson(p) && p@ == obj_path_chars(
                    *self.location,
                    "fs"@,
                    id,
                )
            }),
    {
        if id.is_zero() {
            return Ok(FsJson::empty_dir());
        }
        let repo: &Repo = &*self.store;
        match store_get(&repo.fs_objects, &id) {
            None => Err(SeafError::IO(full_obj_path(&self.location, "fs", &id), IoKind::NotFound)),
            Some(bytes) => match parse_fs_json(bytes) {
                Ok(fs) => Ok(fs),
                Err(_) => Err(
                    SeafError::ParseJson(full_obj_path(&self.location, "fs", &id)),
                ),
            },
        }
    }

    /// Load the fs-node under `id`, requiring a file.  A failing load is
    /// passed through unchanged, with the same variant and object path that
    /// `load_fs` names.
    pub fn file_by_id(&self, id: Sha1) -> (r: Result<FileJson, SeafError>)
        ensures
            match r {
                Ok(f) => spec_load_fs(self.repo(), id) == Some(FsModel::File(f@)),
                Err(SeafError::WrongFsType) => spec_load_fs(self.repo(), id) matches Some(
                    FsModel::Dir(_),
                ),
                Err(e) => spec_load_fs(self.repo(), id) is None && (if self.repo().fs_at(id)
                    is None {
                    e matches SeafError::IO(p, IoKind::NotFound) && p@ == obj_path_chars(
                        *self.location,
                        "fs"@,
                        id,
                    )
                } else {
                    e matches SeafError::ParseJson(p) && p@ == obj_path_chars(
                        *self.location,
                        "fs"@,
                        id,
                    )
                }),
            },
    {
        match self.load_fs(id) {
            Ok(fs) => fs.try_file(),
            Err(e) => Err(e),
        }
    }

    /// A cursor over the stored commits, in stored order.
    pub fn commit_iterator(&self) -> (r: CommitIterator<'_>)
        ensures
            r.commits@ == self.repo().commits@,
            r.idx == 0,
    {
        CommitIterator { commits: &self.store.commits, location: &self.location, idx: 0 }
    }
}

/// A cursor that decodes each stored commit in turn.
#[derive(Debug)]
pub struct CommitIterator<'a> {
    pub commits: &'a ObjectList,
    pub location: &'a LibraryLocation,
    pub idx: usize,
}

impl<'a> CommitIterator<'a> {
    /// A cursor over a commit store, from its first entry.
    pub fn new(commits: &'a ObjectList, location: &'a LibraryLocation) -> (r: CommitIterator<'a>)
        ensures
            r.commits@ == commits@,
            r.idx == 0,
    {
        CommitIterator { commits, location, idx: 0 }
    }

    /// Decode the next stored commit; `None` when the store is exhausted.
    pub fn next(&mut self) -> (r: Option<Result<CommitJson, SeafError>>)
        ensures
            final(self).commits@ == old(self).commits@,
            old(self).idx >= old(self).commits@.len() ==> r is None && final(self).idx == old(
                self,
            ).idx,
            old(self).idx < old(self).commits@.len() ==> {
                &&& final(self).idx == old(self).idx + 1
                &&& match r {
                    Some(Ok(c)) => spec_parse_commit(
                        old(self).commits@[old(self).idx as int].1@,
                    ) == Some(c@),
                    Some(Err(e)) => spec_parse_commit(old(self).commits@[old(self).idx as int].1@)
                        is None && e matches SeafError::ParseJson(_),
                    None => false,
                }
            },
    {
        let n: usize = self.commits.len();
        if self.idx >= n {
            return None;
        }
        let entry_id = self.commits[self.idx].0;
        let r = match parse_commit(&self.commits[self.idx].1) {
            Ok(c) => Some(Ok(c)),
            Err(_) => Some(
                Err(SeafError::ParseJson(full_obj_path(self.location, "commits", &entry_id))),
            ),
        };
        self.idx = self.idx + 1;
        r
    }
}


impl Library {
    /// A walker over the head commit's tree.
    pub fn fs_iterator(&self) -> (r: crate::walker::FsIterator<'_>)
        ensures
            r.model() == crate::walker::WalkerModel::AtRoot(self.head_commit.root_id),
            r.repo() == self.repo(),
    {
        crate::walker::FsIterator::new(self)
    }

    /// A walker over the head commit's tree.
    pub fn walk_fs(&self) -> (r: crate::walker::FsIterator<'_>)
        ensures
            r.model() == crate::walker::WalkerModel::AtRoot(self.head_commit.root_id),
            r.repo() == self.repo(),
    {
        crate::walker::FsIterator::new(self)
    }

    /// A seekable reader over a file's content, positioned at its start.
    pub fn file_reader(&self, file: &FileJson) -> (r: Result<crate::blocks::FileReader, SeafError>)
        ensures
            match r {
                Ok(fr) => {
                    &&& fr.pos() == 0
                    &&& fr.content() == crate::blocks::spec_file_content(
                        self.repo(),
                        file.block_ids@,
                    )
                    &&& crate::blocks::blocks_present(self.repo(), file.block_ids@)
                },
                Err(e) => {
                    &&& !(crate::blocks::blocks_present(self.repo(), file.block_ids@)
                        && crate::blocks::spec_file_content(self.repo(), file.block_ids@).len()
                        <= u64::MAX)
                    &&& (e matches SeafError::IO(_, IoKind::NotFound) || e
                        matches SeafError::NotImpl)
                },
            },
    {
        let fbr = match crate::blocks::FileBlockReader::new(
            file,
            arc_clone(&self.location),
            arc_clone(&self.store),
        ) {
            Ok(b) => b,
            Err(e) => {
                return Err(e);
            },
        };
        Ok(crate::blocks::FileReader::new(fbr))
    }

    /// A handle on one file's identity within this library.
    pub fn file_by_json(&self, file: &FileJson) -> (r: File)
        ensures
            r.block_ids@ == file.block_ids@,
            *r.store == self.repo(),
    {
        File {
            location: arc_clone(&self.location),
            store: arc_clone(&self.store),
            block_ids: crate::blocks::clone_ids(&file.block_ids),
        }
    }
}

/// A file's identity — its ordered block list — bound to the stores that
/// hold its blocks.
#[derive(Debug)]
pub struct File {
    pub location: Arc<LibraryLocation>,
    pub store: Arc<Repo>,
    pub block_ids: Vec<Sha1>,
}

impl File {
    /// A seekable reader over the file's content, positioned at its start.
    pub fn to_reader(self) -> (r: Result<crate::blocks::FileReader, SeafError>)
        ensures
            match r {
                Ok(fr) => {
                    &&& fr.pos() == 0
                    &&& fr.content() == crate::blocks::spec_file_content(
                        *self.store,
                        self.block_ids@,
                    )
                    &&& crate::blocks::blocks_present(*self.store, self.block_ids@)
                },
                Err(e) => {
                    &&& !(crate::blocks::blocks_present(*self.store, self.block_ids@)
                        && crate::blocks::spec_file_content(*self.store, self.block_ids@).len()
                        <= u64::MAX)
                    &&& (e matches SeafError::IO(_, IoKind::NotFound) || e
                        matches SeafError::NotImpl)
                },
            },
    {
        let f = FileJson { block_ids: self.block_ids, size: 0, ty: 0, version: 0 };
        let fbr = match crate::blocks::FileBlockReader::new(&f, self.location, self.store) {
            Ok(b) => b,
            Err(e) => {
                return Err(e);
            },
        };
        Ok(crate::blocks::FileReader::new(fbr))
    }
}


proof fn lemma_scan_head_from_props(
    commits: Seq<(Sha1, Vec<u8>)>,
    i: int,
    acc: Option<CommitModel>,
    c: CommitModel,
)
    requires
        0 <= i <= commits.len(),
        spec_scan_head_from(commits, i, acc) == Some(Some(c)),
    ensures
        acc == Some(c) || exists|j: int|
            i <= j < commits.len() && spec_parse_commit((#[trigger] commits[j]).1@) == Some(c),
        forall|j: int|
            i <= j < commits.len() ==> (spec_parse_commit((#[trigger] commits[j]).1@)
                matches Some(cj) ==> cj.ctime <= c.ctime),
        acc matches Some(a) ==> a.ctime <= c.ctime,
    decreases commits.len() - i,
{
    if i < commits.len() {
        let parsed = spec_parse_commit(commits[i].1@);
        assert(parsed is Some);
        let ci = parsed.unwrap();
        let acc2 = if acc is None || ci.ctime > acc.unwrap().ctime {
            Some(ci)
        } else {
            acc
        };
        lemma_scan_head_from_props(commits, i + 1, acc2, c);
        if acc2 == Some(c) && acc != Some(c) {
            assert(spec_parse_commit(commits[i].1@) == Some(c));
        }
        assert forall|j: int|
            i <= j < commits.len() implies (spec_parse_commit((#[trigger] commits[j]).1@)
            matches Some(cj) ==> cj.ctime <= c.ctime) by {
            if j == i {
                assert(ci.ctime <= acc2.unwrap().ctime);
            }
        }
    }
}

/// Law: the head commit selected by a scan is one of the stored commits,
/// and no stored commit has a numerically larger `ctime`.
pub proof fn lemma_head_is_most_recent(commits: Seq<(Sha1, Vec<u8>)>, c: CommitModel)
    requires
        spec_scan_head(commits) == Some(Some(c)),
    ensures
        exists|j: int|
            0 <= j < commits.len() && spec_parse_commit((#[trigger] commits[j]).1@) == Some(c),
        forall|j: int|
            0 <= j < commits.len() ==> (spec_parse_commit((#[trigger] commits[j]).1@)
                matches Some(cj) ==> cj.ctime <= c.ctime),
{
    lemma_scan_head_from_props(commits, 0, None, c);
}

} // verus!

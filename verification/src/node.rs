//! The decoded repository objects: commits, directories and files.
//!
//! A commit names the root of an fs-node tree.  An fs-node is either a file
//! (an ordered list of block hashes and a size) or a directory (an ordered
//! list of named entries).  The stored JSON has no discriminator field: a
//! node with a `block_ids` array is a file, one with `dirents` a directory.

use crate::error::SeafError;
use crate::hash::Sha1;
use vstd::prelude::*;

verus! {

/// A decoded commit object.
#[derive(Debug, Clone, PartialEq)]
pub struct CommitJson {
    pub commit_id: Sha1,
    pub root_id: Sha1,
    pub repo_id: String,
    pub creator_name: String,
    pub creator: String,
    pub description: String,
    pub ctime: u64,
    pub parent_id: Option<Sha1>,
    pub second_parent_id: Option<Sha1>,
    pub repo_name: String,
    pub repo_desc: String,
    pub repo_category: Option<String>,
    pub no_local_history: u32,
    pub version: u32,
}

/// The mathematical value of a commit.
pub ghost struct CommitModel {
    pub commit_id: Sha1,
    pub root_id: Sha1,
    pub repo_id: Seq<char>,
    pub creator_name: Seq<char>,
    pub creator: Seq<char>,
    pub description: Seq<char>,
    pub ctime: u64,
    pub parent_id: Option<Sha1>,
    pub second_parent_id: Option<Sha1>,
    pub repo_name: Seq<char>,
    pub repo_desc: Seq<char>,
    pub repo_category: Option<Seq<char>>,
    pub no_local_history: u32,
    pub version: u32,
}

impl View for CommitJson {
    type V = CommitModel;

    open spec fn view(&self) -> CommitModel {
        CommitModel {
            commit_id: self.commit_id,
            root_id: self.root_id,
            repo_id: self.repo_id@,
            creator_name: self.creator_name@,
            creator: self.creator@,
            description: self.description@,
            ctime: self.ctime,
            parent_id: self.parent_id,
            second_parent_id: self.second_parent_id,
            repo_name: self.repo_name@,
            repo_desc: self.repo_desc@,
            repo_category: match self.repo_category {
                Some(ref s) => Some(s@),
                None => None,
            },
            no_local_history: self.no_local_history,
            version: self.version,
        }
    }
}

/// A decoded file node: content is the concatenation of the named blocks.
#[derive(Debug, Clone, PartialEq)]
pub struct FileJson {
    pub block_ids: Vec<Sha1>,
    pub size: u64,
    pub ty: u32,
    pub version: u32,
}

/// The mathematical value of a file node.
pub ghost struct FileModel {
    pub block_ids: Seq<Sha1>,
    pub size: u64,
    pub ty: u32,
    pub version: u32,
}

impl View for FileJson {
    type V = FileModel;

    open spec fn view(&self) -> FileModel {
        FileModel {
            block_ids: self.block_ids@,
            size: self.size,
            ty: self.ty,
            version: self.version,
        }
    }
}

/// A named child of a directory.
#[derive(Debug, Clone, PartialEq)]
pub struct DirentJson {
    pub id: Sha1,
    pub mode: u32,
    pub mtime: u64,
    pub name: String,
}

/// The mathematical value of a directory entry.
pub ghost struct DirentModel {
    pub id: Sha1,
    pub mode: u32,
    pub mtime: u64,
    pub name: Seq<char>,
}

impl View for DirentJson {
    type V = DirentModel;

    open spec fn view(&self) -> DirentModel {
        DirentModel { id: self.id, mode: self.mode, mtime: self.mtime, name: self.name@ }
    }
}

/// A decoded directory node, entries in stored order.
#[derive(Debug, Clone, PartialEq)]
pub struct DirJson {
    pub dirents: Vec<DirentJson>,
    pub ty: u32,
    pub version: u32,
}

/// The mathematical value of a directory node.
pub ghost struct DirModel {
    pub dirents: Seq<DirentModel>,
    pub ty: u32,
    pub version: u32,
}

impl View for DirJson {
    type V = DirModel;

    open spec fn view(&self) -> DirModel {
        DirModel {
            dirents: self.dirents@.map_values(|d: DirentJson| d@),
            ty: self.ty,
            version: self.version,
        }
    }
}

/// An fs-node: a file or a directory.
#[derive(Debug, Clone)]
pub enum FsJson {
    File(FileJson),
    Dir(DirJson),
}

/// The mathematical value of an fs-node.
pub ghost enum FsModel {
    File(FileModel),
    Dir(DirModel),
}

impl View for FsJson {
    type V = FsModel;

    open spec fn view(&self) -> FsModel {
        match self {
            FsJson::File(f) => FsModel::File(f@),
            FsJson::Dir(d) => FsModel::Dir(d@),
        }
    }
}

impl FsJson {
    /// The file variant; the node must be a file.
    pub fn unwrap_file(self) -> (r: FileJson)
        requires
            self@ is File,
        ensures
            self@ == FsModel::File(r@),
    {
        match self {
            FsJson::File(f) => f,
            FsJson::Dir(_) => {
                proof {
                    assert(false);
                }
                FileJson { block_ids: Vec::new(), size: 0, ty: 0, version: 0 }
            },
        }
    }

    /// The directory variant; the node must be a directory.
    pub fn unwrap_dir(self) -> (r: DirJson)
        requires
            self@ is Dir,
        ensures
            self@ == FsModel::Dir(r@),
    {
        match self {
            FsJson::Dir(d) => d,
            FsJson::File(_) => {
                proof {
                    assert(false);
                }
                DirJson { dirents: Vec::new(), ty: 0, version: 0 }
            },
        }
    }

    /// The file variant, or `WrongFsType`.
    pub fn try_file(self) -> (r: Result<FileJson, SeafError>)
        ensures
            match r {
                Ok(f) => self@ == FsModel::File(f@),
                Err(e) => self@ is Dir && e matches SeafError::WrongFsType,
            },
    {
        match self {
            FsJson::File(f) => Ok(f),
            FsJson::Dir(_) => Err(SeafError::WrongFsType),
        }
    }

    /// The directory variant, or `WrongFsType`.
    pub fn try_dir(self) -> (r: Result<DirJson, SeafError>)
        ensures
            match r {
                Ok(d) => self@ == FsModel::Dir(d@),
                Err(e) => self@ is File && e matches SeafError::WrongFsType,
            },
    {
        match self {
            FsJson::Dir(d) => Ok(d),
            FsJson::File(_) => Err(SeafError::WrongFsType),
        }
    }

    /// The node kind, as text.
    pub fn kind_name(&self) -> (r: &'static str)
        ensures
            self@ is Dir ==> r@ == "Dir"@,
            self@ is File ==> r@ == "File"@,
    {
        match self {
            FsJson::Dir(_) => "Dir",
            FsJson::File(_) => "File",
        }
    }

    /// An empty directory node, as the sentinel hash denotes.
    pub fn empty_dir() -> (r: FsJson)
        ensures
            r@ == FsModel::Dir(DirModel { dirents: Seq::empty(), ty: 0, version: 0 }),
    {
        let d = DirJson { dirents: Vec::new(), ty: 0, version: 0 };
        proof {
            assert(d@.dirents =~= Seq::<DirentModel>::empty());
        }
        FsJson::Dir(d)
    }
}

} // verus!

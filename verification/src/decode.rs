//! Verified decoding of stored objects into commits and fs-nodes.
//!
//! A commit object is uncompressed JSON; an fs-node object is zlib-compressed
//! JSON.  The stored node carries no discriminator field: a node whose
//! `block_ids` is an array decodes as a file, otherwise one with a `dirents`
//! array decodes as a directory, and anything else is malformed.

use crate::error::SeafError;
use crate::hash::{Sha1, spec_parse_sha1};
use crate::jsonio::{json_arr_len, json_arr_obj_str, json_arr_obj_u64, json_arr_str,
    json_field_non_null, json_str_field, json_u64_field, spec_inflate, spec_json_arr_len,
    spec_json_arr_obj_str, spec_json_arr_obj_u64, spec_json_arr_str, spec_json_non_null,
    spec_json_str, spec_json_u64, zlib_inflate};
use crate::node::{CommitJson, CommitModel, DirJson, DirModel, DirentJson, DirentModel, FileJson,
    FileModel, FsJson, FsModel};
use vstd::prelude::*;

verus! {

/// The `u32` at a top-level key, if present and in range.
pub open spec fn spec_u32_field(b: Seq<u8>, key: Seq<char>) -> Option<u32> {
    match spec_json_u64(b, key) {
        Some(v) => if v <= u32::MAX as u64 {
            Some(v as u32)
        } else {
            None
        },
        None => None,
    }
}

/// The hash at a top-level key, if present and well-formed.
pub open spec fn spec_hash_field(b: Seq<u8>, key: Seq<char>) -> Option<Sha1> {
    match spec_json_str(b, key) {
        Some(s) => spec_parse_sha1(s),
        None => None,
    }
}

/// An optional hash field: absent or null is `Some(None)`; a present value
/// must be a well-formed hash string.
pub open spec fn spec_opt_hash_field(b: Seq<u8>, key: Seq<char>) -> Option<Option<Sha1>> {
    if !spec_json_non_null(b, key) {
        Some(None)
    } else {
        match spec_json_str(b, key) {
            Some(s) => match spec_parse_sha1(s) {
                Some(h) => Some(Some(h)),
                None => None,
            },
            None => None,
        }
    }
}

/// An optional string field: absent or null is `Some(None)`.
pub open spec fn spec_opt_str_field(b: Seq<u8>, key: Seq<char>) -> Option<Option<Seq<char>>> {
    if !spec_json_non_null(b, key) {
        Some(None)
    } else {
        match spec_json_str(b, key) {
            Some(s) => Some(Some(s)),
            None => None,
        }
    }
}

/// The commit denoted by the JSON bytes `b`, if every required field is
/// present and well-formed.
pub open spec fn spec_parse_commit(b: Seq<u8>) -> Option<CommitModel> {
    let commit_id = spec_hash_field(b, "commit_id"@);
    let root_id = spec_hash_field(b, "root_id"@);
    let repo_id = spec_json_str(b, "repo_id"@);
    let creator_name = spec_json_str(b, "creator_name"@);
    let creator = spec_json_str(b, "creator"@);
    let description = spec_json_str(b, "description"@);
    let ctime = spec_json_u64(b, "ctime"@);
    let parent_id = spec_opt_hash_field(b, "parent_id"@);
    let second_parent_id = spec_opt_hash_field(b, "second_parent_id"@);
    let repo_name = spec_json_str(b, "repo_name"@);
    let repo_desc = spec_json_str(b, "repo_desc"@);
    let repo_category = spec_opt_str_field(b, "repo_category"@);
    let no_local_history = spec_u32_field(b, "no_local_history"@);
    let version = spec_u32_field(b, "version"@);
    if commit_id is Some && root_id is Some && repo_id is Some && creator_name is Some && creator
        is Some && description is Some && ctime is Some && parent_id is Some && second_parent_id
        is Some && repo_name is Some && repo_desc is Some && repo_category is Some
        && no_local_history is Some && version is Some {
        Some(
            CommitModel {
                commit_id: commit_id.unwrap(),
                root_id: root_id.unwrap(),
                repo_id: repo_id.unwrap(),
                creator_name: creator_name.unwrap(),
                creator: creator.unwrap(),
                description: description.unwrap(),
                ctime: ctime.unwrap(),
                parent_id: parent_id.unwrap(),
                second_parent_id: second_parent_id.unwrap(),
                repo_name: repo_name.unwrap(),
                repo_desc: repo_desc.unwrap(),
                repo_category: repo_category.unwrap(),
                no_local_history: no_local_history.unwrap(),
                version: version.unwrap(),
            },
        )
    } else {
        None
    }
}

/// The first `n` block hashes of a file node, if each is a well-formed hash
/// string.
pub open spec fn spec_block_ids(b: Seq<u8>, n: int) -> Option<Seq<Sha1>>
    decreases n,
{
    if n <= 0 {
        Some(Seq::empty())
    } else {
        match spec_block_ids(b, n - 1) {
            Some(pre) => match spec_json_arr_str(b, "block_ids"@, (n - 1) as usize) {
                Some(s) => match spec_parse_sha1(s) {
                    Some(h) => Some(pre.push(h)),
                    None => None,
                },
                None => None,
            },
            None => None,
        }
    }
}

/// The file node denoted by the JSON bytes `b`.
pub open spec fn spec_parse_file(b: Seq<u8>) -> Option<FileModel> {
    match spec_json_arr_len(b, "block_ids"@) {
        Some(n) => {
            let ids = spec_block_ids(b, n as int);
            let size = spec_json_u64(b, "size"@);
            let ty = spec_u32_field(b, "type"@);
            let version = spec_u32_field(b, "version"@);
            if ids is Some && size is Some && ty is Some && version is Some {
                Some(
                    FileModel {
                        block_ids: ids.unwrap(),
                        size: size.unwrap(),
                        ty: ty.unwrap(),
                        version: version.unwrap(),
                    },
                )
            } else {
                None
            }
        },
        None => None,
    }
}

/// One directory entry of a dir node, if all four fields are well-formed.
pub open spec fn spec_dirent_at(b: Seq<u8>, i: usize) -> Option<DirentModel> {
    let id = match spec_json_arr_obj_str(b, "dirents"@, i, "id"@) {
        Some(s) => spec_parse_sha1(s),
        None => None,
    };
    let mode = match spec_json_arr_obj_u64(b, "dirents"@, i, "mode"@) {
        Some(v) => if v <= u32::MAX as u64 {
            Some(v as u32)
        } else {
            None
        },
        None => None,
    };
    let mtime = spec_json_arr_obj_u64(b, "dirents"@, i, "mtime"@);
    let name = spec_json_arr_obj_str(b, "dirents"@, i, "name"@);
    if id is Some && mode is Some && mtime is Some && name is Some {
        Some(
            DirentModel {
                id: id.unwrap(),
                mode: mode.unwrap(),
                mtime: mtime.unwrap(),
                name: name.unwrap(),
            },
        )
    } else {
        None
    }
}

/// The first `n` directory entries of a dir node.
pub open spec fn spec_dirents(b: Seq<u8>, n: int) -> Option<Seq<DirentModel>>
    decreases n,
{
    if n <= 0 {
        Some(Seq::empty())
    } else {
        match spec_dirents(b, n - 1) {
            Some(pre) => match spec_dirent_at(b, (n - 1) as usize) {
                Some(d) => Some(pre.push(d)),
                None => None,
            },
            None => None,
        }
    }
}

/// The directory node denoted by the JSON bytes `b`.
pub open spec fn spec_parse_dir(b: Seq<u8>) -> Option<DirModel> {
    match spec_json_arr_len(b, "dirents"@) {
        Some(n) => {
            let dirents = spec_dirents(b, n as int);
            let ty = spec_u32_field(b, "type"@);
            let version = spec_u32_field(b, "version"@);
            if dirents is Some && ty is Some && version is Some {
                Some(
                    DirModel {
                        dirents: dirents.unwrap(),
                        ty: ty.unwrap(),
                        version: version.unwrap(),
                    },
                )
            } else {
                None
            }
        },
        None => None,
    }
}

/// The fs-node denoted by the JSON bytes `b`.  The stored format has no
/// discriminator: the node is whatever a whole file decode yields, else
/// whatever a whole directory decode yields, else malformed.
pub open spec fn spec_parse_fs(b: Seq<u8>) -> Option<FsModel> {
    match spec_parse_file(b) {
        Some(f) => Some(FsModel::File(f)),
        None => match spec_parse_dir(b) {
            Some(d) => Some(FsModel::Dir(d)),
            None => None,
        },
    }
}

/// The fs-node denoted by a stored (zlib-compressed) object.
pub open spec fn spec_parse_fs_obj(b: Seq<u8>) -> Option<FsModel> {
    match spec_inflate(b) {
        Some(j) => spec_parse_fs(j),
        None => None,
    }
}

fn u32_field(b: &[u8], key: &str) -> (r: Option<u32>)
    ensures
        r == spec_u32_field(b@, key@),
{
    match json_u64_field(b, key) {
        Some(v) => if v <= u32::MAX as u64 {
            Some(v as u32)
        } else {
            None
        },
        None => None,
    }
}

fn hash_field(b: &[u8], key: &str) -> (r: Option<Sha1>)
    ensures
        r == spec_hash_field(b@, key@),
{
    match json_str_field(b, key) {
        Some(s) => Sha1::parse(s.as_str()),
        None => None,
    }
}

fn opt_hash_field(b: &[u8], key: &str) -> (r: Option<Option<Sha1>>)
    ensures
        r == spec_opt_hash_field(b@, key@),
{
    if !json_field_non_null(b, key) {
        Some(None)
    } else {
        match json_str_field(b, key) {
            Some(s) => match Sha1::parse(s.as_str()) {
                Some(h) => Some(Some(h)),
                None => None,
            },
            None => None,
        }
    }
}

fn opt_str_field(b: &[u8], key: &str) -> (r: Option<Option<String>>)
    ensures
        match r {
            Some(None) => spec_opt_str_field(b@, key@) == Some(None::<Seq<char>>),
            Some(Some(s)) => spec_opt_str_field(b@, key@) == Some(Some(s@)),
            None => spec_opt_str_field(b@, key@) is None,
        },
{
    if !json_field_non_null(b, key) {
        Some(None)
    } else {
        match json_str_field(b, key) {
            Some(s) => Some(Some(s)),
            None => None,
        }
    }
}

/// Decode a commit object from its stored JSON bytes.  A malformed object
/// is reported without a path; the library's loaders name the failing
/// object when they call this.
pub fn parse_commit(bytes: &Vec<u8>) -> (r: Result<CommitJson, SeafError>)
    ensures
        r is Ok <==> spec_parse_commit(bytes@) is Some,
        r matches Ok(c) ==> Some(c@) == spec_parse_commit(bytes@),
        r matches Err(e) ==> e matches SeafError::ParseJson(_),
{
    let b = bytes.as_slice();
    let commit_id = match hash_field(b, "commit_id") {
        Some(x) => x,
        None => {
            return Err(SeafError::ParseJson(String::new()));
        },
    };
    let root_id = match hash_field(b, "root_id") {
        Some(x) => x,
        None => {
            return Err(SeafError::ParseJson(String::new()));
        },
    };
    let repo_id = match json_str_field(b, "repo_id") {
        Some(x) => x,
        None => {
            return Err(SeafError::ParseJson(String::new()));
        },
    };
    let creator_name = match json_str_field(b, "creator_name") {
        Some(x) => x,
        None => {
            return Err(SeafError::ParseJson(String::new()));
        },
    };
    let creator = match json_str_field(b, "creator") {
        Some(x) => x,
        None => {
            return Err(SeafError::ParseJson(String::new()));
        },
    };
    let description = match json_str_field(b, "description") {
        Some(x) => x,
        None => {
            return Err(SeafError::ParseJson(String::new()));
        },
    };
    let ctime = match json_u64_field(b, "ctime") {
        Some(x) => x,
        None => {
            return Err(SeafError::ParseJson(String::new()));
        },
    };
    let parent_id = match opt_hash_field(b, "parent_id") {
        Some(x) => x,
        None => {
            return Err(SeafError::ParseJson(String::new()));
        },
    };
    let second_parent_id = match opt_hash_field(b, "second_parent_id") {
        Some(x) => x,
        None => {
            return Err(SeafError::ParseJson(String::new()));
        },
    };
    let repo_name = match json_str_field(b, "repo_name") {
        Some(x) => x,
        None => {
            return Err(SeafError::ParseJson(String::new()));
        },
    };
    let repo_desc = match json_str_field(b, "repo_desc") {
        Some(x) => x,
        None => {
            return Err(SeafError::ParseJson(String::new()));
        },
    };
    let repo_category = match opt_str_field(b, "repo_category") {
        Some(x) => x,
        None => {
            return Err(SeafError::ParseJson(String::new()));
        },
    };
    let no_local_history = match u32_field(b, "no_local_history") {
        Some(x) => x,
        None => {
            return Err(SeafError::ParseJson(String::new()));
        },
    };
    let version = match u32_field(b, "version") {
        Some(x) => x,
        None => {
            return Err(SeafError::ParseJson(String::new()));
        },
    };
    Ok(
        CommitJson {
            commit_id,
            root_id,
            repo_id,
            creator_name,
            creator,
            description,
            ctime,
            parent_id,
            second_parent_id,
            repo_name,
            repo_desc,
            repo_category,
            no_local_history,
            version,
        },
    )
}

proof fn lemma_block_ids_none_up(b: Seq<u8>, m: int, n: int)
    requires
        spec_block_ids(b, m) is None,
        m <= n,
    ensures
        spec_block_ids(b, n) is None,
    decreases n - m,
{
    if m < n {
        lemma_block_ids_none_up(b, m, n - 1);
    }
}

proof fn lemma_dirents_none_up(b: Seq<u8>, m: int, n: int)
    requires
        spec_dirents(b, m) is None,
        m <= n,
    ensures
        spec_dirents(b, n) is None,
    decreases n - m,
{
    if m < n {
        lemma_dirents_none_up(b, m, n - 1);
    }
}

fn parse_file_node(b: &[u8], n: usize) -> (r: Result<FileJson, SeafError>)
    requires
        spec_json_arr_len(b@, "block_ids"@) == Some(n),
    ensures
        r is Ok <==> spec_parse_file(b@) is Some,
        r matches Ok(f) ==> Some(f@) == spec_parse_file(b@),
        r matches Err(e) ==> e matches SeafError::ParseJson(_),
{
    let mut ids: Vec<Sha1> = Vec::new();
    let mut i: usize = 0;
    while i < n
        invariant
            0 <= i <= n,
            spec_json_arr_len(b@, "block_ids"@) == Some(n),
            spec_block_ids(b@, i as int) == Some(ids@),
        decreases n - i,
    {
        let h = match json_arr_str(b, "block_ids", i) {
            Some(s) => match Sha1::parse(s.as_str()) {
                Some(h) => h,
                None => {
                    proof {
                        lemma_block_ids_none_up(b@, i + 1, n as int);
                    }
                    return Err(SeafError::ParseJson(String::new()));
                },
            },
            None => {
                proof {
                    lemma_block_ids_none_up(b@, i + 1, n as int);
                }
                return Err(SeafError::ParseJson(String::new()));
            },
        };
        ids.push(h);
        i = i + 1;
    }
    let size = match json_u64_field(b, "size") {
        Some(x) => x,
        None => {
            return Err(SeafError::ParseJson(String::new()));
        },
    };
    let ty = match u32_field(b, "type") {
        Some(x) => x,
        None => {
            return Err(SeafError::ParseJson(String::new()));
        },
    };
    let version = match u32_field(b, "version") {
        Some(x) => x,
        None => {
            return Err(SeafError::ParseJson(String::new()));
        },
    };
    Ok(FileJson { block_ids: ids, size, ty, version })
}

fn parse_dir_node(b: &[u8], n: usize) -> (r: Result<DirJson, SeafError>)
    requires
        spec_json_arr_len(b@, "dirents"@) == Some(n),
    ensures
        r is Ok <==> spec_parse_dir(b@) is Some,
        r matches Ok(d) ==> Some(d@) == spec_parse_dir(b@),
        r matches Err(e) ==> e matches SeafError::ParseJson(_),
{
    let mut dirents: Vec<DirentJson> = Vec::new();
    let mut i: usize = 0;
    while i < n
        invariant
            0 <= i <= n,
            spec_json_arr_len(b@, "dirents"@) == Some(n),
            spec_dirents(b@, i as int) == Some(dirents@.map_values(|d: DirentJson| d@)),
        decreases n - i,
    {
        let id = match json_arr_obj_str(b, "dirents", i, "id") {
            Some(s) => Sha1::parse(s.as_str()),
            None => None,
        };
        let mode = match json_arr_obj_u64(b, "dirents", i, "mode") {
            Some(v) => if v <= u32::MAX as u64 {
                Some(v as u32)
            } else {
                None
            },
            None => None,
        };
        let mtime = json_arr_obj_u64(b, "dirents", i, "mtime");
        let name = json_arr_obj_str(b, "dirents", i, "name");
        match (id, mode, mtime, name) {
            (Some(id), Some(mode), Some(mtime), Some(name)) => {
                let de = DirentJson { id, mode, mtime, name };
                proof {
                    assert(spec_dirent_at(b@, i) == Some(de@));
                    assert((dirents@.push(de)).map_values(|d: DirentJson| d@) =~= dirents@.map_values(
                        |d: DirentJson| d@,
                    ).push(de@));
                }
                dirents.push(de);
            },
            _ => {
                proof {
                    assert(spec_dirent_at(b@, i) is None);
                    lemma_dirents_none_up(b@, i + 1, n as int);
                }
                return Err(SeafError::ParseJson(String::new()));
            },
        }
        i = i + 1;
    }
    let ty = match u32_field(b, "type") {
        Some(x) => x,
        None => {
            return Err(SeafError::ParseJson(String::new()));
        },
    };
    let version = match u32_field(b, "version") {
        Some(x) => x,
        None => {
            return Err(SeafError::ParseJson(String::new()));
        },
    };
    Ok(DirJson { dirents, ty, version })
}

/// Decode an fs-node from its inflated JSON bytes: first as a file, then,
/// when that fails, as a directory.
pub fn parse_fs_bytes(b: &[u8]) -> (r: Result<FsJson, SeafError>)
    ensures
        r is Ok <==> spec_parse_fs(b@) is Some,
        r matches Ok(fs) ==> Some(fs@) == spec_parse_fs(b@),
        r matches Err(e) ==> e matches SeafError::ParseJson(_),
{
    if let Some(n) = json_arr_len(b, "block_ids") {
        if let Ok(f) = parse_file_node(b, n) {
            return Ok(FsJson::File(f));
        }
    }
    match json_arr_len(b, "dirents") {
        Some(n) => match parse_dir_node(b, n) {
            Ok(d) => Ok(FsJson::Dir(d)),
            Err(e) => Err(e),
        },
        None => Err(SeafError::ParseJson(String::new())),
    }
}

/// Decode an fs-node object from its stored (zlib-compressed) bytes.
pub fn parse_fs_json(bytes: &Vec<u8>) -> (r: Result<FsJson, SeafError>)
    ensures
        r is Ok <==> spec_parse_fs_obj(bytes@) is Some,
        r matches Ok(fs) ==> Some(fs@) == spec_parse_fs_obj(bytes@),
        r matches Err(e) ==> e matches SeafError::ParseJson(_),
{
    match zlib_inflate(bytes.as_slice()) {
        Some(j) => parse_fs_bytes(j.as_slice()),
        None => Err(SeafError::ParseJson(String::new())),
    }
}

} // verus!

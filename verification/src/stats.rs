//! Summary figures over a repository: its commits and its tree.
//!
//! The commit figures are computed here by a bounded scan of the commit
//! store.  The tree figures are folded one walked entry at a time through
//! `walk_stats_step`, so the caller that drives the walker — which may run
//! as long as the tree is deep — owns the loop while every step stays
//! verified.

use crate::decode::{parse_commit, spec_parse_commit};
use crate::error::SeafError;
use crate::library::Library;
use crate::node::FsJson;
use vstd::prelude::*;

verus! {

/// Figures over the stored commits.
#[derive(Debug, Clone, Copy, PartialEq, Eq, Structural)]
pub struct CommitStats {
    pub commit_count: u64,
    pub min_ctime: u64,
    pub max_ctime: u64,
}

/// The commit figures folded over the first `i` stored commits, starting
/// from no commits seen; `None` when one of them fails to decode.
pub open spec fn spec_commit_stats(commits: Seq<(crate::hash::Sha1, Vec<u8>)>, i: int) -> Option<
    CommitStats,
>
    decreases i,
{
    if i <= 0 {
        Some(CommitStats { commit_count: 0, min_ctime: u64::MAX, max_ctime: 0 })
    } else {
        match spec_commit_stats(commits, i - 1) {
            Some(acc) => match spec_parse_commit(commits[i - 1].1@) {
                Some(c) => Some(
                    CommitStats {
                        commit_count: if acc.commit_count < u64::MAX {
                            (acc.commit_count + 1) as u64
                        } else {
                            acc.commit_count
                        },
                        min_ctime: if c.ctime < acc.min_ctime {
                            c.ctime
                        } else {
                            acc.min_ctime
                        },
                        max_ctime: if c.ctime > acc.max_ctime {
                            c.ctime
                        } else {
                            acc.max_ctime
                        },
                    },
                ),
                None => None,
            },
            None => None,
        }
    }
}

/// Count the stored commits and find the oldest and newest `ctime`.
pub fn commit_stats(lib: &Library) -> (r: Result<CommitStats, SeafError>)
    ensures
        match r {
            Ok(cs) => spec_commit_stats(lib.repo().commits@, lib.repo().commits@.len() as int)
                == Some(cs),
            Err(e) => spec_commit_stats(lib.repo().commits@, lib.repo().commits@.len() as int)
                is None && e matches SeafError::ParseJson(_),
        },
{
    let commits = &lib.store.commits;
    let n: usize = commits.len();
    let mut acc = CommitStats { commit_count: 0, min_ctime: u64::MAX, max_ctime: 0 };
    let mut i: usize = 0;
    while i < n
        invariant
            0 <= i <= n,
            n == commits@.len(),
            commits@ == lib.repo().commits@,
            spec_commit_stats(commits@, i as int) == Some(acc),
        decreases n - i,
    {
        let c = match parse_commit(&commits[i].1) {
            Ok(c) => c,
            Err(e) => {
                proof {
                    lemma_commit_stats_none_up(commits@, i + 1, n as int);
                }
                return Err(e);
            },
        };
        acc = CommitStats {
            commit_count: if acc.commit_count < u64::MAX {
                acc.commit_count + 1
            } else {
                acc.commit_count
            },
            min_ctime: if c.ctime < acc.min_ctime {
                c.ctime
            } else {
                acc.min_ctime
            },
            max_ctime: if c.ctime > acc.max_ctime {
                c.ctime
            } else {
                acc.max_ctime
            },
        };
        i = i + 1;
    }
    Ok(acc)
}

proof fn lemma_commit_stats_none_up(commits: Seq<(crate::hash::Sha1, Vec<u8>)>, m: int, n: int)
    requires
        spec_commit_stats(commits, m) is None,
        m <= n,
    ensures
        spec_commit_stats(commits, n) is None,
    decreases n - m,
{
    if m < n {
        lemma_commit_stats_none_up(commits, m, n - 1);
    }
}

/// Figures over the walked tree.
#[derive(Debug, Clone, Copy, PartialEq, Eq, Structural)]
pub struct WalkStats {
    pub file_count: u64,
    pub dir_count: u64,
    pub max_blocks_in_file: u64,
    pub max_files_in_dir: u64,
}

impl WalkStats {
    /// No entries seen yet.
    pub fn new() -> (r: WalkStats)
        ensures
            r == (WalkStats {
                file_count: 0,
                dir_count: 0,
                max_blocks_in_file: 0,
                max_files_in_dir: 0,
            }),
    {
        WalkStats { file_count: 0, dir_count: 0, max_blocks_in_file: 0, max_files_in_dir: 0 }
    }
}

/// The tree figures after one more walked node: files and directories are
/// counted (saturating), and the widest file and directory are kept.
pub open spec fn spec_walk_stats_step(acc: WalkStats, fs: crate::node::FsModel) -> WalkStats {
    match fs {
        crate::node::FsModel::File(f) => WalkStats {
            file_count: if acc.file_count < u64::MAX {
                (acc.file_count + 1) as u64
            } else {
                acc.file_count
            },
            dir_count: acc.dir_count,
            max_blocks_in_file: if f.block_ids.len() > acc.max_blocks_in_file {
                f.block_ids.len() as u64
            } else {
                acc.max_blocks_in_file
            },
            max_files_in_dir: acc.max_files_in_dir,
        },
        crate::node::FsModel::Dir(d) => WalkStats {
            file_count: acc.file_count,
            dir_count: if acc.dir_count < u64::MAX {
                (acc.dir_count + 1) as u64
            } else {
                acc.dir_count
            },
            max_blocks_in_file: acc.max_blocks_in_file,
            max_files_in_dir: if d.dirents.len() > acc.max_files_in_dir {
                d.dirents.len() as u64
            } else {
                acc.max_files_in_dir
            },
        },
    }
}

/// Fold one walked node into the tree figures.
pub fn walk_stats_step(acc: WalkStats, fs: &FsJson) -> (r: WalkStats)
    ensures
        r == spec_walk_stats_step(acc, fs@),
{
    match fs {
        FsJson::File(f) => {
            let blocks = f.block_ids.len() as u64;
            WalkStats {
                file_count: if acc.file_count < u64::MAX {
                    acc.file_count + 1
                } else {
                    acc.file_count
                },
                dir_count: acc.dir_count,
                max_blocks_in_file: if blocks > acc.max_blocks_in_file {
                    blocks
                } else {
                    acc.max_blocks_in_file
                },
                max_files_in_dir: acc.max_files_in_dir,
            }
        },
        FsJson::Dir(d) => {
            let files = d.dirents.len() as u64;
            WalkStats {
                file_count: acc.file_count,
                dir_count: if acc.dir_count < u64::MAX {
                    acc.dir_count + 1
                } else {
                    acc.dir_count
                },
                max_blocks_in_file: acc.max_blocks_in_file,
                max_files_in_dir: if files > acc.max_files_in_dir {
                    files
                } else {
                    acc.max_files_in_dir
                },
            }
        },
    }
}

} // verus!

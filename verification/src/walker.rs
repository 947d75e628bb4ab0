//! Lazy depth-first traversal of the fs-node tree, with pruning.
//!
//! The cursor starts at the head commit's root without touching the store.
//! Each step pops one entry from the innermost open directory (from the end
//! of its stored order), loads that entry's node, descends into it when it
//! is a directory, and yields `(parent_path, dirent, node)`.  `prune`
//! abandons the innermost directory; `clear` ends the walk.  A failing load
//! is yielded as the step's item and does not advance past the entry.

use crate::error::SeafError;
use crate::hash::Sha1;
use crate::library::{Library, spec_load_fs};
use crate::node::{DirJson, DirModel, DirentJson, DirentModel, FsJson, FsModel};
use crate::store::Repo;
use vstd::prelude::*;

verus! {

/// The walker's state: still at the unloaded root, or walking a stack of
/// open directories with the path to the innermost one.
pub ghost enum WalkerModel {
    AtRoot(Sha1),
    Walking(Seq<DirModel>, Seq<Seq<char>>),
}

/// Path components joined with `/`.
pub open spec fn spec_join_path(parts: Seq<Seq<char>>) -> Seq<char>
    decreases parts.len(),
{
    if parts.len() == 0 {
        Seq::empty()
    } else if parts.len() == 1 {
        parts[0]
    } else {
        spec_join_path(parts.drop_last()) + seq!['/'] + parts.last()
    }
}

/// Drop exhausted directory frames (and their path components) until a
/// frame with remaining entries, or nothing, is left.
pub open spec fn spec_skip_empty(stack: Seq<DirModel>, path: Seq<Seq<char>>) -> (
    Seq<DirModel>,
    Seq<Seq<char>>,
)
    decreases stack.len(),
{
    if stack.len() == 0 {
        (stack, path)
    } else if stack.last().dirents.len() > 0 {
        (stack, path)
    } else {
        spec_skip_empty(
            stack.drop_last(),
            if path.len() > 0 {
                path.drop_last()
            } else {
                path
            },
        )
    }
}

/// What one walking step does, given the frames and path it starts from:
/// the exhausted frames go, then the innermost remaining entry is yielded,
/// a directory entry opening a new frame.
pub open spec fn walking_step_post(
    repo: Repo,
    stack0: Seq<DirModel>,
    path0: Seq<Seq<char>>,
    r: Option<Result<(String, DirentJson, FsJson), SeafError>>,
    m2: WalkerModel,
) -> bool {
    let sp = spec_skip_empty(stack0, path0);
    let s = sp.0;
    let p = sp.1;
    if s.len() == 0 {
        &&& r is None
        &&& m2 == WalkerModel::Walking(s, p)
    } else {
        let top = s.last();
        let de = top.dirents.last();
        match spec_load_fs(repo, de.id) {
            None => {
                &&& (r matches Some(Err(e)) && !(e matches SeafError::WrongFsType))
                &&& m2 == WalkerModel::Walking(s, p)
            },
            Some(fs) => {
                let top2 = DirModel {
                    dirents: top.dirents.drop_last(),
                    ty: top.ty,
                    version: top.version,
                };
                let s2 = s.update(s.len() - 1, top2);
                &&& (r matches Some(Ok(item)) && item.0@ == spec_join_path(p) && item.1@ == de
                    && item.2@ == fs)
                &&& m2 == match fs {
                    FsModel::Dir(d) => WalkerModel::Walking(s2.push(d), p.push(de.name)),
                    FsModel::File(_) => WalkerModel::Walking(s2, p),
                }
            },
        }
    }
}

/// Join path components with `/`; the empty path is the empty string.
pub fn join_path(parts: &Vec<String>) -> (r: String)
    ensures
        r@ == spec_join_path(parts@.map_values(|s: String| s@)),
{
    proof {
        reveal_strlit("/");
    }
    let mut acc = String::new();
    let n: usize = parts.len();
    let mut i: usize = 0;
    while i < n
        invariant
            0 <= i <= n,
            n == parts@.len(),
            acc@ =~= spec_join_path(parts@.map_values(|s: String| s@).subrange(0, i as int)),
            "/"@ =~= seq!['/'],
        decreases n - i,
    {
        if i > 0 {
            acc.append("/");
        }
        acc.append(parts[i].as_str());
        proof {
            let m = parts@.map_values(|s: String| s@);
            assert(m.subrange(0, i as int + 1).drop_last() =~= m.subrange(0, i as int));
            assert(m.subrange(0, i as int + 1).last() == m[i as int]);
        }
        i = i + 1;
    }
    proof {
        assert(parts@.map_values(|s: String| s@).subrange(0, n as int) =~= parts@.map_values(
            |s: String| s@,
        ));
    }
    acc
}

pub(crate) fn clone_string(s: &String) -> (r: String)
    ensures
        r@ == s@,
{
    s.as_str().to_owned()
}

fn clone_dir(d: &DirJson) -> (r: DirJson)
    ensures
        r@ == d@,
{
    let mut dirents: Vec<DirentJson> = Vec::new();
    let n: usize = d.dirents.len();
    let mut i: usize = 0;
    while i < n
        invariant
            0 <= i <= n,
            n == d.dirents@.len(),
            dirents@.map_values(|x: DirentJson| x@) =~= d.dirents@.map_values(
                |x: DirentJson| x@,
            ).subrange(0, i as int),
        decreases n - i,
    {
        let src = &d.dirents[i];
        let de = DirentJson {
            id: src.id,
            mode: src.mode,
            mtime: src.mtime,
            name: clone_string(&src.name),
        };
        proof {
            let m = d.dirents@.map_values(|x: DirentJson| x@);
            assert(de@ == m[i as int]);
            assert((dirents@.push(de)).map_values(|x: DirentJson| x@) =~= dirents@.map_values(
                |x: DirentJson| x@,
            ).push(de@));
            assert(m.subrange(0, i as int + 1) =~= m.subrange(0, i as int).push(m[i as int]));
        }
        dirents.push(de);
        i = i + 1;
    }
    proof {
        let m = d.dirents@.map_values(|x: DirentJson| x@);
        assert(m.subrange(0, n as int) =~= m);
    }
    let r = DirJson { dirents, ty: d.ty, version: d.version };
    r
}

/// A cursor for walking through the filesystem.
#[derive(Debug)]
pub struct FsIterator<'a> {
    lib: &'a Library,
    root: Option<Sha1>,
    stack: Vec<DirJson>,
    path: Vec<String>,
}

impl<'a> FsIterator<'a> {
    /// The repository the walk reads.
    pub closed spec fn repo(self) -> Repo {
        *self.lib.store
    }

    /// The walker's abstract state.
    pub closed spec fn model(self) -> WalkerModel {
        match self.root {
            Some(id) => WalkerModel::AtRoot(id),
            None => WalkerModel::Walking(
                self.stack@.map_values(|d: DirJson| d@),
                self.path@.map_values(|s: String| s@),
            ),
        }
    }

    /// A walker over the library's head tree; no object is loaded yet.
    pub fn new(lib: &'a Library) -> (r: FsIterator<'a>)
        ensures
            r.model() == WalkerModel::AtRoot(lib.head_commit.root_id),
            r.repo() == lib.repo(),
    {
        FsIterator { lib, root: Some(lib.head_commit.root_id), stack: Vec::new(), path: Vec::new() }
    }

    /// One step of the walk: yield the next entry, or its loading error, or
    /// `None` when every open directory is exhausted.
    pub fn next(&mut self) -> (r: Option<Result<(String, DirentJson, FsJson), SeafError>>)
        ensures
            final(self).repo() == old(self).repo(),
            match old(self).model() {
                WalkerModel::AtRoot(root_id) => match spec_load_fs(old(self).repo(), root_id) {
                    None => (r matches Some(Err(e)) && !(e matches SeafError::WrongFsType))
                        && final(self).model() == old(self).model(),
                    Some(FsModel::File(_)) => (r matches Some(Err(e)) && e
                        matches SeafError::WrongFsType) && final(self).model() == old(self).model(),
                    Some(FsModel::Dir(d)) => walking_step_post(
                        old(self).repo(),
                        seq![d],
                        Seq::empty(),
                        r,
                        final(self).model(),
                    ),
                },
                WalkerModel::Walking(s, p) => walking_step_post(
                    old(self).repo(),
                    s,
                    p,
                    r,
                    final(self).model(),
                ),
            },
    {
        if let Some(root_id) = self.root {
            let d = match self.lib.load_fs(root_id) {
                Err(e) => {
                    return Some(Err(e));
                },
                Ok(fs) => match fs.try_dir() {
                    Ok(d) => d,
                    Err(e) => {
                        return Some(Err(e));
                    },
                },
            };
            self.root = None;
            self.stack = Vec::new();
            self.stack.push(d);
            self.path = Vec::new();
            proof {
                let ghost dm = match spec_load_fs(self.repo(), root_id) {
                    Some(FsModel::Dir(dm)) => dm,
                    _ => arbitrary(),
                };
                assert(self.stack@.map_values(|x: DirJson| x@) =~= seq![dm]);
                assert(self.path@.map_values(|x: String| x@) =~= Seq::<Seq<char>>::empty());
            }
        }
        let ghost stack0 = self.stack@.map_values(|d: DirJson| d@);
        let ghost path0 = self.path@.map_values(|s: String| s@);
        loop
            invariant
                self.root is None,
                spec_skip_empty(stack0, path0) == spec_skip_empty(
                    self.stack@.map_values(|d: DirJson| d@),
                    self.path@.map_values(|s: String| s@),
                ),
                self.lib == old(self).lib,
                self.repo() == old(self).repo(),
                match old(self).model() {
                    WalkerModel::AtRoot(root_id) => spec_load_fs(old(self).repo(), root_id)
                        matches Some(FsModel::Dir(d)) && stack0 =~= seq![d] && path0
                        =~= Seq::<Seq<char>>::empty(),
                    WalkerModel::Walking(s, p) => stack0 == s && path0 == p,
                },
            decreases self.stack@.len(),
        {
            let ghost cur_stack = self.stack@.map_values(|d: DirJson| d@);
            let ghost cur_path = self.path@.map_values(|s: String| s@);
            let n: usize = self.stack.len();
            if n == 0 {
                proof {
                    assert(spec_skip_empty(cur_stack, cur_path) == (cur_stack, cur_path));
                }
                return None;
            }
            let mut top = match self.stack.pop() {
                Some(t) => t,
                None => {
                    proof {
                        assert(false);
                    }
                    return None;
                },
            };
            let dlen: usize = top.dirents.len();
            if dlen == 0 {
                let _dropped = self.path.pop();
                proof {
                    assert(cur_stack.last().dirents.len() == 0);
                    assert(self.stack@.map_values(|d: DirJson| d@) =~= cur_stack.drop_last());
                    if cur_path.len() > 0 {
                        assert(self.path@.map_values(|s: String| s@) =~= cur_path.drop_last());
                    } else {
                        assert(self.path@.map_values(|s: String| s@) =~= cur_path);
                    }
                }
            } else {
                proof {
                    assert(cur_stack.last().dirents.len() > 0);
                    assert(spec_skip_empty(cur_stack, cur_path) == (cur_stack, cur_path));
                }
                let de_id = top.dirents[dlen - 1].id;
                let fs = match self.lib.load_fs(de_id) {
                    Err(e) => {
                        self.stack.push(top);
                        proof {
                            assert(self.stack@.map_values(|d: DirJson| d@) =~= cur_stack);
                            assert(self.path@.map_values(|s: String| s@) =~= cur_path);
                        }
                        return Some(Err(e));
                    },
                    Ok(fs) => fs,
                };
                let de = match top.dirents.pop() {
                    Some(d) => d,
                    None => {
                        proof {
                            assert(false);
                        }
                        return None;
                    },
                };
                let path_before = join_path(&self.path);
                let ghost top_m = top@;
                let ghost de_m = de@;
                proof {
                    let top2 = DirModel {
                        dirents: cur_stack.last().dirents.drop_last(),
                        ty: cur_stack.last().ty,
                        version: cur_stack.last().version,
                    };
                    assert(top_m == top2) by {
                        assert(top.dirents@.map_values(|x: DirentJson| x@) =~= cur_stack.last(
                        ).dirents.drop_last());
                    }
                }
                let is_dir = match &fs {
                    FsJson::Dir(_) => true,
                    FsJson::File(_) => false,
                };
                self.stack.push(top);
                proof {
                    assert(self.stack@.map_values(|d: DirJson| d@) =~= cur_stack.drop_last().push(
                        top_m,
                    ));
                    assert(cur_stack.update(cur_stack.len() - 1, top_m) =~= cur_stack.drop_last(
                    ).push(top_m));
                }
                if is_dir {
                    let d2 = match &fs {
                        FsJson::Dir(d) => clone_dir(d),
                        FsJson::File(_) => {
                            proof {
                                assert(false);
                            }
                            DirJson { dirents: Vec::new(), ty: 0, version: 0 }
                        },
                    };
                    let name2 = clone_string(&de.name);
                    self.stack.push(d2);
                    self.path.push(name2);
                    proof {
                        assert(self.stack@.map_values(|d: DirJson| d@) =~= cur_stack.drop_last(
                        ).push(top_m).push(d2@));
                        assert(cur_stack.update(cur_stack.len() - 1, top_m).push(d2@)
                            =~= cur_stack.drop_last().push(top_m).push(d2@));
                        assert(self.path@.map_values(|s: String| s@) =~= cur_path.push(de_m.name));
                    }
                }
                return Some(Ok((path_before, de, fs)));
            }
        }
    }

    /// Abandon the innermost directory: its remaining entries, and all of
    /// their descendants, are skipped.  Before the first step this ends the
    /// walk.
    pub fn prune(&mut self)
        ensures
            final(self).repo() == old(self).repo(),
            match old(self).model() {
                WalkerModel::AtRoot(_) => final(self).model() == WalkerModel::Walking(
                    Seq::empty(),
                    Seq::empty(),
                ),
                WalkerModel::Walking(s, p) => final(self).model() == WalkerModel::Walking(
                    if s.len() > 0 {
                        s.drop_last()
                    } else {
                        s
                    },
                    if p.len() > 0 {
                        p.drop_last()
                    } else {
                        p
                    },
                ),
            },
    {
        if self.root.is_some() {
            self.clear();
        } else {
            let ghost cur_stack = self.stack@.map_values(|d: DirJson| d@);
            let ghost cur_path = self.path@.map_values(|s: String| s@);
            let _frame = self.stack.pop();
            let _part = self.path.pop();
            proof {
                if cur_stack.len() > 0 {
                    assert(self.stack@.map_values(|d: DirJson| d@) =~= cur_stack.drop_last());
                } else {
                    assert(self.stack@.map_values(|d: DirJson| d@) =~= cur_stack);
                }
                if cur_path.len() > 0 {
                    assert(self.path@.map_values(|s: String| s@) =~= cur_path.drop_last());
                } else {
                    assert(self.path@.map_values(|s: String| s@) =~= cur_path);
                }
            }
        }
    }

    /// Fast-forward to the end: every later step yields `None`.
    pub fn clear(&mut self)
        ensures
            final(self).repo() == old(self).repo(),
            final(self).model() == WalkerModel::Walking(Seq::empty(), Seq::empty()),
    {
        self.root = None;
        self.stack = Vec::new();
        self.path = Vec::new();
        proof {
            assert(self.stack@.map_values(|d: DirJson| d@) =~= Seq::<DirModel>::empty());
            assert(self.path@.map_values(|s: String| s@) =~= Seq::<Seq<char>>::empty());
        }
    }
}


use vstd::multiset::Multiset;

/// The entries that remain below a directory frame whose unvisited entries
/// are `dirents`, as the multiset of `(parent_path, name)` pairs the walk
/// will yield, visiting from the end.  `None` when some entry does not
/// resolve, or when the tree is deeper than `fuel` — on a well-formed
/// repository some fuel suffices, since the stored tree is finite.
pub open spec fn yields_below(
    repo: Repo,
    dirents: Seq<DirentModel>,
    path: Seq<Seq<char>>,
    fuel: nat,
) -> Option<Multiset<(Seq<char>, Seq<char>)>>
    decreases fuel, dirents.len(),
{
    if dirents.len() == 0 {
        Some(Multiset::empty())
    } else {
        let de = dirents.last();
        let rest = yields_below(repo, dirents.drop_last(), path, fuel);
        match spec_load_fs(repo, de.id) {
            None => None,
            Some(FsModel::File(_)) => match rest {
                Some(m) => Some(m.insert((spec_join_path(path), de.name))),
                None => None,
            },
            Some(FsModel::Dir(d)) => {
                if fuel == 0 {
                    None
                } else {
                    match (rest, yields_below(repo, d.dirents, path.push(de.name), (fuel - 1) as nat)) {
                        (Some(m1), Some(m2)) => Some(
                            m1.add(m2).insert((spec_join_path(path), de.name)),
                        ),
                        _ => None,
                    }
                }
            },
        }
    }
}

/// The entries a walking state will still yield: each open frame's
/// remaining entries and everything below them.
pub open spec fn yields_of_state(
    repo: Repo,
    stack: Seq<DirModel>,
    path: Seq<Seq<char>>,
    fuel: nat,
) -> Option<Multiset<(Seq<char>, Seq<char>)>>
    decreases stack.len(),
{
    if stack.len() == 0 {
        Some(Multiset::empty())
    } else {
        let tail_path = if path.len() > 0 {
            path.drop_last()
        } else {
            path
        };
        match (
            yields_below(repo, stack.last().dirents, path, fuel),
            yields_of_state(repo, stack.drop_last(), tail_path, fuel),
        ) {
            (Some(m1), Some(m2)) => Some(m1.add(m2)),
            _ => None,
        }
    }
}

/// The whole tree's entries, from the root down.
pub open spec fn spec_tree_entries(repo: Repo, root_id: Sha1, fuel: nat) -> Option<
    Multiset<(Seq<char>, Seq<char>)>,
> {
    match spec_load_fs(repo, root_id) {
        Some(FsModel::Dir(d)) => yields_below(repo, d.dirents, Seq::empty(), fuel),
        _ => None,
    }
}

/// More fuel never changes a resolved answer.
proof fn lemma_yields_below_fuel(
    repo: Repo,
    dirents: Seq<DirentModel>,
    path: Seq<Seq<char>>,
    f1: nat,
    f2: nat,
)
    requires
        f1 <= f2,
        yields_below(repo, dirents, path, f1) is Some,
    ensures
        yields_below(repo, dirents, path, f2) == yields_below(repo, dirents, path, f1),
    decreases f1, dirents.len(),
{
    if dirents.len() > 0 {
        let de = dirents.last();
        lemma_yields_below_fuel(repo, dirents.drop_last(), path, f1, f2);
        match spec_load_fs(repo, de.id) {
            Some(FsModel::Dir(d)) => {
                lemma_yields_below_fuel(
                    repo,
                    d.dirents,
                    path.push(de.name),
                    (f1 - 1) as nat,
                    (f2 - 1) as nat,
                );
            },
            _ => {},
        }
    }
}

proof fn lemma_yields_of_state_fuel(
    repo: Repo,
    stack: Seq<DirModel>,
    path: Seq<Seq<char>>,
    f1: nat,
    f2: nat,
)
    requires
        f1 <= f2,
        yields_of_state(repo, stack, path, f1) is Some,
    ensures
        yields_of_state(repo, stack, path, f2) == yields_of_state(repo, stack, path, f1),
    decreases stack.len(),
{
    if stack.len() > 0 {
        let tail_path = if path.len() > 0 {
            path.drop_last()
        } else {
            path
        };
        lemma_yields_below_fuel(repo, stack.last().dirents, path, f1, f2);
        lemma_yields_of_state_fuel(repo, stack.drop_last(), tail_path, f1, f2);
    }
}

/// Dropping exhausted frames leaves the remaining entries unchanged.
proof fn lemma_skip_empty_yields(repo: Repo, stack: Seq<DirModel>, path: Seq<Seq<char>>, fuel: nat)
    ensures
        yields_of_state(
            repo,
            spec_skip_empty(stack, path).0,
            spec_skip_empty(stack, path).1,
            fuel,
        ) == yields_of_state(repo, stack, path, fuel),
    decreases stack.len(),
{
    if stack.len() == 0 {
    } else if stack.last().dirents.len() > 0 {
    } else {
        let tail_path = if path.len() > 0 {
            path.drop_last()
        } else {
            path
        };
        lemma_skip_empty_yields(repo, stack.drop_last(), tail_path, fuel);
        assert(yields_below(repo, stack.last().dirents, path, fuel) == Some(
            Multiset::<(Seq<char>, Seq<char>)>::empty(),
        ));
        match yields_of_state(repo, stack.drop_last(), tail_path, fuel) {
            Some(m2) => {
                assert(Multiset::<(Seq<char>, Seq<char>)>::empty().add(m2) =~= m2);
            },
            None => {},
        }
    }
}

/// What remains after dropping exhausted frames: nothing, or a frame with
/// entries still to visit.
proof fn lemma_skip_empty_shape(stack: Seq<DirModel>, path: Seq<Seq<char>>)
    ensures
        spec_skip_empty(stack, path).0.len() == 0 || spec_skip_empty(
            stack,
            path,
        ).0.last().dirents.len() > 0,
    decreases stack.len(),
{
    if stack.len() > 0 && stack.last().dirents.len() == 0 {
        lemma_skip_empty_shape(
            stack.drop_last(),
            if path.len() > 0 {
                path.drop_last()
            } else {
                path
            },
        );
    }
}

/// Law: while every remaining entry resolves, one walker step either ends
/// the walk with nothing left, or yields exactly one entry — its parent
/// path and name — and the entries that remain are exactly the previous
/// ones without it.  Folded over a whole run this makes the multiset of
/// yielded `(parent_path, name)` pairs the tree's contents, each exactly
/// once; a failing step cannot occur while the remainder resolves.
pub proof fn lemma_walker_step_conserves(
    repo: Repo,
    stack0: Seq<DirModel>,
    path0: Seq<Seq<char>>,
    r: Option<Result<(String, DirentJson, FsJson), SeafError>>,
    m2: WalkerModel,
    fuel: nat,
)
    requires
        walking_step_post(repo, stack0, path0, r, m2),
        fuel >= 1,
        yields_of_state(repo, stack0, path0, fuel) is Some,
    ensures
        match r {
            None => yields_of_state(repo, stack0, path0, fuel) == Some(
                Multiset::<(Seq<char>, Seq<char>)>::empty(),
            ),
            Some(Ok(item)) => (m2 matches WalkerModel::Walking(s2, p2) && yields_of_state(
                repo,
                s2,
                p2,
                fuel,
            ) matches Some(m_rest) && yields_of_state(repo, stack0, path0, fuel) == Some(
                m_rest.insert((item.0@, item.1@.name)),
            )),
            Some(Err(_)) => false,
        },
{
    lemma_skip_empty_yields(repo, stack0, path0, fuel);
    lemma_skip_empty_shape(stack0, path0);
    let sp = spec_skip_empty(stack0, path0);
    let s = sp.0;
    let p = sp.1;
    let y_all = yields_of_state(repo, stack0, path0, fuel).unwrap();
    if s.len() == 0 {
        // The walk is over: no frame, so nothing remains.
    } else {
        let top = s.last();
        let de = top.dirents.last();
        let tail_path = if p.len() > 0 {
            p.drop_last()
        } else {
            p
        };
        let y_top = yields_below(repo, top.dirents, p, fuel);
        let y_tail = yields_of_state(repo, s.drop_last(), tail_path, fuel);
        assert(y_top is Some && y_tail is Some);
        let top2 = DirModel { dirents: top.dirents.drop_last(), ty: top.ty, version: top.version };
        let s2 = s.update(s.len() - 1, top2);
        assert(s2.drop_last() =~= s.drop_last());
        assert(s2.last() == top2);
        match spec_load_fs(repo, de.id) {
            None => {
                assert(y_top is None);
            },
            Some(FsModel::File(_)) => {
                let m_drop = yields_below(repo, top.dirents.drop_last(), p, fuel).unwrap();
                assert(y_top.unwrap() == m_drop.insert((spec_join_path(p), de.name)));
                assert(yields_of_state(repo, s2, p, fuel) == Some(m_drop.add(y_tail.unwrap())));
                assert(y_all == y_top.unwrap().add(y_tail.unwrap()));
                assert(m_drop.insert((spec_join_path(p), de.name)).add(y_tail.unwrap())
                    =~= m_drop.add(y_tail.unwrap()).insert((spec_join_path(p), de.name)));
            },
            Some(FsModel::Dir(d)) => {
                let m_drop = yields_below(repo, top.dirents.drop_last(), p, fuel).unwrap();
                let m_sub_low = yields_below(repo, d.dirents, p.push(de.name), (fuel - 1) as nat);
                assert(m_sub_low is Some);
                lemma_yields_below_fuel(repo, d.dirents, p.push(de.name), (fuel - 1) as nat, fuel);
                let m_sub = m_sub_low.unwrap();
                assert(y_top.unwrap() == m_drop.add(m_sub).insert((spec_join_path(p), de.name)));
                // The new state stacks the opened directory above the
                // shortened frame.
                let s3 = s2.push(d);
                let p3 = p.push(de.name);
                assert(s3.last() == d);
                assert(s3.drop_last() =~= s2);
                assert(p3.drop_last() =~= p);
                assert(yields_below(repo, d.dirents, p3, fuel) == Some(m_sub));
                assert(yields_of_state(repo, s2, p, fuel) == Some(m_drop.add(y_tail.unwrap())));
                assert(yields_of_state(repo, s3, p3, fuel) == Some(
                    m_sub.add(m_drop.add(y_tail.unwrap())),
                ));
                assert(m_drop.add(m_sub).insert((spec_join_path(p), de.name)).add(y_tail.unwrap())
                    =~= m_sub.add(m_drop.add(y_tail.unwrap())).insert(
                    (spec_join_path(p), de.name),
                ));
            },
        }
    }
}


/// On entering the walk, the remaining entries are the whole tree's: the
/// first step opens the root directory as the only frame, with the empty
/// path.
pub proof fn lemma_tree_entries_initial(repo: Repo, root_id: Sha1, d: DirModel, fuel: nat)
    requires
        spec_load_fs(repo, root_id) == Some(FsModel::Dir(d)),
    ensures
        yields_of_state(repo, seq![d], Seq::empty(), fuel) == spec_tree_entries(
            repo,
            root_id,
            fuel,
        ),
{
    reveal_with_fuel(yields_of_state, 3);
    let st = seq![d];
    assert(st.last() == d);
    assert(st.drop_last() =~= Seq::<DirModel>::empty());
    assert(yields_of_state(repo, Seq::<DirModel>::empty(), Seq::<Seq<char>>::empty(), fuel)
        == Some(Multiset::<(Seq<char>, Seq<char>)>::empty()));
    match yields_below(repo, d.dirents, Seq::empty(), fuel) {
        Some(m) => {
            assert(m.add(Multiset::<(Seq<char>, Seq<char>)>::empty()) =~= m);
        },
        None => {},
    }
}

/// Law: pruning at a directory elides exactly the entries within it and
/// all deeper descendants.  `prune` pops the innermost frame and its path
/// component; what the walk then still yields is the previous remainder
/// less everything below that frame.
pub proof fn lemma_prune_elides_frame(
    repo: Repo,
    stack: Seq<DirModel>,
    path: Seq<Seq<char>>,
    fuel: nat,
)
    requires
        stack.len() > 0,
        yields_of_state(repo, stack, path, fuel) is Some,
    ensures
        ({
            let tail_path = if path.len() > 0 {
                path.drop_last()
            } else {
                path
            };
            yields_of_state(repo, stack.drop_last(), tail_path, fuel) matches Some(kept)
                && yields_below(repo, stack.last().dirents, path, fuel) matches Some(elided)
                && yields_of_state(repo, stack, path, fuel) == Some(elided.add(kept))
        }),
{
    let tail_path = if path.len() > 0 {
        path.drop_last()
    } else {
        path
    };
    assert(yields_of_state(repo, stack.drop_last(), tail_path, fuel) is Some);
    assert(yields_below(repo, stack.last().dirents, path, fuel) is Some);
}

} // verus!

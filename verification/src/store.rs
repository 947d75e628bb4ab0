//! The content-addressed object store and its deterministic file names.
//!
//! Objects live in three stores — commits, fs-nodes and blocks — each keyed
//! by a 20-byte hash.  The store is held in memory as an association list in
//! insertion order; the on-disk tree is read into it before the library is
//! opened.  An object, once stored, is never replaced: adding a hash that is
//! already present leaves the store unchanged.

use crate::hash::Sha1;
use crate::hash::{sha1_render, sha1_render_bytes};
use std::sync::Arc;
use vstd::prelude::*;

verus! {

/// Relies on `Arc::clone`: a clone is a handle to the same value.
#[verifier::external_body]
pub fn arc_clone<T>(r: &Arc<T>) -> (res: Arc<T>)
    ensures
        res == *r,
{
    Arc::clone(r)
}

/// Where a repository lives: its root directory and the library uuid.
#[derive(Debug, Clone)]
pub struct LibraryLocation {
    pub repo_path: String,
    pub uuid: String,
}

/// One of the three object stores, in insertion order.
pub type ObjectList = Vec<(Sha1, Vec<u8>)>;

/// The in-memory image of a repository's three object stores.
#[derive(Debug)]
pub struct Repo {
    /// Commit objects: uncompressed JSON.
    pub commits: ObjectList,
    /// Fs-node objects: zlib-compressed JSON.
    pub fs_objects: ObjectList,
    /// Block objects: raw byte payloads.
    pub blocks: ObjectList,
}

/// The content stored under `id`: the first entry with that hash.
pub open spec fn assoc_get(s: Seq<(Sha1, Vec<u8>)>, id: Sha1) -> Option<Seq<u8>>
    decreases s.len(),
{
    if s.len() == 0 {
        None
    } else if s[0].0 == id {
        Some(s[0].1@)
    } else {
        assoc_get(s.drop_first(), id)
    }
}

proof fn lemma_assoc_get_skip(s: Seq<(Sha1, Vec<u8>)>, id: Sha1, i: int)
    requires
        0 <= i <= s.len(),
        forall|j: int| 0 <= j < i ==> (#[trigger] s[j]).0 != id,
    ensures
        assoc_get(s, id) == assoc_get(s.skip(i), id),
    decreases i,
{
    reveal_with_fuel(assoc_get, 3);
    assert(s.skip(0) =~= s);
    if i > 0 {
        lemma_assoc_get_skip(s, id, i - 1);
        assert(s.skip(i - 1).drop_first() =~= s.skip(i));
        assert(s.skip(i - 1).len() == s.len() - i + 1);
        assert(s.skip(i - 1)[0] == s[i - 1]);
    }
}

proof fn lemma_assoc_get_push(s: Seq<(Sha1, Vec<u8>)>, id: Sha1, p: (Sha1, Vec<u8>))
    ensures
        assoc_get(s.push(p), id) == (if assoc_get(s, id) is Some {
            assoc_get(s, id)
        } else if p.0 == id {
            Some(p.1@)
        } else {
            None
        }),
    decreases s.len(),
{
    reveal_with_fuel(assoc_get, 3);
    if s.len() == 0 {
        assert(s.push(p)[0] == p);
        assert(s.push(p).drop_first() =~= Seq::<(Sha1, Vec<u8>)>::empty());
    } else {
        assert(s.push(p)[0] == s[0]);
        lemma_assoc_get_push(s.drop_first(), id, p);
        assert(s.push(p).drop_first() =~= s.drop_first().push(p));
    }
}

/// Whatever the store returns is the view of a held vector, so its length
/// is bounded by the address space.
pub proof fn lemma_assoc_get_fits(s: Seq<(Sha1, Vec<u8>)>, id: Sha1)
    ensures
        assoc_get(s, id) matches Some(b) ==> b.len() <= usize::MAX,
    decreases s.len(),
{
    if s.len() > 0 {
        if s[0].0 == id {
            let b = s[0].1;
            vstd::std_specs::vec::axiom_spec_len(&b);
        } else {
            lemma_assoc_get_fits(s.drop_first(), id);
        }
    }
}

/// Look up an object by hash: the first stored entry wins.
pub fn store_get<'a>(s: &'a ObjectList, id: &Sha1) -> (r: Option<&'a Vec<u8>>)
    ensures
        match r {
            Some(b) => assoc_get(s@, *id) == Some(b@),
            None => assoc_get(s@, *id) is None,
        },
{
    let n: usize = s.len();
    let mut i: usize = 0;
    while i < n
        invariant
            0 <= i <= n,
            n == s@.len(),
            forall|j: int| 0 <= j < i ==> (#[trigger] s@[j]).0 != *id,
        decreases n - i,
    {
        if s[i].0 == *id {
            proof {
                lemma_assoc_get_skip(s@, *id, i as int);
                assert(s@.skip(i as int)[0] == s@[i as int]);
            }
            return Some(&s[i].1);
        }
        i = i + 1;
    }
    proof {
        lemma_assoc_get_skip(s@, *id, n as int);
        assert(s@.skip(n as int).len() == 0);
    }
    None
}

/// True when the store holds an object under `id`.
pub fn store_has(s: &ObjectList, id: &Sha1) -> (r: bool)
    ensures
        r == (assoc_get(s@, *id) is Some),
{
    match store_get(s, id) {
        Some(_) => true,
        None => false,
    }
}

/// Add an object under a hash.  Stored objects are immutable: if the hash is
/// already present the store is unchanged.
pub fn store_add(s: &mut ObjectList, id: Sha1, bytes: Vec<u8>)
    ensures
        forall|x: Sha1| #[trigger]
            assoc_get(final(s)@, x) == (if assoc_get(old(s)@, x) is Some {
                assoc_get(old(s)@, x)
            } else if x == id {
                Some(bytes@)
            } else {
                None
            }),
{
    let present = store_has(s, &id);
    if !present {
        let ghost old_s = s@;
        let ghost bv = bytes@;
        s.push((id, bytes));
        proof {
            assert forall|x: Sha1| #[trigger] assoc_get(s@, x) == (if assoc_get(old_s, x) is Some {
                assoc_get(old_s, x)
            } else if x == id {
                Some(bytes@)
            } else {
                None
            }) by {
                lemma_assoc_get_push(old_s, x, s@.last());
                assert(s@ =~= old_s.push(s@.last()));
            }
        }
    } else {
        proof {
            // The present branch must also show the stated shape: the old
            // binding survives for every hash, the new bytes are dropped.
            assert(assoc_get(s@, id) is Some);
        }
    }
}

impl Repo {
    /// An empty store.
    pub fn new() -> (r: Repo)
        ensures
            r.commits@.len() == 0,
            r.fs_objects@.len() == 0,
            r.blocks@.len() == 0,
    {
        Repo { commits: Vec::new(), fs_objects: Vec::new(), blocks: Vec::new() }
    }

    /// The commit object bytes stored under `id`.
    pub open spec fn commit_at(self, id: Sha1) -> Option<Seq<u8>> {
        assoc_get(self.commits@, id)
    }

    /// The fs-node object bytes stored under `id`.
    pub open spec fn fs_at(self, id: Sha1) -> Option<Seq<u8>> {
        assoc_get(self.fs_objects@, id)
    }

    /// The block object bytes stored under `id`.
    pub open spec fn block_at(self, id: Sha1) -> Option<Seq<u8>> {
        assoc_get(self.blocks@, id)
    }

    /// Add a commit object.
    pub fn add_commit(&mut self, id: Sha1, bytes: Vec<u8>)
        ensures
            final(self).fs_objects == old(self).fs_objects,
            final(self).blocks == old(self).blocks,
            forall|x: Sha1| #[trigger]
                final(self).commit_at(x) == (if old(self).commit_at(x) is Some {
                    old(self).commit_at(x)
                } else if x == id {
                    Some(bytes@)
                } else {
                    None
                }),
    {
        store_add(&mut self.commits, id, bytes);
    }

    /// Add an fs-node object.
    pub fn add_fs(&mut self, id: Sha1, bytes: Vec<u8>)
        ensures
            final(self).commits == old(self).commits,
            final(self).blocks == old(self).blocks,
            forall|x: Sha1| #[trigger]
                final(self).fs_at(x) == (if old(self).fs_at(x) is Some {
                    old(self).fs_at(x)
                } else if x == id {
                    Some(bytes@)
                } else {
                    None
                }),
    {
        store_add(&mut self.fs_objects, id, bytes);
    }

    /// Add a block object.
    pub fn add_block(&mut self, id: Sha1, bytes: Vec<u8>)
        ensures
            final(self).commits == old(self).commits,
            final(self).fs_objects == old(self).fs_objects,
            forall|x: Sha1| #[trigger]
                final(self).block_at(x) == (if old(self).block_at(x) is Some {
                    old(self).block_at(x)
                } else if x == id {
                    Some(bytes@)
                } else {
                    None
                }),
    {
        store_add(&mut self.blocks, id, bytes);
    }
}


/// The directory that holds one object type: `repo_path/ty/uuid`.
pub open spec fn obj_type_path_chars(ll: LibraryLocation, ty: Seq<char>) -> Seq<char> {
    ll.repo_path@ + seq!['/'] + ty + seq!['/'] + ll.uuid@
}

/// The file that holds one object: `repo_path/ty/uuid/xx/yyyy...` where
/// `xx` is the first two hex characters of the hash and `yyyy...` the rest.
pub open spec fn obj_path_chars_of(
    repo_path: Seq<char>,
    uuid: Seq<char>,
    ty: Seq<char>,
    id: Sha1,
) -> Seq<char> {
    repo_path + seq!['/'] + ty + seq!['/'] + uuid + seq!['/'] + sha1_render(id).take(2)
        + seq!['/'] + sha1_render(id).skip(2)
}

/// The object file for a hash under a library location.
pub open spec fn obj_path_chars(ll: LibraryLocation, ty: Seq<char>, id: Sha1) -> Seq<char> {
    obj_path_chars_of(ll.repo_path@, ll.uuid@, ty, id)
}

/// The directory of one object type, as text.
pub fn obj_type_path(ll: &LibraryLocation, ty: &str) -> (r: String)
    ensures
        r@ == obj_type_path_chars(*ll, ty@),
{
    proof {
        reveal_strlit("/");
    }
    let mut p = String::new();
    p.append(ll.repo_path.as_str());
    p.append("/");
    p.append(ty);
    p.append("/");
    p.append(ll.uuid.as_str());
    proof {
        assert(p@ =~= obj_type_path_chars(*ll, ty@));
    }
    p
}

/// The deterministic file name of one object, as text.
pub fn full_obj_path(ll: &LibraryLocation, ty: &str, id: &Sha1) -> (r: String)
    ensures
        r@ == obj_path_chars(*ll, ty@, *id),
{
    proof {
        reveal_strlit("/");
    }
    let hx = id.hex_bytes();
    let mut pre: Vec<u8> = Vec::new();
    pre.push(hx[0]);
    pre.push(hx[1]);
    let mut rest: Vec<u8> = Vec::new();
    let mut i: usize = 2;
    while i < 40
        invariant
            2 <= i <= 40,
            hx@.len() == 40,
            forall|j: int| 0 <= j < hx@.len() ==> #[trigger] hx@[j] < 0x80,
            rest@ =~= hx@.subrange(2, i as int),
        decreases 40 - i,
    {
        rest.push(hx[i]);
        proof {
            assert(rest@ =~= hx@.subrange(2, i + 1 as int));
        }
        i = i + 1;
    }
    let mut p = obj_type_path(ll, ty);
    p.append("/");
    let pre_s = crate::hash::ascii_to_string(&pre);
    p.append(pre_s.as_str());
    p.append("/");
    let rest_s = crate::hash::ascii_to_string(&rest);
    p.append(rest_s.as_str());
    proof {
        assert(pre@ =~= sha1_render_bytes(*id).take(2));
        assert(rest@ =~= sha1_render_bytes(*id).skip(2));
        assert forall|k: int| 0 <= k < 2 implies crate::hash::chars_of_ascii(pre@)[k]
            == sha1_render(*id).take(2)[k] by {
            assert(pre@[k] == sha1_render_bytes(*id)[k]);
        }
        assert(crate::hash::chars_of_ascii(pre@) =~= sha1_render(*id).take(2));
        assert forall|k: int| 0 <= k < 38 implies crate::hash::chars_of_ascii(rest@)[k]
            == sha1_render(*id).skip(2)[k] by {
            assert(rest@[k] == sha1_render_bytes(*id)[k + 2]);
        }
        assert(crate::hash::chars_of_ascii(rest@) =~= sha1_render(*id).skip(2));
        assert(p@ =~= obj_path_chars(*ll, ty@, *id));
    }
    p
}


use vstd::string::StringSliceAdditionalSpecFns;

/// Equality of two strings, decided byte by byte.
pub fn str_eq(a: &str, b: &str) -> (r: bool)
    ensures
        r == (a@ == b@),
{
    broadcast use vstd::utf8::encode_utf8_decode_utf8;

    let ab: &[u8] = a.as_bytes();
    let bb: &[u8] = b.as_bytes();
    let n: usize = ab.len();
    if n != bb.len() {
        proof {
            assert(a@ != b@);
        }
        return false;
    }
    let mut i: usize = 0;
    while i < n
        invariant
            0 <= i <= n,
            n == ab@.len(),
            n == bb@.len(),
            ab@ == a.spec_bytes(),
            bb@ == b.spec_bytes(),
            forall|j: int| 0 <= j < i ==> ab@[j] == bb@[j],
        decreases n - i,
    {
        if ab[i] != bb[i] {
            proof {
                assert(a@ != b@);
            }
            return false;
        }
        i = i + 1;
    }
    proof {
        assert(a.spec_bytes() =~= b.spec_bytes());
        assert(vstd::utf8::decode_utf8(vstd::utf8::encode_utf8(a@)) == a@);
        assert(vstd::utf8::decode_utf8(vstd::utf8::encode_utf8(b@)) == b@);
        assert(a@ == b@);
    }
    true
}

} // verus!

//! Random-access reading over the blocks of one file.
//!
//! A file's bytes are the concatenation, in order, of its block objects.
//! `FileBlockReader` records each block's length and start offset at
//! construction; `read_at_offset` then serves any byte range, opening each
//! block it crosses.  `FileReader` adds a cursor with stream semantics.

use crate::error::{IoKind, SeafError};
use crate::hash::Sha1;
use crate::node::FileJson;
use crate::store::{LibraryLocation, Repo, full_obj_path, store_get};
use std::sync::Arc;
use vstd::prelude::*;

verus! {

/// The bytes of the block stored under `id`; an absent block reads as empty.
pub open spec fn block_bytes(repo: Repo, id: Sha1) -> Seq<u8> {
    match repo.block_at(id) {
        Some(b) => b,
        None => Seq::empty(),
    }
}

/// The concatenation of the blocks from index `i` on.
pub open spec fn content_from(repo: Repo, ids: Seq<Sha1>, i: int) -> Seq<u8>
    decreases ids.len() - i,
{
    if i < 0 || i >= ids.len() {
        Seq::empty()
    } else {
        block_bytes(repo, ids[i]) + content_from(repo, ids, i + 1)
    }
}

/// The whole content of a file: its blocks, concatenated in order.
pub open spec fn spec_file_content(repo: Repo, ids: Seq<Sha1>) -> Seq<u8> {
    content_from(repo, ids, 0)
}

/// Every named block is stored, and `sizes` records each block's length.
pub open spec fn blocks_match(repo: Repo, ids: Seq<Sha1>, sizes: Seq<usize>) -> bool {
    &&& sizes.len() == ids.len()
    &&& forall|j: int|
        0 <= j < ids.len() ==> repo.block_at(#[trigger] ids[j]) is Some && block_bytes(
            repo,
            ids[j],
        ).len() == sizes[j]
}

/// The sum of the first `i` block sizes: the start offset of block `i`.
pub open spec fn sizes_prefix(sizes: Seq<usize>, i: int) -> int
    decreases i,
{
    if i <= 0 {
        0
    } else {
        sizes_prefix(sizes, i - 1) + sizes[i - 1]
    }
}

proof fn lemma_sizes_prefix_mono(sizes: Seq<usize>, i: int, j: int)
    requires
        0 <= i <= j <= sizes.len(),
    ensures
        sizes_prefix(sizes, i) <= sizes_prefix(sizes, j),
    decreases j - i,
{
    if i < j {
        lemma_sizes_prefix_mono(sizes, i, j - 1);
    }
}

proof fn lemma_sizes_prefix_nonneg(sizes: Seq<usize>, i: int)
    ensures
        sizes_prefix(sizes, i) >= 0,
    decreases i,
{
    if i > 0 {
        lemma_sizes_prefix_nonneg(sizes, i - 1);
    }
}

/// The content from block `i` on has the summed length of those blocks.
proof fn lemma_content_from_len(repo: &Repo, ids: Seq<Sha1>, sizes: Seq<usize>, i: int)
    requires
        blocks_match(*repo, ids, sizes),
        0 <= i <= ids.len(),
    ensures
        content_from(*repo, ids, i).len() == sizes_prefix(sizes, ids.len() as int) - sizes_prefix(
            sizes,
            i,
        ),
    decreases ids.len() - i,
{
    if i < ids.len() {
        lemma_content_from_len(repo, ids, sizes, i + 1);
        lemma_prefix_step(sizes, i);
    } else {
        lemma_sizes_prefix_mono(sizes, 0, i);
    }
}

proof fn lemma_prefix_step(sizes: Seq<usize>, i: int)
    requires
        0 <= i < sizes.len(),
    ensures
        sizes_prefix(sizes, i + 1) == sizes_prefix(sizes, i) + sizes[i],
{
}

/// Reading inside block `bi` reads that block's bytes.
proof fn lemma_content_index(repo: &Repo, ids: Seq<Sha1>, sizes: Seq<usize>, bi: int, off: int)
    requires
        blocks_match(*repo, ids, sizes),
        0 <= bi < ids.len(),
        0 <= off < sizes[bi as int],
    ensures
        0 <= sizes_prefix(sizes, bi) + off < spec_file_content(*repo, ids).len(),
        spec_file_content(*repo, ids)[sizes_prefix(sizes, bi) + off] == block_bytes(
            *repo,
            ids[bi],
        )[off],
    decreases bi,
{
    lemma_content_from_len(repo, ids, sizes, 0);
    lemma_sizes_prefix_nonneg(sizes, bi);
    lemma_prefix_step(sizes, bi);
    lemma_sizes_prefix_mono(sizes, bi + 1, ids.len() as int);
    if bi == 0 {
        assert(spec_file_content(*repo, ids)[off] == block_bytes(*repo, ids[0])[off]);
    } else {
        // Index into the tail: the content drops the first block's bytes.
        let tail_ids = ids.drop_first();
        let tail_sizes = sizes.drop_first();
        assert forall|j: int| 0 <= j < tail_ids.len() implies (*repo).block_at(
            #[trigger] tail_ids[j],
        ) is Some && block_bytes(*repo, tail_ids[j]).len() == tail_sizes[j] by {
            assert(tail_ids[j] == ids[j + 1]);
            assert(tail_sizes[j] == sizes[j + 1]);
        }
        lemma_content_index(repo, tail_ids, tail_sizes, bi - 1, off);
        lemma_content_from_shift(repo, ids, 1);
        assert(content_from(*repo, ids, 1) =~= spec_file_content(*repo, tail_ids));
        lemma_prefix_shift(sizes, bi);
        assert(spec_file_content(*repo, ids) == block_bytes(*repo, ids[0]) + content_from(
            *repo,
            ids,
            1,
        ));
        assert(sizes_prefix(sizes, bi) + off - sizes[0] == sizes_prefix(tail_sizes, bi - 1) + off);
        assert(spec_file_content(*repo, ids)[sizes_prefix(sizes, bi) + off] == content_from(
            *repo,
            ids,
            1,
        )[sizes_prefix(sizes, bi) + off - sizes[0]]) by {
            lemma_sizes_prefix_nonneg(tail_sizes, bi - 1);
        }
    }
}

/// Dropping the first block shifts the remaining content by one index.
proof fn lemma_content_from_shift(repo: &Repo, ids: Seq<Sha1>, k: int)
    requires
        1 <= k <= ids.len(),
    ensures
        content_from(*repo, ids, k) =~= content_from(*repo, ids.drop_first(), k - 1),
    decreases ids.len() - k,
{
    if k < ids.len() {
        lemma_content_from_shift(repo, ids, k + 1);
        assert(ids.drop_first()[k - 1] == ids[k]);
        assert(content_from(*repo, ids, k) == block_bytes(*repo, ids[k]) + content_from(
            *repo,
            ids,
            k + 1,
        ));
    }
}

/// The prefix sums of the tail are the whole prefix sums less the head.
proof fn lemma_prefix_shift(sizes: Seq<usize>, i: int)
    requires
        1 <= i <= sizes.len(),
    ensures
        sizes_prefix(sizes, i) == sizes[0] + sizes_prefix(sizes.drop_first(), i - 1),
    decreases i,
{
    reveal_with_fuel(sizes_prefix, 3);
    if i > 1 {
        lemma_prefix_shift(sizes, i - 1);
        assert(sizes.drop_first()[i - 2] == sizes[i - 1]);
    }
}

/// Relies on `bisection::bisect_right`: on a sorted slice it returns the
/// index with every earlier element at most `x` and every later one greater.
#[verifier::external_body]
fn bisect_right_u64(a: &Vec<u64>, x: u64) -> (r: usize)
    requires
        forall|i: int, j: int| 0 <= i <= j < a@.len() ==> a@[i] <= a@[j],
    ensures
        0 <= r <= a@.len(),
        forall|j: int| 0 <= j < r ==> a@[j] <= x,
        forall|j: int| r <= j < a@.len() ==> a@[j] > x,
{
    bisection::bisect_right(a.as_slice(), &x)
}

/// Random access over the virtual concatenation of a file's blocks.
#[derive(Debug)]
pub struct FileBlockReader {
    location: Arc<LibraryLocation>,
    store: Arc<Repo>,
    block_ids: Vec<Sha1>,
    block_sizes: Vec<usize>,
    block_starts: Vec<u64>,
    size: u64,
}

impl FileBlockReader {
    #[verifier::type_invariant]
    spec fn wf(self) -> bool {
        &&& blocks_match(*self.store, self.block_ids@, self.block_sizes@)
        &&& self.block_starts@.len() == self.block_ids@.len()
        &&& forall|i: int|
            0 <= i < self.block_starts@.len() ==> #[trigger] self.block_starts@[i] as int
                == sizes_prefix(self.block_sizes@, i)
        &&& self.size as int == sizes_prefix(self.block_sizes@, self.block_ids@.len() as int)
    }

    /// The repository image the reader reads blocks from.
    pub closed spec fn repo(self) -> Repo {
        *self.store
    }

    /// The ordered block hashes of the file.
    pub closed spec fn ids(self) -> Seq<Sha1> {
        self.block_ids@
    }

    /// The file's total length in bytes.
    pub closed spec fn spec_size(self) -> u64 {
        self.size
    }

    /// The file's bytes: its blocks concatenated in order.
    pub open spec fn content(self) -> Seq<u8> {
        spec_file_content(self.repo(), self.ids())
    }

    /// The file's total length: the length of the concatenated content.
    pub fn size(&self) -> (r: u64)
        ensures
            r == self.spec_size(),
            r == self.content().len(),
    {
        proof {
            use_type_invariant(&*self);
            lemma_content_from_len(&*self.store, self.ids(), self.block_sizes@, 0);
        }
        self.size
    }

    /// Record each block's length and start offset.  Fails when a block is
    /// missing from the store, or when the total length cannot be counted
    /// in 64 bits.
    pub fn new(file: &FileJson, location: Arc<LibraryLocation>, store: Arc<Repo>) -> (r: Result<
        FileBlockReader,
        SeafError,
    >)
        ensures
            match r {
                Ok(br) => {
                    &&& br.repo() == *store
                    &&& br.ids() == file.block_ids@
                    &&& blocks_present(*store, file.block_ids@)
                },
                Err(e) => {
                    &&& !(blocks_present(*store, file.block_ids@) && spec_file_content(
                        *store,
                        file.block_ids@,
                    ).len() <= u64::MAX)
                    &&& (e matches SeafError::IO(_, IoKind::NotFound) || e
                        matches SeafError::NotImpl)
                },
            },
    {
        let n: usize = file.block_ids.len();
        let mut block_sizes: Vec<usize> = Vec::new();
        let mut block_starts: Vec<u64> = Vec::new();
        let mut pos: u64 = 0;
        let mut i: usize = 0;
        while i < n
            invariant
                0 <= i <= n,
                n == file.block_ids@.len(),
                block_sizes@.len() == i,
                block_starts@.len() == i,
                blocks_match_up_to(*store, file.block_ids@, block_sizes@, i as int),
                forall|j: int|
                    0 <= j < i ==> #[trigger] block_starts@[j] as int == sizes_prefix(
                        block_sizes@,
                        j,
                    ),
                pos as int == sizes_prefix(block_sizes@, i as int),
            decreases n - i,
        {
            let id = file.block_ids[i];
            let repo: &Repo = &*store;
            let l: usize = match store_get(&repo.blocks, &id) {
                Some(b) => b.len(),
                None => {
                    proof {
                        assert((*store).block_at(file.block_ids@[i as int]) is None);
                        assert(!blocks_present(*store, file.block_ids@));
                    }
                    return Err(
                        SeafError::IO(full_obj_path(&location, "blocks", &id), IoKind::NotFound),
                    );
                },
            };
            if (l as u64) > u64::MAX - pos {
                proof {
                    let ghost ext = block_sizes@.push(l);
                    assert(ext.drop_last() =~= block_sizes@);
                    lemma_prefix_ignores_tail(ext, i as int, i as int);
                    lemma_prefix_step(ext, i as int);
                    assert(sizes_prefix(ext, i as int + 1) > u64::MAX);
                    lemma_overflow_means_large(&*store, file.block_ids@, ext, i as int);
                }
                return Err(SeafError::NotImpl);
            }
            let new_pos = pos + (l as u64);
            let ghost old_sizes = block_sizes@;
            let ghost old_starts = block_starts@;
            let ghost bytes_len = l as int;
            block_starts.push(pos);
            block_sizes.push(l);
            proof {
                assert(block_sizes@ =~= old_sizes.push(l));
                assert(block_sizes@.drop_last() =~= old_sizes);
                assert forall|j: int| 0 <= j <= i implies sizes_prefix(block_sizes@, j)
                    == sizes_prefix(old_sizes, j) by {
                    lemma_prefix_ignores_tail(block_sizes@, j, i as int);
                }
                lemma_prefix_step(block_sizes@, i as int);
                assert forall|j: int|
                    0 <= j < i + 1 implies (*store).block_at(
                    #[trigger] file.block_ids@[j],
                ) is Some && block_bytes(*store, file.block_ids@[j]).len() == block_sizes@[j] by {
                    if j < i {
                        assert((*store).block_at(file.block_ids@[j]) is Some);
                        assert(block_sizes@[j] == old_sizes[j]);
                    } else {
                        assert(block_sizes@[j] == l);
                    }
                }
                assert forall|j: int| 0 <= j < i + 1 implies #[trigger] block_starts@[j] as int
                    == sizes_prefix(block_sizes@, j) by {
                    if j < i {
                        assert(block_starts@[j] == old_starts[j]);
                    } else {
                        assert(block_starts@[j] == pos);
                    }
                }
            }
            pos = new_pos;
            i = i + 1;
        }
        let br = FileBlockReader {
            location,
            store,
            block_ids: clone_ids(&file.block_ids),
            block_sizes,
            block_starts,
            size: pos,
        };
        proof {
            assert(blocks_present(*br.store, br.block_ids@));
        }
        Ok(br)
    }

    /// Read up to `len` bytes starting at `offset`: exactly the bytes of the
    /// content between `offset` and `offset + len`, clipped to the file's
    /// end.  A read at or past the end yields no bytes.
    pub fn read_at_offset(&self, offset: u64, len: usize) -> (r: Result<Vec<u8>, SeafError>)
        ensures
            match r {
                Ok(data) => data@ == self.content().subrange(
                    vstd::math::min(offset as int, self.content().len() as int),
                    vstd::math::min(offset as int + len as int, self.content().len() as int),
                ),
                Err(_) => false,
            },
    {
        proof {
            use_type_invariant(&*self);
            lemma_content_from_len(&*self.store, self.ids(), self.block_sizes@, 0);
        }
        let n: usize = self.block_ids.len();
        if offset >= self.size {
            let empty: Vec<u8> = Vec::new();
            proof {
                assert(empty@ =~= self.content().subrange(
                    vstd::math::min(offset as int, self.content().len() as int),
                    vstd::math::min(offset as int + len as int, self.content().len() as int),
                ));
            }
            return Ok(empty);
        }
        proof {
            assert forall|i: int, j: int|
                0 <= i <= j < self.block_starts@.len() implies self.block_starts@[i]
                <= self.block_starts@[j] by {
                lemma_sizes_prefix_mono(self.block_sizes@, i, j);
            }
        }
        let next_block_idx = bisect_right_u64(&self.block_starts, offset);
        proof {
            assert(n > 0) by {
                if n == 0 {
                    assert(self.size as int == sizes_prefix(self.block_sizes@, 0));
                }
            }
            assert(self.block_starts@[0] == 0) by {
                assert(self.block_starts@[0] as int == sizes_prefix(self.block_sizes@, 0));
            }
            assert(next_block_idx >= 1);
        }
        let mut bi = next_block_idx - 1;
        let start_u64 = self.block_starts[bi];
        let mut boff: usize = (offset - start_u64) as usize;
        proof {
            // The chosen block covers `offset`.
            if bi + 1 < n {
                assert(self.block_starts@[bi + 1] > offset);
                lemma_prefix_step(self.block_sizes@, bi as int);
            } else {
                assert(offset < self.size);
                lemma_prefix_step(self.block_sizes@, bi as int);
            }
            assert(((offset - start_u64) as int) < self.block_sizes@[bi as int]);
        }
        let mut out: Vec<u8> = Vec::new();
        while out.len() < len && bi < n
            invariant
                0 <= bi <= n,
                n == self.block_ids@.len(),
                out@.len() <= len,
                self.wf(),
                self.content().len() == self.size,
                offset < self.size,
                bi < n ==> boff <= self.block_sizes@[bi as int],
                bi < n ==> offset as int + out@.len() == sizes_prefix(self.block_sizes@, bi as int)
                    + boff,
                bi == n ==> offset as int + out@.len() == self.size as int,
                out@ =~= self.content().subrange(offset as int, offset as int + out@.len()),
            decreases n - bi, len - out@.len(),
        {
            let this_size = self.block_sizes[bi];
            let id = self.block_ids[bi];
            let repo: &Repo = &*self.store;
            let block: &Vec<u8> = match store_get(&repo.blocks, &id) {
                Some(b) => b,
                None => {
                    proof {
                        assert(false);
                    }
                    return Err(SeafError::NotImpl);
                },
            };
            let want: usize = len - out.len();
            let avail: usize = this_size - boff;
            let to_read: usize = if want < avail {
                want
            } else {
                avail
            };
            let mut k: usize = 0;
            while k < to_read
                invariant
                    0 <= k <= to_read,
                    0 <= bi < n,
                    n == self.block_ids@.len(),
                    self.wf(),
                    self.content().len() == self.size,
                    boff + to_read <= self.block_sizes@[bi as int],
                    block@ == block_bytes(*self.store, self.block_ids@[bi as int]),
                    block@.len() == self.block_sizes@[bi as int],
                    offset as int + out@.len() == sizes_prefix(self.block_sizes@, bi as int) + boff
                        + k,
                    out@.len() + to_read - k <= len,
                    out@ =~= self.content().subrange(offset as int, offset as int + out@.len()),
                decreases to_read - k,
            {
                let b = block[boff + k];
                proof {
                    lemma_content_index(
                        &*self.store,
                        self.block_ids@,
                        self.block_sizes@,
                        bi as int,
                        boff + k,
                    );
                    assert(out@.push(b) =~= self.content().subrange(
                        offset as int,
                        offset as int + out@.len() + 1,
                    ));
                }
                out.push(b);
                k = k + 1;
            }
            if to_read < avail {
                // The request ends inside this block.
                boff = boff + to_read;
                proof {
                    assert(out@.len() == len);
                }
            } else {
                bi = bi + 1;
                boff = 0;
                proof {
                    lemma_prefix_step(self.block_sizes@, bi as int - 1);
                    if bi == n {
                        assert(offset as int + out@.len() == sizes_prefix(
                            self.block_sizes@,
                            n as int,
                        ));
                    }
                }
            }
        }
        proof {
            assert(out@.len() >= len || bi >= n);
            if out@.len() < len {
                assert(bi == n);
                assert(offset as int + out@.len() == self.size as int);
            } else {
                if bi < n {
                    lemma_prefix_step(self.block_sizes@, bi as int);
                    lemma_sizes_prefix_mono(self.block_sizes@, bi as int + 1, n as int);
                }
                assert(offset as int + len as int <= self.content().len());
            }
            assert(out@ =~= self.content().subrange(
                vstd::math::min(offset as int, self.content().len() as int),
                vstd::math::min(offset as int + len as int, self.content().len() as int),
            ));
        }
        Ok(out)
    }
}

/// Every named block is present in the store.
pub open spec fn blocks_present(repo: Repo, ids: Seq<Sha1>) -> bool {
    forall|j: int| 0 <= j < ids.len() ==> repo.block_at(#[trigger] ids[j]) is Some
}

/// `blocks_match` restricted to the first `i` blocks.
pub open spec fn blocks_match_up_to(repo: Repo, ids: Seq<Sha1>, sizes: Seq<usize>, i: int) -> bool {
    &&& sizes.len() == i
    &&& i <= ids.len()
    &&& forall|j: int|
        0 <= j < i ==> repo.block_at(#[trigger] ids[j]) is Some && block_bytes(repo, ids[j]).len()
            == sizes[j]
}

/// If the sizes recorded so far already exceed 64 bits, the whole content
/// does, provided every block is present.
proof fn lemma_overflow_means_large(repo: &Repo, ids: Seq<Sha1>, sizes_part: Seq<usize>, i: int)
    requires
        blocks_match_up_to(*repo, ids, sizes_part.drop_last(), i),
        sizes_part.len() == i + 1,
        0 <= i < ids.len(),
        block_bytes(*repo, ids[i]).len() == sizes_part[i],
        sizes_prefix(sizes_part, i + 1) > u64::MAX,
    ensures
        blocks_present(*repo, ids) ==> spec_file_content(*repo, ids).len() > u64::MAX,
{
    if blocks_present(*repo, ids) {
        let full = Seq::new(ids.len(), |j: int| block_bytes(*repo, ids[j]).len() as usize);
        assert(blocks_match(*repo, ids, full)) by {
            assert forall|j: int| 0 <= j < ids.len() implies (*repo).block_at(#[trigger] ids[j])
                is Some && block_bytes(*repo, ids[j]).len() == full[j] by {
                crate::store::lemma_assoc_get_fits(repo.blocks@, ids[j]);
            }
        }
        lemma_content_from_len(repo, ids, full, 0);
        lemma_prefix_agree(sizes_part, full, i + 1);
        lemma_sizes_prefix_mono(full, i + 1, ids.len() as int);
    }
}

/// Two size sequences that agree up to `i` have the same prefix sums there.
proof fn lemma_prefix_agree(a: Seq<usize>, b: Seq<usize>, i: int)
    requires
        i <= a.len(),
        i <= b.len(),
        forall|j: int| 0 <= j < i ==> a[j] == b[j],
    ensures
        sizes_prefix(a, i) == sizes_prefix(b, i),
    decreases i,
{
    if i > 0 {
        lemma_prefix_agree(a, b, i - 1);
    }
}

/// Prefix sums up to `j` ignore entries at and after `j`.
proof fn lemma_prefix_ignores_tail(a: Seq<usize>, j: int, i: int)
    requires
        0 <= j <= i,
        i + 1 == a.len(),
    ensures
        sizes_prefix(a, j) == sizes_prefix(a.drop_last(), j),
{
    lemma_prefix_agree(a, a.drop_last(), j);
}

pub(crate) fn clone_ids(v: &Vec<Sha1>) -> (r: Vec<Sha1>)
    ensures
        r@ == v@,
{
    let mut out: Vec<Sha1> = Vec::new();
    let n: usize = v.len();
    let mut i: usize = 0;
    while i < n
        invariant
            0 <= i <= n,
            n == v@.len(),
            out@ =~= v@.subrange(0, i as int),
        decreases n - i,
    {
        out.push(v[i]);
        i = i + 1;
    }
    proof {
        assert(out@ =~= v@);
    }
    out
}


/// Law: a file's byte length is the sum of its block sizes, taken in order.
pub proof fn lemma_content_len_is_size_sum(repo: &Repo, ids: Seq<Sha1>, sizes: Seq<usize>)
    requires
        blocks_match(*repo, ids, sizes),
    ensures
        spec_file_content(*repo, ids).len() == sizes_prefix(sizes, ids.len() as int),
{
    lemma_content_from_len(repo, ids, sizes, 0);
}

/// Where a seek starts from.
#[derive(Debug, Clone, Copy, PartialEq, Eq, Structural)]
pub enum SeekFrom {
    Start(u64),
    End(i64),
    Current(i64),
}

/// A seekable stream over one file's content.
#[derive(Debug)]
pub struct FileReader {
    block_reader: FileBlockReader,
    byte_pos: u64,
}

impl FileReader {
    /// The stream's position.  It may stand past the end of the file; reads
    /// there yield no bytes.
    pub closed spec fn pos(self) -> u64 {
        self.byte_pos
    }

    /// The file's bytes.
    pub closed spec fn content(self) -> Seq<u8> {
        self.block_reader.content()
    }

    pub(crate) fn new(block_reader: FileBlockReader) -> (r: FileReader)
        ensures
            r.content() == block_reader.content(),
            r.pos() == 0,
    {
        FileReader { block_reader, byte_pos: 0 }
    }

    /// Read up to `len` bytes at the current position and advance it by the
    /// number of bytes read: exactly the content between the position and
    /// `position + len`, clipped to the file's end.
    pub fn read(&mut self, len: usize) -> (r: Result<Vec<u8>, SeafError>)
        ensures
            match r {
                Ok(data) => {
                    &&& data@ == old(self).content().subrange(
                        vstd::math::min(old(self).pos() as int, old(self).content().len() as int),
                        vstd::math::min(
                            old(self).pos() as int + len as int,
                            old(self).content().len() as int,
                        ),
                    )
                    &&& final(self).content() == old(self).content()
                    &&& final(self).pos() == old(self).pos() + data@.len()
                },
                Err(_) => false,
            },
    {
        let sz = self.block_reader.size();
        match self.block_reader.read_at_offset(self.byte_pos, len) {
            Ok(data) => {
                proof {
                    assert(data@.len() <= self.content().len());
                    assert(self.byte_pos as int + data@.len() <= vstd::math::max(
                        self.byte_pos as int,
                        sz as int,
                    ));
                }
                self.byte_pos = self.byte_pos + (data.len() as u64);
                Ok(data)
            },
            Err(e) => Err(e),
        }
    }

    /// Read everything from the current position to the end of the file.
    pub fn read_to_end(&mut self) -> (r: Result<Vec<u8>, SeafError>)
        ensures
            match r {
                Ok(data) => {
                    &&& data@ == old(self).content().subrange(
                        vstd::math::min(old(self).pos() as int, old(self).content().len() as int),
                        old(self).content().len() as int,
                    )
                    &&& final(self).content() == old(self).content()
                    &&& final(self).pos() == old(self).pos() + data@.len()
                },
                Err(e) => {
                    &&& e matches SeafError::NotImpl
                    &&& old(self).content().len() - old(self).pos() > usize::MAX
                    &&& *final(self) == *old(self)
                },
            },
    {
        let sz = self.block_reader.size();
        let remaining: u64 = if self.byte_pos >= sz {
            0
        } else {
            sz - self.byte_pos
        };
        if remaining > (usize::MAX as u64) {
            return Err(SeafError::NotImpl);
        }
        self.read(remaining as usize)
    }

    /// Move the position.  The new position may exceed the file's size;
    /// a position before the start, or one that cannot be counted in 64
    /// bits, is refused and nothing moves.
    pub fn seek(&mut self, from: SeekFrom) -> (r: Result<u64, SeafError>)
        ensures
            final(self).content() == old(self).content(),
            ({
                let target: int = match from {
                    SeekFrom::Start(o) => o as int,
                    SeekFrom::End(o) => old(self).content().len() + o as int,
                    SeekFrom::Current(o) => old(self).pos() + o as int,
                };
                if 0 <= target <= u64::MAX {
                    &&& (r matches Ok(p) && p == target)
                    &&& final(self).pos() == target
                } else {
                    &&& (r matches Err(e) && e matches SeafError::IO(_, IoKind::Other))
                    &&& final(self).pos() == old(self).pos()
                }
            }),
    {
        match from {
            SeekFrom::Start(o) => {
                self.byte_pos = o;
                Ok(self.byte_pos)
            },
            SeekFrom::End(o) => {
                let sz = self.block_reader.size();
                let target: i128 = (sz as i128) + (o as i128);
                if target < 0 || target > (u64::MAX as i128) {
                    return Err(SeafError::IO(String::new(), IoKind::Other));
                }
                self.byte_pos = target as u64;
                Ok(self.byte_pos)
            },
            SeekFrom::Current(o) => {
                let target: i128 = (self.byte_pos as i128) + (o as i128);
                if target < 0 || target > (u64::MAX as i128) {
                    return Err(SeafError::IO(String::new(), IoKind::Other));
                }
                self.byte_pos = target as u64;
                Ok(self.byte_pos)
            },
        }
    }
}

} // verus!

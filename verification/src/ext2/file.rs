//! Reading a file's contents through the direct, singly, doubly and triply
//! indirect block pointers of its inode.
//!
//! The stream is a sequence of chunks in file order. The walk keeps a count of
//! bytes, `running`, which every data block pointer that it visits advances by
//! one block size, whether the pointer is zero or not, and it goes on only
//! while `running` is below the file's size. A data block is cut where the
//! file ends, so the data handed out never exceeds the size.

use vstd::prelude::*;
use crate::ext2::bytes::{le_u32, lemma_len_fits, read_u32};
use crate::ext2::structs::{Inode, InodeView, DIRECT_POINTERS};
use crate::ext2::{lemma_block_size_grows, Ext2, Ext2Error, Ext2View};

verus! {

/// One piece of a file's contents.
#[derive(Clone, Copy, Debug)]
pub enum Chunk<'a> {
    /// Bytes of an allocated block.
    Data(&'a [u8]),
    /// A pointer that is zero: nothing is stored for this part of the file.
    Hole,
}

/// What a [`Chunk`] holds, as plain values.
pub enum ChunkView {
    Data(Seq<u8>),
    Hole,
}

impl<'a> View for Chunk<'a> {
    type V = ChunkView;

    open spec fn view(&self) -> ChunkView {
        match *self {
            Chunk::Data(bytes) => ChunkView::Data(bytes@),
            Chunk::Hole => ChunkView::Hole,
        }
    }
}

/// The chunks of `s`, each by its view.
pub open spec fn chunk_views<'a>(s: Seq<Chunk<'a>>) -> Seq<ChunkView> {
    Seq::new(s.len(), |i: int| s[i]@)
}

/// Number of data bytes in `chunks`.
pub open spec fn data_len(chunks: Seq<ChunkView>) -> nat
    decreases chunks.len(),
{
    if chunks.len() == 0 {
        0
    } else {
        data_len(chunks.drop_last()) + match chunks.last() {
            ChunkView::Data(bytes) => bytes.len(),
            ChunkView::Hole => 0,
        }
    }
}

/// Number of holes in `chunks`.
pub open spec fn hole_count(chunks: Seq<ChunkView>) -> nat
    decreases chunks.len(),
{
    if chunks.len() == 0 {
        0
    } else {
        hole_count(chunks.drop_last()) + if chunks.last() is Hole {
            1nat
        } else {
            0nat
        }
    }
}

/// The state of a walk over a file's block pointers.
pub struct Walk {
    /// Bytes accounted for: one block size for each data block pointer
    /// visited.
    pub running: nat,
    /// The chunks handed out so far.
    pub chunks: Seq<ChunkView>,
}

/// The block pointers that a block holds when read as a pointer table.
pub open spec fn pointer_table(block: Seq<u8>) -> Seq<u32> {
    Seq::new((block.len() / 4) as nat, |j: int| le_u32(block, 4 * j))
}

/// The smaller of two numbers.
pub open spec fn least(a: int, b: int) -> int {
    if a <= b {
        a
    } else {
        b
    }
}

impl Walk {
    /// The walk before anything was visited.
    pub open spec fn start() -> Walk {
        Walk { running: 0, chunks: Seq::empty() }
    }

    /// The walk after a zero data block pointer.
    pub open spec fn skip_block(self, block_size: nat) -> Walk {
        Walk { running: self.running + block_size, chunks: self.chunks.push(ChunkView::Hole) }
    }

    /// The walk after a zero pointer to a pointer table: a hole stands for
    /// all that the table would have led to, and `running` stays.
    pub open spec fn skip_table(self) -> Walk {
        Walk { running: self.running, chunks: self.chunks.push(ChunkView::Hole) }
    }

    /// The walk after the data block `block` of a file of `size` bytes: the
    /// block is cut where the file ends.
    pub open spec fn take_block(self, block: Seq<u8>, size: nat) -> Walk {
        Walk {
            running: self.running + block.len(),
            chunks: self.chunks.push(
                ChunkView::Data(block.subrange(0, least(block.len() as int, size - self.running))),
            ),
        }
    }

    /// What holds of every walk over a file of `size` bytes on a volume with
    /// blocks of `block_size` bytes.
    pub open spec fn sound(self, size: nat, block_size: nat) -> bool {
        &&& self.running <= size + block_size - 1
        &&& data_len(self.chunks) <= least(self.running as int, size as int)
    }
}

impl Ext2View {
    /// The walk after the data block pointer `e`, or `None` where `e` points
    /// outside the image.
    pub open spec fn walk_leaf(self, e: u32, size: nat, w: Walk) -> Option<Walk> {
        if e == 0 {
            Some(w.skip_block(self.block_size()))
        } else {
            match self.block(e) {
                Some(block) => Some(w.take_block(block, size)),
                None => None,
            }
        }
    }

    /// The walk after the pointers `entries[i..]`, visited in order while
    /// `running` is below `size`. At `level` 1 they point to data blocks; at a
    /// higher level to pointer tables of the level below.
    pub open spec fn walk_entries(
        self,
        level: nat,
        entries: Seq<u32>,
        i: nat,
        size: nat,
        w: Walk,
    ) -> Option<Walk>
        decreases level, 0nat, entries.len() - i,
    {
        if i >= entries.len() || w.running >= size {
            Some(w)
        } else {
            let e = entries[i as int];
            let next = if level <= 1 {
                self.walk_leaf(e, size, w)
            } else if e == 0 {
                Some(w.skip_table())
            } else {
                self.walk_table(level - 1, e, size, w)
            };
            match next {
                Some(w2) => self.walk_entries(level, entries, i + 1, size, w2),
                None => None,
            }
        }
    }

    /// The walk after the pointer table in logical block `q`, or `None` where
    /// `q` or a block reached through it lies outside the image.
    pub open spec fn walk_table(self, level: int, q: u32, size: nat, w: Walk) -> Option<Walk>
        decreases level, 1nat, 0nat,
    {
        if level < 1 {
            Some(w)
        } else {
            match self.block(q) {
                Some(block) => self.walk_entries(level as nat, pointer_table(block), 0, size, w),
                None => None,
            }
        }
    }

    /// The walk after the pointer table that the inode field `q` names at
    /// `level`; a zero `q` names none.
    pub open spec fn walk_stage(self, level: int, q: u32, size: nat, w: Walk) -> Option<Walk> {
        if q == 0 {
            Some(w)
        } else {
            self.walk_table(level, q, size, w)
        }
    }

    /// The whole walk over the file of `inode`: the twelve direct pointers,
    /// then the singly, the doubly and the triply indirect pointer.
    pub open spec fn file_walk(self, inode: InodeView) -> Option<Walk> {
        let size = inode.size_low as nat;
        match self.walk_entries(1, inode.direct_pointer, 0, size, Walk::start()) {
            None => None,
            Some(w1) => match self.walk_stage(1, inode.indirect_pointer, size, w1) {
                None => None,
                Some(w2) => match self.walk_stage(2, inode.doubly_indirect, size, w2) {
                    None => None,
                    Some(w3) => self.walk_stage(3, inode.triply_indirect, size, w3),
                },
            },
        }
    }

    /// The contents of the file of `inode` as chunks, or `BadBlockRef` where
    /// the walk meets a block outside the image.
    pub open spec fn file_chunks(self, inode: InodeView) -> Result<Seq<ChunkView>, Ext2Error> {
        match self.file_walk(inode) {
            Some(w) => Ok(w.chunks),
            None => Err(Ext2Error::BadBlockRef),
        }
    }
}

/// Appending a chunk adds its data bytes.
pub proof fn lemma_push_chunk(chunks: Seq<ChunkView>, c: ChunkView)
    ensures
        data_len(chunks.push(c)) == data_len(chunks) + match c {
            ChunkView::Data(bytes) => bytes.len(),
            ChunkView::Hole => 0,
        },
{
    assert(chunks.push(c).drop_last() =~= chunks);
}

impl Ext2View {
    proof fn lemma_leaf_sound(self, e: u32, size: nat, w: Walk)
        requires
            self.wf(),
            w.sound(size, self.block_size()),
            w.running < size,
        ensures
            self.walk_leaf(e, size, w) matches Some(w2) ==> w2.sound(size, self.block_size()),
    {
        if e == 0 {
            lemma_push_chunk(w.chunks, ChunkView::Hole);
        } else if self.in_range(e) {
            let block = self.block_at(e - self.block_offset);
            self.lemma_block_bounds(e - self.block_offset);
            let cut = block.subrange(0, least(block.len() as int, size - w.running));
            lemma_push_chunk(w.chunks, ChunkView::Data(cut));
        }
    }

    proof fn lemma_entries_sound(self, level: nat, entries: Seq<u32>, i: nat, size: nat, w: Walk)
        requires
            self.wf(),
            w.sound(size, self.block_size()),
        ensures
            self.walk_entries(level, entries, i, size, w) matches Some(w2) ==> w2.sound(
                size,
                self.block_size(),
            ),
        decreases level, 0nat, entries.len() - i,
    {
        if i < entries.len() && w.running < size {
            let e = entries[i as int];
            let next = if level <= 1 {
                self.walk_leaf(e, size, w)
            } else if e == 0 {
                Some(w.skip_table())
            } else {
                self.walk_table(level - 1, e, size, w)
            };
            if level <= 1 {
                self.lemma_leaf_sound(e, size, w);
            } else if e == 0 {
                lemma_push_chunk(w.chunks, ChunkView::Hole);
            } else {
                self.lemma_table_sound(level - 1, e, size, w);
            }
            if let Some(w2) = next {
                self.lemma_entries_sound(level, entries, i + 1, size, w2);
            }
        }
    }

    proof fn lemma_table_sound(self, level: int, q: u32, size: nat, w: Walk)
        requires
            self.wf(),
            w.sound(size, self.block_size()),
        ensures
            self.walk_table(level, q, size, w) matches Some(w2) ==> w2.sound(
                size,
                self.block_size(),
            ),
        decreases level, 1nat, 0nat,
    {
        if level >= 1 {
            if let Some(block) = self.block(q) {
                self.lemma_entries_sound(level as nat, pointer_table(block), 0, size, w);
            }
        }
    }

    /// What the whole walk over a file leaves is sound.
    pub proof fn lemma_file_walk_sound(self, inode: InodeView)
        requires
            self.wf(),
        ensures
            self.file_walk(inode) matches Some(w) ==> w.sound(
                inode.size_low as nat,
                self.block_size(),
            ),
    {
        let size = inode.size_low as nat;
        let bs = self.block_size();
        lemma_block_size_positive(self);
        assert(Walk::start().sound(size, bs));
        self.lemma_entries_sound(1, inode.direct_pointer, 0, size, Walk::start());
        if let Some(w1) = self.walk_entries(1, inode.direct_pointer, 0, size, Walk::start()) {
            if inode.indirect_pointer != 0 {
                self.lemma_table_sound(1, inode.indirect_pointer, size, w1);
            }
            if let Some(w2) = self.walk_stage(1, inode.indirect_pointer, size, w1) {
                if inode.doubly_indirect != 0 {
                    self.lemma_table_sound(2, inode.doubly_indirect, size, w2);
                }
                if let Some(w3) = self.walk_stage(2, inode.doubly_indirect, size, w2) {
                    if inode.triply_indirect != 0 {
                        self.lemma_table_sound(3, inode.triply_indirect, size, w3);
                    }
                }
            }
        }
    }

    /// A file's stream is bounded by its size: the bytes accounted for stay
    /// below the size plus one block, and the data handed out stays within
    /// the size.
    pub proof fn lemma_file_length_bound(self, inode: InodeView)
        requires
            self.wf(),
        ensures
            self.file_walk(inode) matches Some(w) ==> {
                &&& w.running <= inode.size_low + self.block_size() - 1
                &&& data_len(w.chunks) <= inode.size_low
            },
    {
        self.lemma_file_walk_sound(inode);
    }

    /// The pointers that a file's first chunks stand for, in file order: the
    /// twelve direct pointers, then those of the singly indirect block.
    pub open spec fn file_pointers(self, inode: InodeView) -> Seq<u32> {
        if inode.indirect_pointer == 0 {
            inode.direct_pointer
        } else {
            match self.block(inode.indirect_pointer) {
                Some(table) => inode.direct_pointer + pointer_table(table),
                None => inode.direct_pointer,
            }
        }
    }

    /// A walk never changes the chunks that were handed out before it.
    proof fn lemma_entries_keep(self, level: nat, entries: Seq<u32>, i: nat, size: nat, w: Walk)
        ensures
            self.walk_entries(level, entries, i, size, w) matches Some(w2) ==> w.chunks.len()
                <= w2.chunks.len() && w2.chunks.subrange(0, w.chunks.len() as int) == w.chunks,
        decreases level, 0nat, entries.len() - i,
    {
        if i < entries.len() && w.running < size {
            let e = entries[i as int];
            let next = if level <= 1 {
                self.walk_leaf(e, size, w)
            } else if e == 0 {
                Some(w.skip_table())
            } else {
                self.walk_table(level - 1, e, size, w)
            };
            if level > 1 && e != 0 {
                self.lemma_table_keeps(level - 1, e, size, w);
            }
            if let Some(w1) = next {
                self.lemma_entries_keep(level, entries, i + 1, size, w1);
                if let Some(w2) = self.walk_entries(level, entries, i + 1, size, w1) {
                    assert(w1.chunks.subrange(0, w.chunks.len() as int) =~= w.chunks);
                    assert(w2.chunks.subrange(0, w.chunks.len() as int) =~= w2.chunks.subrange(
                        0,
                        w1.chunks.len() as int,
                    ).subrange(0, w.chunks.len() as int));
                }
            }
        } else {
            assert(w.chunks.subrange(0, w.chunks.len() as int) =~= w.chunks);
        }
    }

    proof fn lemma_table_keeps(self, level: int, q: u32, size: nat, w: Walk)
        ensures
            self.walk_table(level, q, size, w) matches Some(w2) ==> w.chunks.len()
                <= w2.chunks.len() && w2.chunks.subrange(0, w.chunks.len() as int) == w.chunks,
        decreases level, 1nat, 0nat,
    {
        if level >= 1 {
            if let Some(block) = self.block(q) {
                self.lemma_entries_keep(level as nat, pointer_table(block), 0, size, w);
            }
        } else {
            assert(w.chunks.subrange(0, w.chunks.len() as int) =~= w.chunks);
        }
    }

    proof fn lemma_stage_keeps(self, level: int, q: u32, size: nat, w: Walk)
        ensures
            self.walk_stage(level, q, size, w) matches Some(w2) ==> w.chunks.len()
                <= w2.chunks.len() && w2.chunks.subrange(0, w.chunks.len() as int) == w.chunks,
    {
        if q != 0 {
            self.lemma_table_keeps(level, q, size, w);
        } else {
            assert(w.chunks.subrange(0, w.chunks.len() as int) =~= w.chunks);
        }
    }

    /// Over data block pointers, the walk hands out one chunk for each
    /// pointer that it visits, and it visits pointer `j` where the bytes
    /// accounted for before it are below the size: the chunk is a hole exactly
    /// where the pointer is zero.
    pub proof fn lemma_leaf_chunks(self, entries: Seq<u32>, i: nat, size: nat, w: Walk, j: int)
        requires
            self.wf(),
            i <= j < entries.len(),
            w.running + (j - i) * self.block_size() < size,
        ensures
            self.walk_entries(1, entries, i, size, w) matches Some(w2) ==> {
                &&& w.chunks.len() + (j - i) < w2.chunks.len()
                &&& w2.chunks[w.chunks.len() + (j - i)] is Hole <==> entries[j] == 0
            },
        decreases entries.len() - i,
    {
        let bs = self.block_size() as int;
        assert(0 <= (j - i) * bs) by (nonlinear_arith)
            requires
                0 <= j - i,
                0 <= bs,
        ;
        let e = entries[i as int];
        if let Some(w1) = self.walk_leaf(e, size, w) {
            if e != 0 {
                self.lemma_block_bounds(e - self.block_offset);
            }
            assert(w1.running == w.running + bs);
            assert(w1.chunks.len() == w.chunks.len() + 1);
            assert(w1.chunks[w.chunks.len() as int] is Hole <==> e == 0);
            self.lemma_entries_keep(1, entries, i + 1, size, w1);
            if j > i {
                assert(w1.running + (j - (i + 1)) * bs == w.running + (j - i) * bs)
                    by (nonlinear_arith)
                    requires
                        w1.running == w.running + bs,
                ;
                self.lemma_leaf_chunks(entries, i + 1, size, w1, j);
            } else if let Some(w2) = self.walk_entries(1, entries, i + 1, size, w1) {
                assert(w2.chunks.subrange(0, w1.chunks.len() as int)[w.chunks.len() as int]
                    == w2.chunks[w.chunks.len() as int]);
            }
        }
    }

    /// Over data block pointers, the walk accounts for one block with each
    /// chunk that it hands out, and it stops before the last pointer only
    /// where the size is reached.
    pub proof fn lemma_leaf_count(self, entries: Seq<u32>, i: nat, size: nat, w: Walk)
        requires
            self.wf(),
            i <= entries.len(),
        ensures
            self.walk_entries(1, entries, i, size, w) matches Some(w2) ==> {
                &&& w2.running - w.running == (w2.chunks.len() - w.chunks.len()) * self.block_size()
                &&& w2.chunks.len() - w.chunks.len() <= entries.len() - i
                &&& w2.running >= size || w2.chunks.len() - w.chunks.len() == entries.len() - i
            },
        decreases entries.len() - i,
    {
        let bs = self.block_size() as int;
        if i < entries.len() && w.running < size {
            let e = entries[i as int];
            if let Some(w1) = self.walk_leaf(e, size, w) {
                if e != 0 {
                    self.lemma_block_bounds(e - self.block_offset);
                }
                self.lemma_leaf_count(entries, i + 1, size, w1);
                if let Some(w2) = self.walk_entries(1, entries, i + 1, size, w1) {
                    let k = w2.chunks.len() - w1.chunks.len();
                    assert((k + 1) * bs == k * bs + bs) by (nonlinear_arith);
                }
            }
        } else {
            assert(0 * bs == 0) by (nonlinear_arith);
        }
    }

    /// A file's stream shows its holes where they are: within the direct
    /// pointers and those of the singly indirect block, the chunk at position
    /// `p` is there for every `p` whose block starts below `size_low`, and it
    /// is a hole exactly where pointer `p` is zero.
    pub proof fn lemma_hole_transparency(self, inode: InodeView, p: int)
        requires
            self.wf(),
            inode.direct_pointer.len() == DIRECT_POINTERS,
            0 <= p < self.file_pointers(inode).len(),
            p * self.block_size() < inode.size_low,
        ensures
            self.file_walk(inode) matches Some(w) ==> {
                &&& p < w.chunks.len()
                &&& w.chunks[p] is Hole <==> self.file_pointers(inode)[p] == 0
            },
    {
        let size = inode.size_low as nat;
        let bs = self.block_size() as int;
        let direct = inode.direct_pointer;
        let start = Walk::start();
        if let Some(w1) = self.walk_entries(1, direct, 0, size, start) {
            self.lemma_leaf_count(direct, 0, size, start);
            let n1 = w1.chunks.len() as int;
            if let Some(w2) = self.walk_stage(1, inode.indirect_pointer, size, w1) {
                self.lemma_stage_keeps(1, inode.indirect_pointer, size, w1);
                if let Some(w3) = self.walk_stage(2, inode.doubly_indirect, size, w2) {
                    self.lemma_stage_keeps(2, inode.doubly_indirect, size, w2);
                    if let Some(w4) = self.walk_stage(3, inode.triply_indirect, size, w3) {
                        self.lemma_stage_keeps(3, inode.triply_indirect, size, w3);
                        if p < DIRECT_POINTERS {
                            self.lemma_leaf_chunks(direct, 0, size, start, p);
                            assert(w2.chunks.subrange(0, n1)[p] == w2.chunks[p]);
                            assert(w3.chunks.subrange(0, w2.chunks.len() as int)[p]
                                == w3.chunks[p]);
                            assert(w4.chunks.subrange(0, w3.chunks.len() as int)[p]
                                == w4.chunks[p]);
                        } else {
                            let table = self.block(inode.indirect_pointer).unwrap();
                            let entries = pointer_table(table);
                            let j = p - DIRECT_POINTERS;
                            assert(n1 * bs <= p * bs) by (nonlinear_arith)
                                requires
                                    n1 <= p,
                                    0 <= bs,
                            ;
                            assert(w1.running < size);
                            assert(n1 == DIRECT_POINTERS);
                            assert(w1.running + j * bs == p * bs) by (nonlinear_arith)
                                requires
                                    w1.running == 12 * bs,
                                    j == p - 12,
                            ;
                            self.lemma_leaf_chunks(entries, 0, size, w1, j);
                            assert(w3.chunks.subrange(0, w2.chunks.len() as int)[p]
                                == w3.chunks[p]);
                            assert(w4.chunks.subrange(0, w3.chunks.len() as int)[p]
                                == w4.chunks[p]);
                        }
                    }
                }
            }
        }
    }
}

/// Appending a chunk adds one hole where it is a hole.
pub proof fn lemma_push_hole(chunks: Seq<ChunkView>, c: ChunkView)
    ensures
        hole_count(chunks.push(c)) == hole_count(chunks) + if c is Hole {
            1nat
        } else {
            0nat
        },
{
    assert(chunks.push(c).drop_last() =~= chunks);
}

impl Ext2View {
    /// How many of the pointers `entries[i..]` that a walk visits from
    /// `running` bytes on are zero, those of the pointer tables it descends
    /// into included; and the bytes accounted for after them. This looks at
    /// the pointers only, not at what a walk hands out.
    pub open spec fn zeros_in_entries(
        self,
        level: nat,
        entries: Seq<u32>,
        i: nat,
        size: nat,
        running: nat,
    ) -> (nat, nat)
        decreases level, 0nat, entries.len() - i,
    {
        if i >= entries.len() || running >= size {
            (0, running)
        } else {
            let e = entries[i as int];
            let here = if level <= 1 {
                (if e == 0 { 1nat } else { 0nat }, running + self.block_size())
            } else if e == 0 {
                (1nat, running)
            } else {
                self.zeros_in_table(level - 1, e, size, running)
            };
            let rest = self.zeros_in_entries(level, entries, i + 1, size, here.1);
            (here.0 + rest.0, rest.1)
        }
    }

    /// The same for the pointer table in logical block `q`.
    pub open spec fn zeros_in_table(self, level: int, q: u32, size: nat, running: nat) -> (
        nat,
        nat,
    )
        decreases level, 1nat, 0nat,
    {
        if level < 1 {
            (0, running)
        } else {
            match self.block(q) {
                Some(block) => self.zeros_in_entries(
                    level as nat,
                    pointer_table(block),
                    0,
                    size,
                    running,
                ),
                None => (0, running),
            }
        }
    }

    /// The same for the pointer table that the inode field `q` names; a zero
    /// `q` names none and is not counted.
    pub open spec fn zeros_in_stage(self, level: int, q: u32, size: nat, running: nat) -> (
        nat,
        nat,
    ) {
        if q == 0 {
            (0, running)
        } else {
            self.zeros_in_table(level, q, size, running)
        }
    }

    /// How many of the pointers that the walk over the file of `inode`
    /// visits are zero.
    pub open spec fn zero_pointers_visited(self, inode: InodeView) -> nat {
        let size = inode.size_low as nat;
        let direct = self.zeros_in_entries(1, inode.direct_pointer, 0, size, 0);
        let singly = self.zeros_in_stage(1, inode.indirect_pointer, size, direct.1);
        let doubly = self.zeros_in_stage(2, inode.doubly_indirect, size, singly.1);
        let triply = self.zeros_in_stage(3, inode.triply_indirect, size, doubly.1);
        direct.0 + singly.0 + doubly.0 + triply.0
    }

    proof fn lemma_entries_holes(self, level: nat, entries: Seq<u32>, i: nat, size: nat, w: Walk)
        requires
            self.wf(),
        ensures
            self.walk_entries(level, entries, i, size, w) matches Some(w2) ==> {
                &&& hole_count(w2.chunks) == hole_count(w.chunks) + self.zeros_in_entries(
                    level,
                    entries,
                    i,
                    size,
                    w.running,
                ).0
                &&& w2.running == self.zeros_in_entries(level, entries, i, size, w.running).1
            },
        decreases level, 0nat, entries.len() - i,
    {
        if i < entries.len() && w.running < size {
            let e = entries[i as int];
            let next = if level <= 1 {
                self.walk_leaf(e, size, w)
            } else if e == 0 {
                Some(w.skip_table())
            } else {
                self.walk_table(level - 1, e, size, w)
            };
            if level <= 1 {
                if e == 0 {
                    lemma_push_hole(w.chunks, ChunkView::Hole);
                } else if let Some(block) = self.block(e) {
                    self.lemma_block_bounds(e - self.block_offset);
                    lemma_push_hole(w.chunks, w.take_block(block, size).chunks.last());
                }
            } else if e == 0 {
                lemma_push_hole(w.chunks, ChunkView::Hole);
            } else {
                self.lemma_table_holes(level - 1, e, size, w);
            }
            if let Some(w1) = next {
                self.lemma_entries_holes(level, entries, i + 1, size, w1);
            }
        }
    }

    proof fn lemma_table_holes(self, level: int, q: u32, size: nat, w: Walk)
        requires
            self.wf(),
        ensures
            self.walk_table(level, q, size, w) matches Some(w2) ==> {
                &&& hole_count(w2.chunks) == hole_count(w.chunks) + self.zeros_in_table(
                    level,
                    q,
                    size,
                    w.running,
                ).0
                &&& w2.running == self.zeros_in_table(level, q, size, w.running).1
            },
        decreases level, 1nat, 0nat,
    {
        if level >= 1 {
            if let Some(block) = self.block(q) {
                self.lemma_entries_holes(level as nat, pointer_table(block), 0, size, w);
            }
        }
    }

    /// A file's stream holds as many holes as the walk visits zero pointers,
    /// at whatever depth they lie.
    pub proof fn lemma_hole_count(self, inode: InodeView)
        requires
            self.wf(),
        ensures
            self.file_walk(inode) matches Some(w) ==> hole_count(w.chunks)
                == self.zero_pointers_visited(inode),
    {
        let size = inode.size_low as nat;
        self.lemma_entries_holes(1, inode.direct_pointer, 0, size, Walk::start());
        if let Some(w1) = self.walk_entries(1, inode.direct_pointer, 0, size, Walk::start()) {
            if inode.indirect_pointer != 0 {
                self.lemma_table_holes(1, inode.indirect_pointer, size, w1);
            }
            if let Some(w2) = self.walk_stage(1, inode.indirect_pointer, size, w1) {
                if inode.doubly_indirect != 0 {
                    self.lemma_table_holes(2, inode.doubly_indirect, size, w2);
                }
                if let Some(w3) = self.walk_stage(2, inode.doubly_indirect, size, w2) {
                    if inode.triply_indirect != 0 {
                        self.lemma_table_holes(3, inode.triply_indirect, size, w3);
                    }
                }
            }
        }
    }
}

proof fn lemma_block_size_positive(v: Ext2View)
    ensures
        v.block_size() >= 1024,
{
    lemma_block_size_grows(0, v.superblock().log_block_size as nat);
}

/// Bytes of a file of `size` bytes that the walk `w` has not accounted for.
pub open spec fn owed(size: nat, w: Walk) -> nat {
    if w.running < size {
        (size - w.running) as nat
    } else {
        0
    }
}

/// Whether `remaining` and `out` are what the walk `w` over a file of `size`
/// bytes has come to.
pub open spec fn tracks<'a>(remaining: u32, out: Seq<Chunk<'a>>, size: nat, w: Walk) -> bool {
    remaining == owed(size, w) && chunk_views(out) == w.chunks
}

impl<'a> Ext2<'a> {
    /// Visits the data block pointer `e`.
    fn stream_leaf(
        &self,
        e: u32,
        size: u32,
        remaining: &mut u32,
        out: &mut Vec<Chunk<'a>>,
        Ghost(w): Ghost<Walk>,
    ) -> (r: Result<Ghost<Walk>, Ext2Error>)
        requires
            *old(remaining) > 0,
            tracks(*old(remaining), old(out)@, size as nat, w),
        ensures
            match r {
                Ok(w2) => self@.walk_leaf(e, size as nat, w) == Some(w2@) && tracks(
                    *final(remaining),
                    final(out)@,
                    size as nat,
                    w2@,
                ),
                Err(err) => err == Ext2Error::BadBlockRef && self@.walk_leaf(
                    e,
                    size as nat,
                    w,
                ).is_none(),
            },
    {
        let block_size = self.block_size();
        let step: u32 = if block_size >= *remaining as usize {
            *remaining
        } else {
            block_size as u32
        };
        let ghost before = out@;
        let ghost after;
        if e == 0 {
            out.push(Chunk::Hole);
            proof {
                after = w.skip_block(block_size as nat);
            }
        } else {
            let block = match self.block(e) {
                Ok(block) => block,
                Err(err) => {
                    return Err(err);
                },
            };
            out.push(Chunk::Data(vstd::slice::slice_subrange(block, 0, step as usize)));
            proof {
                after = w.take_block(block@, size as nat);
            }
        }
        *remaining = *remaining - step;
        proof {
            assert(chunk_views(out@) =~= chunk_views(before).push(out@.last()@));
        }
        Ok(Ghost(after))
    }

    /// Visits the pointer table in logical block `q`.
    fn stream_table(
        &self,
        level: u8,
        q: u32,
        size: u32,
        remaining: &mut u32,
        out: &mut Vec<Chunk<'a>>,
        Ghost(w): Ghost<Walk>,
    ) -> (r: Result<Ghost<Walk>, Ext2Error>)
        requires
            1 <= level <= 3,
            tracks(*old(remaining), old(out)@, size as nat, w),
        ensures
            match r {
                Ok(w2) => self@.walk_table(level as int, q, size as nat, w) == Some(w2@) && tracks(
                    *final(remaining),
                    final(out)@,
                    size as nat,
                    w2@,
                ),
                Err(err) => err == Ext2Error::BadBlockRef && self@.walk_table(
                    level as int,
                    q,
                    size as nat,
                    w,
                ).is_none(),
            },
        decreases level,
    {
        let table = match self.block(q) {
            Ok(table) => table,
            Err(err) => {
                return Err(err);
            },
        };
        let count = table.len() / 4;
        let ghost entries = pointer_table(table@);
        let ghost mut cur = w;
        let mut j: usize = 0;
        while j < count && *remaining > 0
            invariant
                1 <= level <= 3,
                j <= count,
                count == entries.len(),
                4 * count <= table@.len(),
                entries == pointer_table(table@),
                tracks(*remaining, out@, size as nat, cur),
                self@.walk_table(level as int, q, size as nat, w) == self@.walk_entries(
                    level as nat,
                    entries,
                    j as nat,
                    size as nat,
                    cur,
                ),
            decreases count - j,
        {
            proof {
                lemma_len_fits(table);
            }
            let e = read_u32(table, 4 * j);
            assert(e == entries[j as int]);
            assert(cur.running < size);
            let next = if level == 1 {
                self.stream_leaf(e, size, remaining, out, Ghost(cur))
            } else if e == 0 {
                let ghost before = out@;
                out.push(Chunk::Hole);
                proof {
                    assert(chunk_views(out@) =~= chunk_views(before).push(ChunkView::Hole));
                }
                Ok(Ghost(cur.skip_table()))
            } else {
                self.stream_table(level - 1, e, size, remaining, out, Ghost(cur))
            };
            match next {
                Ok(w2) => {
                    proof {
                        cur = w2@;
                    }
                },
                Err(err) => {
                    return Err(err);
                },
            }
            j += 1;
        }
        Ok(Ghost(cur))
    }

    /// Visits the pointer table that the inode field `q` names; none where
    /// `q` is zero.
    fn stream_stage(
        &self,
        level: u8,
        q: u32,
        size: u32,
        remaining: &mut u32,
        out: &mut Vec<Chunk<'a>>,
        Ghost(w): Ghost<Walk>,
    ) -> (r: Result<Ghost<Walk>, Ext2Error>)
        requires
            1 <= level <= 3,
            tracks(*old(remaining), old(out)@, size as nat, w),
        ensures
            match r {
                Ok(w2) => self@.walk_stage(level as int, q, size as nat, w) == Some(w2@) && tracks(
                    *final(remaining),
                    final(out)@,
                    size as nat,
                    w2@,
                ),
                Err(err) => err == Ext2Error::BadBlockRef && self@.walk_stage(
                    level as int,
                    q,
                    size as nat,
                    w,
                ).is_none(),
            },
    {
        if q == 0 {
            Ok(Ghost(w))
        } else {
            self.stream_table(level, q, size, remaining, out, Ghost(w))
        }
    }

    /// The contents of the file of `inode`, as chunks in file order: the
    /// blocks of the direct pointers, then those reached through the singly,
    /// the doubly and the triply indirect pointer, up to the file's
    /// `size_low`. A zero pointer gives a hole.
    ///
    /// Fails with `BadBlockRef` where a pointer that the walk follows lies
    /// outside the image.
    pub fn read_file(&self, inode: &Inode) -> (r: Result<Vec<Chunk<'a>>, Ext2Error>)
        ensures
            match r {
                Ok(chunks) => self@.file_chunks(inode@) == Ok::<Seq<ChunkView>, Ext2Error>(
                    chunk_views(chunks@),
                ),
                Err(err) => self@.file_chunks(inode@) == Err::<Seq<ChunkView>, Ext2Error>(err),
            },
            r matches Ok(chunks) ==> data_len(chunk_views(chunks@)) <= inode.size_low,
    {
        let size = inode.size_low;
        let mut out: Vec<Chunk<'a>> = Vec::new();
        let mut remaining: u32 = size;
        let ghost entries = inode@.direct_pointer;
        let ghost mut cur = Walk::start();
        proof {
            assert(chunk_views(out@) =~= cur.chunks);
        }
        let mut i: usize = 0;
        while i < DIRECT_POINTERS && remaining > 0
            invariant
                i <= DIRECT_POINTERS,
                size == inode.size_low,
                entries == inode@.direct_pointer,
                entries.len() == DIRECT_POINTERS,
                tracks(remaining, out@, size as nat, cur),
                self@.walk_entries(1, entries, 0, size as nat, Walk::start()) == self@.walk_entries(
                    1,
                    entries,
                    i as nat,
                    size as nat,
                    cur,
                ),
            decreases DIRECT_POINTERS - i,
        {
            let e = inode.direct_pointer[i];
            assert(e == entries[i as int]);
            assert(cur.running < size);
            match self.stream_leaf(e, size, &mut remaining, &mut out, Ghost(cur)) {
                Ok(w2) => {
                    proof {
                        cur = w2@;
                    }
                },
                Err(err) => {
                    return Err(err);
                },
            }
            i += 1;
        }
        let w1 = match self.stream_stage(
            1,
            inode.indirect_pointer,
            size,
            &mut remaining,
            &mut out,
            Ghost(cur),
        ) {
            Ok(w1) => w1,
            Err(err) => {
                return Err(err);
            },
        };
        let w2 = match self.stream_stage(2, inode.doubly_indirect, size, &mut remaining, &mut out, w1) {
            Ok(w2) => w2,
            Err(err) => {
                return Err(err);
            },
        };
        let w3 = match self.stream_stage(3, inode.triply_indirect, size, &mut remaining, &mut out, w2) {
            Ok(w3) => w3,
            Err(err) => {
                return Err(err);
            },
        };
        proof {
            use_type_invariant(self);
            self.lemma_wf();
            self@.lemma_file_length_bound(inode@);
        }
        Ok(out)
    }
}

} // verus!

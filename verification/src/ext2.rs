//! The mounted view of an ext2 volume and the operations on it.
//!
//! An image is laid out as follows: 1024 reserved bytes, the superblock in
//! bytes 1024 to 2047, the block group descriptor table in the next
//! `block_size` bytes, then `blocks_count` blocks of `block_size` bytes each.

pub mod bytes;
pub mod dir;
pub mod file;
pub mod inode;
pub mod path;
pub mod structs;
pub mod trusted;

use vstd::prelude::*;
use crate::ext2::bytes::lemma_len_fits;
use crate::ext2::structs::{
    descriptor_record, lemma_descriptor_window, lemma_superblock_window, superblock_record,
    BlockGroupDescriptor, Superblock, SuperblockView, DESCRIPTOR_SIZE, EXT2_MAGIC,
};
use vstd::arithmetic::div_mod::lemma_div_is_ordered_by_denominator;
use crate::ext2::trusted::{address_of, split_bytes, uuid_bytes, uuid_from_bytes};
use uuid::Uuid;
use vstd::string::StringSliceAdditionalSpecFns;

verus! {

/// Byte offset of the superblock in an image.
pub const SUPERBLOCK_START: usize = 1024;

/// Byte offset of the block group descriptor table in an image.
pub const TABLE_START: usize = 2048;

/// Inode number of the root directory.
pub const ROOT_INODE: usize = 2;

/// Why an operation on an image failed.
#[derive(Clone, Copy, Debug, PartialEq, Eq, Structural)]
pub enum Ext2Error {
    /// The image has no superblock with the ext2 magic number.
    BadMagic,
    /// A block lies outside the image.
    BadBlockRef,
    /// The inode number names no inode of the volume.
    NoSuchInode,
    /// A path component that is not the last names something other than a
    /// directory.
    NotADirectory,
    /// No directory entry has the name that was looked for.
    NotFound,
    /// A directory record is malformed.
    CorruptDirectory,
    /// File contents that were to be shown as text are not UTF-8.
    InvalidUtf8,
}

impl Ext2Error {
    /// A short text that says what went wrong, as bytes.
    pub open spec fn text(self) -> Seq<u8> {
        match self {
            Ext2Error::BadMagic => "bad magic number".spec_bytes(),
            Ext2Error::BadBlockRef => "bad block reference".spec_bytes(),
            Ext2Error::NoSuchInode => "no such inode".spec_bytes(),
            Ext2Error::NotADirectory => "cannot cd into a file".spec_bytes(),
            Ext2Error::NotFound => "no such file or directory".spec_bytes(),
            Ext2Error::CorruptDirectory => "corrupt directory".spec_bytes(),
            Ext2Error::InvalidUtf8 => "invalid utf-8".spec_bytes(),
        }
    }

    /// A short text that says what went wrong.
    pub fn message(&self) -> (r: &'static str)
        ensures
            r.spec_bytes() == self.text(),
    {
        match self {
            Ext2Error::BadMagic => "bad magic number",
            Ext2Error::BadBlockRef => "bad block reference",
            Ext2Error::NoSuchInode => "no such inode",
            Ext2Error::NotADirectory => "cannot cd into a file",
            Ext2Error::NotFound => "no such file or directory",
            Ext2Error::CorruptDirectory => "corrupt directory",
            Ext2Error::InvalidUtf8 => "invalid utf-8",
        }
    }
}

/// The block size that a superblock's `log_block_size` stands for: 1024
/// doubled `log` times.
pub open spec fn block_size_for(log: nat) -> nat
    decreases log,
{
    if log == 0 {
        1024
    } else {
        2 * block_size_for((log - 1) as nat)
    }
}

/// A block size is 1024 or more, a multiple of four, and grows with `log`.
pub proof fn lemma_block_size_grows(i: nat, j: nat)
    requires
        i <= j,
    ensures
        1024 <= block_size_for(i) <= block_size_for(j),
        block_size_for(i) % 4 == 0,
    decreases j,
{
    if i > 0 {
        lemma_block_size_grows((i - 1) as nat, (i - 1) as nat);
    }
    if i < j {
        lemma_block_size_grows(i, (j - 1) as nat);
    }
}

/// A mounted volume as plain values: the image's bytes and the number that
/// is subtracted from a logical block number to index the image's blocks.
pub struct Ext2View {
    pub image: Seq<u8>,
    pub block_offset: nat,
}

/// Whether `image` is long enough to hold a superblock and that superblock
/// carries the ext2 magic number.
pub open spec fn has_magic(image: Seq<u8>) -> bool {
    &&& image.len() >= TABLE_START
    &&& superblock_record(image, SUPERBLOCK_START as int).magic == EXT2_MAGIC
}

/// Number of block groups of a volume: `blocks_count / blocks_per_group`,
/// rounded up.
pub open spec fn group_count_for(blocks_count: nat, blocks_per_group: nat) -> nat {
    ((blocks_count + blocks_per_group - 1) / (blocks_per_group as int)) as nat
}

/// Whether the descriptor table and the blocks that the superblock of
/// `image` declares lie within `image`.
pub open spec fn layout_fits(image: Seq<u8>) -> bool {
    let sb = superblock_record(image, SUPERBLOCK_START as int);
    let bs = block_size_for(sb.log_block_size as nat);
    &&& sb.blocks_per_group > 0
    &&& group_count_for(sb.blocks_count as nat, sb.blocks_per_group as nat) * DESCRIPTOR_SIZE <= bs
    &&& TABLE_START + bs + sb.blocks_count * bs <= image.len()
}

/// Whether `image` can be mounted.
pub open spec fn well_formed(image: Seq<u8>) -> bool {
    has_magic(image) && layout_fits(image)
}

impl Ext2View {
    /// The image can be mounted.
    pub open spec fn wf(self) -> bool {
        well_formed(self.image)
    }

    /// The superblock that the image holds.
    pub open spec fn superblock(self) -> SuperblockView {
        superblock_record(self.image, SUPERBLOCK_START as int)
    }

    /// The size of a block in bytes.
    pub open spec fn block_size(self) -> nat {
        block_size_for(self.superblock().log_block_size as nat)
    }

    /// The number of blocks that the superblock counts.
    pub open spec fn blocks_count(self) -> nat {
        self.superblock().blocks_count as nat
    }

    /// The number of block groups.
    pub open spec fn group_count(self) -> nat {
        group_count_for(self.blocks_count(), self.superblock().blocks_per_group as nat)
    }

    /// The descriptor of block group `g`.
    pub open spec fn descriptor(self, g: int) -> BlockGroupDescriptor {
        descriptor_record(self.image, TABLE_START + DESCRIPTOR_SIZE * g)
    }

    /// Byte offset in the image of the block with index 0.
    pub open spec fn blocks_start(self) -> int {
        TABLE_START + self.block_size()
    }

    /// Byte offset in the image behind the last block.
    pub open spec fn blocks_end(self) -> int {
        self.blocks_start() + self.blocks_count() * self.block_size()
    }

    /// The bytes of the block with index `p`.
    pub open spec fn block_at(self, p: int) -> Seq<u8> {
        self.image.subrange(
            self.blocks_start() + p * self.block_size(),
            self.blocks_start() + (p + 1) * self.block_size(),
        )
    }

    /// The image's blocks, in order.
    pub open spec fn blocks(self) -> Seq<Seq<u8>> {
        Seq::new(self.blocks_count(), |p: int| self.block_at(p))
    }

    /// Whether logical block `n` lies in the image.
    pub open spec fn in_range(self, n: u32) -> bool {
        self.block_offset <= n && n - self.block_offset < self.blocks_count()
    }

    /// The bytes of logical block `n`, or `None` where it lies outside the
    /// image.
    pub open spec fn block(self, n: u32) -> Option<Seq<u8>> {
        if self.in_range(n) {
            Some(self.block_at(n - self.block_offset))
        } else {
            None
        }
    }
}

/// What mounting `image` gives, where the image's first byte lies at address
/// `image_addr` and block number 0 of the device is taken to lie at `base`.
pub open spec fn mount_result(image: Seq<u8>, image_addr: nat, base: nat) -> Result<
    Ext2View,
    Ext2Error,
> {
    let bs = block_size_for(superblock_record(image, SUPERBLOCK_START as int).log_block_size as nat);
    let first_block_addr = image_addr + TABLE_START + bs;
    if !has_magic(image) {
        Err(Ext2Error::BadMagic)
    } else if !layout_fits(image) || base > first_block_addr {
        Err(Ext2Error::BadBlockRef)
    } else {
        Ok(Ext2View { image, block_offset: ((first_block_addr - base) / (bs as int)) as nat })
    }
}

/// Mounting a well-formed image succeeds, unless the base address lies
/// behind the image's first block. The mounted volume's superblock carries
/// the ext2 magic number, and the volume has as many blocks as the
/// superblock counts.
pub proof fn lemma_mount_round_trip(image: Seq<u8>, image_addr: nat, base: nat)
    requires
        well_formed(image),
        base <= image_addr + TABLE_START + block_size_for(
            superblock_record(image, SUPERBLOCK_START as int).log_block_size as nat,
        ),
    ensures
        mount_result(image, image_addr, base) matches Ok(v) && {
            &&& v.image == image
            &&& v.superblock().magic == EXT2_MAGIC
            &&& v.blocks().len() == v.superblock().blocks_count
        },
{
}

/// The block size for `log`, where it does not exceed `cap`.
fn fit_block_size(log: u32, cap: usize) -> (r: Option<usize>)
    ensures
        match r {
            Some(bs) => bs == block_size_for(log as nat) && bs <= cap,
            None => block_size_for(log as nat) > cap,
        },
{
    proof {
        lemma_block_size_grows(0, log as nat);
    }
    if cap < 1024 {
        return None;
    }
    let mut bs: usize = 1024;
    let mut i: u32 = 0;
    while i < log
        invariant
            i <= log,
            bs == block_size_for(i as nat),
            bs <= cap,
        decreases log - i,
    {
        if bs > cap / 2 {
            proof {
                lemma_block_size_grows((i + 1) as nat, log as nat);
            }
            return None;
        }
        bs = bs * 2;
        i += 1;
    }
    Some(bs)
}

/// Decodes the first `count` records of a descriptor table.
fn read_descriptors(table: &[u8], count: usize) -> (v: Vec<BlockGroupDescriptor>)
    requires
        count * DESCRIPTOR_SIZE <= table@.len(),
    ensures
        v@.len() == count,
        forall|g: int| 0 <= g < count ==> v@[g] == descriptor_record(table@, DESCRIPTOR_SIZE * g),
{
    let mut v: Vec<BlockGroupDescriptor> = Vec::new();
    let mut g: usize = 0;
    while g < count
        invariant
            g <= count,
            count * DESCRIPTOR_SIZE <= table@.len(),
            v@.len() == g,
            forall|j: int| 0 <= j < g ==> v@[j] == descriptor_record(table@, DESCRIPTOR_SIZE * j),
        decreases count - g,
    {
        proof {
            lemma_len_fits(table);
        }
        v.push(BlockGroupDescriptor::parse(table, g * DESCRIPTOR_SIZE));
        g += 1;
    }
    v
}

/// Cuts the first `count` blocks of `block_size` bytes out of `area`.
fn cut_blocks<'a>(area: &'a [u8], block_size: usize, count: usize) -> (v: Vec<&'a [u8]>)
    requires
        count * block_size <= area@.len(),
    ensures
        v@.len() == count,
        forall|p: int|
            0 <= p < count ==> #[trigger] v@[p]@ == area@.subrange(
                p * block_size,
                (p + 1) * block_size,
            ),
{
    let mut v: Vec<&'a [u8]> = Vec::new();
    let mut p: usize = 0;
    let mut start: usize = 0;
    while p < count
        invariant
            p <= count,
            count * block_size <= area@.len(),
            start == p * block_size,
            v@.len() == p,
            forall|j: int|
                0 <= j < p ==> #[trigger] v@[j]@ == area@.subrange(
                    j * block_size,
                    (j + 1) * block_size,
                ),
        decreases count - p,
    {
        proof {
            lemma_len_fits(area);
            assert((p + 1) * block_size == p * block_size + block_size) by (nonlinear_arith);
            assert((p + 1) * block_size <= count * block_size) by (nonlinear_arith)
                requires
                    p + 1 <= count,
            ;
        }
        let end = start + block_size;
        v.push(vstd::slice::slice_subrange(area, start, end));
        start = end;
        p += 1;
    }
    v
}

/// A mounted ext2 volume. It borrows the image and never changes it; the
/// blocks and names it hands out borrow from the image too.
pub struct Ext2<'a> {
    image: &'a [u8],
    superblock: Superblock,
    block_groups: Vec<BlockGroupDescriptor>,
    blocks: Vec<&'a [u8]>,
    block_size: usize,
    uuid: Uuid,
    block_offset: usize,
}

impl<'a> View for Ext2<'a> {
    type V = Ext2View;

    closed spec fn view(&self) -> Ext2View {
        Ext2View { image: self.image@, block_offset: self.block_offset as nat }
    }
}

impl<'a> Ext2<'a> {
    /// What holds of every mounted volume: the image is well formed, and the
    /// fields are what the image's bytes decode to.
    #[verifier::type_invariant]
    pub closed spec fn wf(&self) -> bool {
        &&& self@.wf()
        &&& self.superblock@ == self@.superblock()
        &&& self.block_size == self@.block_size()
        &&& self.block_groups@.len() == self@.group_count()
        &&& forall|g: int|
            0 <= g < self.block_groups@.len() ==> self.block_groups@[g] == self@.descriptor(g)
        &&& self.blocks@.len() == self@.blocks_count()
        &&& forall|p: int|
            0 <= p < self.blocks@.len() ==> #[trigger] self.blocks@[p]@ == self@.block_at(p)
        &&& uuid_bytes(self.uuid) == self@.superblock().fs_id
    }

    /// Mounts `device_bytes`, whose first byte lies at address `image_addr`,
    /// where block number 0 of the device is taken to lie at `start_addr`.
    ///
    /// Fails with `BadMagic` where the image holds no superblock with the
    /// ext2 magic number, and with `BadBlockRef` where the descriptor table or
    /// the blocks that the superblock declares do not lie within the image, or
    /// `start_addr` lies behind the image's first block. The descriptor table
    /// is one block long: a volume with more block groups than one block
    /// holds descriptors for is refused with `BadBlockRef` too.
    pub fn mount_at(device_bytes: &'a [u8], image_addr: usize, start_addr: usize) -> (r: Result<
        Ext2<'a>,
        Ext2Error,
    >)
        ensures
            match r {
                Ok(fs) => mount_result(device_bytes@, image_addr as nat, start_addr as nat) == Ok::<
                    Ext2View,
                    Ext2Error,
                >(fs@),
                Err(e) => mount_result(device_bytes@, image_addr as nat, start_addr as nat) == Err::<
                    Ext2View,
                    Ext2Error,
                >(e),
            },
    {
        let ghost image = device_bytes@;
        proof {
            lemma_len_fits(device_bytes);
        }
        if device_bytes.len() < TABLE_START {
            return Err(Ext2Error::BadMagic);
        }
        let (header, body) = split_bytes(device_bytes, TABLE_START);
        let (_, record) = split_bytes(header, SUPERBLOCK_START);
        let superblock = Superblock::parse(record, 0);
        proof {
            assert(record@ =~= image.subrange(SUPERBLOCK_START as int, TABLE_START as int));
            lemma_superblock_window(image, SUPERBLOCK_START as int, TABLE_START as int, 0);
        }
        if superblock.magic != EXT2_MAGIC {
            return Err(Ext2Error::BadMagic);
        }
        let block_size = match fit_block_size(superblock.log_block_size, body.len()) {
            Some(bs) => bs,
            None => {
                return Err(Ext2Error::BadBlockRef);
            },
        };
        proof {
            lemma_block_size_grows(0, superblock.log_block_size as nat);
        }
        if superblock.blocks_per_group == 0 {
            return Err(Ext2Error::BadBlockRef);
        }
        let blocks_count = superblock.blocks_count;
        let per_group = superblock.blocks_per_group;
        assert((blocks_count + per_group - 1) / (per_group as int) <= blocks_count + per_group - 1)
            by (nonlinear_arith)
            requires
                per_group >= 1,
        ;
        let group_count: u64 = (blocks_count as u64 + per_group as u64 - 1) / (per_group as u64);
        if group_count * 32 > block_size as u64 {
            return Err(Ext2Error::BadBlockRef);
        }
        let (table, area) = split_bytes(body, block_size);
        proof {
            lemma_len_fits(area);
            assert(blocks_count * block_size <= u128::MAX) by (nonlinear_arith)
                requires
                    blocks_count <= u32::MAX,
                    block_size <= u64::MAX,
            ;
        }
        if (blocks_count as u128) * (block_size as u128) > area.len() as u128 {
            return Err(Ext2Error::BadBlockRef);
        }
        let first_block_addr: u128 = image_addr as u128 + TABLE_START as u128 + block_size as u128;
        if start_addr as u128 > first_block_addr {
            return Err(Ext2Error::BadBlockRef);
        }
        let distance: u128 = first_block_addr - start_addr as u128;
        proof {
            lemma_div_is_ordered_by_denominator(distance as int, 1024, block_size as int);
        }
        let block_offset = (distance / (block_size as u128)) as usize;
        let block_groups = read_descriptors(table, group_count as usize);
        let blocks = cut_blocks(area, block_size, blocks_count as usize);
        let uuid = uuid_from_bytes(superblock.fs_id);
        proof {
            let v = Ext2View { image, block_offset: block_offset as nat };
            assert(table@ =~= image.subrange(TABLE_START as int, TABLE_START + block_size));
            assert forall|g: int| 0 <= g < block_groups@.len() implies block_groups@[g]
                == v.descriptor(g) by {
                lemma_descriptor_window(
                    image,
                    TABLE_START as int,
                    TABLE_START + block_size,
                    DESCRIPTOR_SIZE * g,
                );
            }
            assert forall|p: int| 0 <= p < blocks@.len() implies #[trigger] blocks@[p]@
                == v.block_at(p) by {
                let lo = p * block_size;
                let hi = (p + 1) * block_size;
                assert(0 <= lo <= hi && hi <= blocks_count * block_size) by (nonlinear_arith)
                    requires
                        0 <= p < blocks_count,
                        0 <= block_size,
                        lo == p * block_size,
                        hi == (p + 1) * block_size,
                ;
                assert(v.block_size() == block_size);
                assert(area@ =~= image.subrange(TABLE_START + block_size, image.len() as int));
                assert(hi <= area@.len());
                assert(area@.subrange(lo, hi) =~= image.subrange(
                    TABLE_START + block_size + lo,
                    TABLE_START + block_size + hi,
                ));
            }
        }
        Ok(Ext2 { image: device_bytes, superblock, block_groups, blocks, block_size, uuid, block_offset })
    }

    /// Mounts `device_bytes`, where block number 0 of the device is taken to
    /// lie at address `start_addr`. The result is that of [`Ext2::mount_at`]
    /// for the address at which `device_bytes` lies in memory.
    pub fn new(device_bytes: &'a [u8], start_addr: usize) -> (r: Result<Ext2<'a>, Ext2Error>)
        ensures
            exists|image_addr: usize|
                match r {
                    Ok(fs) => #[trigger] mount_result(
                        device_bytes@,
                        image_addr as nat,
                        start_addr as nat,
                    ) == Ok::<Ext2View, Ext2Error>(fs@),
                    Err(e) => mount_result(device_bytes@, image_addr as nat, start_addr as nat)
                        == Err::<Ext2View, Ext2Error>(e),
                },
            r == Err::<Ext2<'a>, Ext2Error>(Ext2Error::BadMagic) <==> !has_magic(device_bytes@),
            r is Ok ==> well_formed(device_bytes@) && r.unwrap()@.image == device_bytes@,
    {
        let image_addr = address_of(device_bytes);
        let r = Self::mount_at(device_bytes, image_addr, start_addr);
        proof {
            let m = mount_result(device_bytes@, image_addr as nat, start_addr as nat);
            assert(match r {
                Ok(fs) => m == Ok::<Ext2View, Ext2Error>(fs@),
                Err(e) => m == Err::<Ext2View, Ext2Error>(e),
            });
        }
        r
    }
    /// A mounted volume has a well-formed image.
    pub proof fn lemma_wf(&self)
        requires
            self.wf(),
        ensures
            self@.wf(),
    {
    }

    /// The bytes of the image.
    pub fn image(&self) -> (r: &'a [u8])
        ensures
            r@ == self@.image,
            self@.wf(),
    {
        proof {
            use_type_invariant(self);
        }
        self.image
    }

    /// The volume's superblock.
    pub fn superblock(&self) -> (r: &Superblock)
        ensures
            r@ == self@.superblock(),
            r.magic == EXT2_MAGIC,
            self@.wf(),
    {
        proof {
            use_type_invariant(self);
        }
        &self.superblock
    }

    /// The block group descriptors, one per group, in order.
    pub fn block_groups(&self) -> (r: &[BlockGroupDescriptor])
        ensures
            r@.len() == self@.group_count(),
            forall|g: int| 0 <= g < r@.len() ==> r@[g] == self@.descriptor(g),
    {
        proof {
            use_type_invariant(self);
        }
        self.block_groups.as_slice()
    }

    /// The image's blocks, in order: as many as the superblock counts.
    pub fn blocks(&self) -> (r: &[&'a [u8]])
        ensures
            r@.len() == self@.superblock().blocks_count,
            r@.len() == self@.blocks().len(),
            forall|p: int| 0 <= p < r@.len() ==> #[trigger] r@[p]@ == self@.blocks()[p],
    {
        proof {
            use_type_invariant(self);
        }
        self.blocks.as_slice()
    }

    /// The size of a block in bytes: 1024 or more, and a multiple of four.
    pub fn block_size(&self) -> (r: usize)
        ensures
            r == self@.block_size(),
            r >= 1024,
            r % 4 == 0,
            self@.wf(),
    {
        proof {
            use_type_invariant(self);
            lemma_block_size_grows(
                self@.superblock().log_block_size as nat,
                self@.superblock().log_block_size as nat,
            );
        }
        self.block_size
    }

    /// The volume's identifier: the superblock's `fs_id`.
    pub fn uuid(&self) -> (r: &Uuid)
        ensures
            uuid_bytes(*r) == self@.superblock().fs_id,
    {
        proof {
            use_type_invariant(self);
        }
        &self.uuid
    }

    /// The number that is subtracted from a logical block number to index
    /// the image's blocks.
    pub fn block_offset(&self) -> (r: usize)
        ensures
            r == self@.block_offset,
    {
        self.block_offset
    }

    /// Byte offset in the image of its first block.
    pub fn blocks_start(&self) -> (r: usize)
        ensures
            r == self@.blocks_start(),
            r <= self@.blocks_end(),
    {
        proof {
            use_type_invariant(self);
            lemma_len_fits(self.image);
            assert(0 <= self@.blocks_count() * self@.block_size()) by (nonlinear_arith);
        }
        TABLE_START + self.block_size
    }

    /// Byte offset in the image behind its last block.
    pub fn blocks_end(&self) -> (r: usize)
        ensures
            r == self@.blocks_end(),
            r <= self@.image.len(),
    {
        proof {
            use_type_invariant(self);
            lemma_len_fits(self.image);
            assert(0 <= self@.blocks_count() * self@.block_size()) by (nonlinear_arith);
        }
        TABLE_START + self.block_size + self.blocks.len() * self.block_size
    }

    /// The bytes of logical block `n`.
    ///
    /// Fails with `BadBlockRef` where the block lies outside the image.
    pub fn block(&self, n: u32) -> (r: Result<&'a [u8], Ext2Error>)
        ensures
            match r {
                Ok(b) => self@.block(n) == Some(b@) && b@.len() == self@.block_size(),
                Err(e) => e == Ext2Error::BadBlockRef && self@.block(n).is_none(),
            },
    {
        proof {
            use_type_invariant(self);
        }
        let n = n as usize;
        if n < self.block_offset {
            return Err(Ext2Error::BadBlockRef);
        }
        let p = n - self.block_offset;
        if p >= self.blocks.len() {
            return Err(Ext2Error::BadBlockRef);
        }
        proof {
            self@.lemma_block_bounds(p as int);
        }
        Ok(self.blocks[p])
    }
}

impl Ext2View {
    /// Every block of a well-formed image lies within the image, behind the
    /// descriptor table.
    pub proof fn lemma_block_bounds(self, p: int)
        requires
            self.wf(),
            0 <= p < self.blocks_count(),
        ensures
            self.blocks_start() <= self.blocks_start() + p * self.block_size(),
            self.blocks_start() + (p + 1) * self.block_size() <= self.blocks_end(),
            (p + 1) * self.block_size() == p * self.block_size() + self.block_size(),
            self.blocks_end() <= self.image.len(),
            self.block_at(p).len() == self.block_size(),
    {
        let bs = self.block_size() as int;
        let count = self.blocks_count() as int;
        assert(0 <= p * bs && (p + 1) * bs <= count * bs && (p + 1) * bs == p * bs + bs)
            by (nonlinear_arith)
            requires
                0 <= p < count,
                0 <= bs,
        ;
    }
}

} // verus!

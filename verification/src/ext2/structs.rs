//! The on-disk records of an ext2 volume: where each field lies and how it is
//! decoded. All fields are little-endian.

use vstd::prelude::*;
use crate::ext2::bytes::{le_u16, le_u32, lemma_len_fits, nul_prefix, read_u16, read_u32, until_nul};

verus! {

/// Length of the superblock record.
pub const SUPERBLOCK_SIZE: usize = 1024;

/// The value of `magic` in every ext2 superblock.
pub const EXT2_MAGIC: u16 = 0xef53;

/// Length of one block group descriptor.
pub const DESCRIPTOR_SIZE: usize = 32;

/// Length of the part of an inode record that is decoded.
pub const INODE_RECORD_SIZE: usize = 128;

/// Number of direct block pointers in an inode.
pub const DIRECT_POINTERS: usize = 12;

/// Length of the fixed part of a directory entry.
pub const DIR_ENTRY_HEADER_SIZE: usize = 8;

/// The type bits of [`TypePerm`] that mark a directory.
pub const TYPE_DIRECTORY: u16 = 0x4000;

/// File type (upper bits) and permissions (lower bits) of an inode.
#[derive(Clone, Copy, Debug, PartialEq, Eq, Structural)]
pub struct TypePerm {
    pub bits: u16,
}

impl TypePerm {
    /// The mask of the directory type.
    pub const DIRECTORY: u16 = TYPE_DIRECTORY;

    /// Whether every bit of `mask` is set.
    pub open spec fn has(self, mask: u16) -> bool {
        self.bits & mask == mask
    }

    /// Whether the directory bit is set.
    pub open spec fn is_dir(self) -> bool {
        self.has(TYPE_DIRECTORY)
    }

    /// Whether every bit of `mask` is set.
    pub fn contains(&self, mask: u16) -> (r: bool)
        ensures
            r == self.has(mask),
    {
        self.bits & mask == mask
    }

    /// Whether the directory bit is set.
    pub fn is_directory(&self) -> (r: bool)
        ensures
            r == self.is_dir(),
    {
        self.contains(TYPE_DIRECTORY)
    }
}

/// The fields of the superblock that describe the volume's geometry.
#[derive(Clone, Copy, Debug)]
pub struct Superblock {
    pub inodes_count: u32,
    pub blocks_count: u32,
    pub log_block_size: u32,
    pub blocks_per_group: u32,
    pub inodes_per_group: u32,
    pub magic: u16,
    pub inode_size: u16,
    pub fs_id: [u8; 16],
}

/// What a [`Superblock`] holds, as plain values.
pub struct SuperblockView {
    pub inodes_count: u32,
    pub blocks_count: u32,
    pub log_block_size: u32,
    pub blocks_per_group: u32,
    pub inodes_per_group: u32,
    pub magic: u16,
    pub inode_size: u16,
    pub fs_id: Seq<u8>,
}

impl View for Superblock {
    type V = SuperblockView;

    open spec fn view(&self) -> SuperblockView {
        SuperblockView {
            inodes_count: self.inodes_count,
            blocks_count: self.blocks_count,
            log_block_size: self.log_block_size,
            blocks_per_group: self.blocks_per_group,
            inodes_per_group: self.inodes_per_group,
            magic: self.magic,
            inode_size: self.inode_size,
            fs_id: self.fs_id@,
        }
    }
}

/// The superblock whose record starts at byte `at` of `s`.
pub open spec fn superblock_record(s: Seq<u8>, at: int) -> SuperblockView {
    SuperblockView {
        inodes_count: le_u32(s, at),
        blocks_count: le_u32(s, at + 4),
        log_block_size: le_u32(s, at + 24),
        blocks_per_group: le_u32(s, at + 32),
        inodes_per_group: le_u32(s, at + 40),
        magic: le_u16(s, at + 56),
        inode_size: le_u16(s, at + 88),
        fs_id: s.subrange(at + 104, at + 120),
    }
}

/// Decoding a superblock out of a window of `s` is decoding it out of `s`.
pub proof fn lemma_superblock_window(s: Seq<u8>, from: int, to: int, at: int)
    requires
        0 <= from <= to <= s.len(),
        0 <= at,
        at + SUPERBLOCK_SIZE <= to - from,
    ensures
        superblock_record(s.subrange(from, to), at) == superblock_record(s, from + at),
{
    assert(s.subrange(from, to).subrange(at + 104, at + 120) =~= s.subrange(
        from + at + 104,
        from + at + 120,
    ));
}

impl Superblock {
    /// Decodes the superblock record that starts at byte `at`.
    pub fn parse(s: &[u8], at: usize) -> (r: Superblock)
        requires
            at + SUPERBLOCK_SIZE <= s@.len(),
        ensures
            r@ == superblock_record(s@, at as int),
    {
        proof {
            lemma_len_fits(s);
        }
        let id = at + 104;
        let fs_id: [u8; 16] = [
            s[id],
            s[id + 1],
            s[id + 2],
            s[id + 3],
            s[id + 4],
            s[id + 5],
            s[id + 6],
            s[id + 7],
            s[id + 8],
            s[id + 9],
            s[id + 10],
            s[id + 11],
            s[id + 12],
            s[id + 13],
            s[id + 14],
            s[id + 15],
        ];
        assert(fs_id@ =~= s@.subrange(at + 104, at + 120));
        Superblock {
            inodes_count: read_u32(s, at),
            blocks_count: read_u32(s, at + 4),
            log_block_size: read_u32(s, at + 24),
            blocks_per_group: read_u32(s, at + 32),
            inodes_per_group: read_u32(s, at + 40),
            magic: read_u16(s, at + 56),
            inode_size: read_u16(s, at + 88),
            fs_id,
        }
    }
}

/// One entry of the block group descriptor table.
#[derive(Clone, Copy, Debug, PartialEq, Eq, Structural)]
pub struct BlockGroupDescriptor {
    pub block_bitmap: u32,
    pub inode_bitmap: u32,
    pub inode_table_block: u32,
    pub free_blocks_count: u16,
    pub free_inodes_count: u16,
    pub used_dirs_count: u16,
}

/// The descriptor whose record starts at byte `at` of `s`.
pub open spec fn descriptor_record(s: Seq<u8>, at: int) -> BlockGroupDescriptor {
    BlockGroupDescriptor {
        block_bitmap: le_u32(s, at),
        inode_bitmap: le_u32(s, at + 4),
        inode_table_block: le_u32(s, at + 8),
        free_blocks_count: le_u16(s, at + 12),
        free_inodes_count: le_u16(s, at + 14),
        used_dirs_count: le_u16(s, at + 16),
    }
}

/// Decoding a descriptor out of a window of `s` is decoding it out of `s`.
pub proof fn lemma_descriptor_window(s: Seq<u8>, from: int, to: int, at: int)
    requires
        0 <= from <= to <= s.len(),
        0 <= at,
        at + DESCRIPTOR_SIZE <= to - from,
    ensures
        descriptor_record(s.subrange(from, to), at) == descriptor_record(s, from + at),
{
}

impl BlockGroupDescriptor {
    /// Decodes the descriptor record that starts at byte `at`.
    pub fn parse(s: &[u8], at: usize) -> (r: BlockGroupDescriptor)
        requires
            at + DESCRIPTOR_SIZE <= s@.len(),
        ensures
            r == descriptor_record(s@, at as int),
    {
        proof {
            lemma_len_fits(s);
        }
        BlockGroupDescriptor {
            block_bitmap: read_u32(s, at),
            inode_bitmap: read_u32(s, at + 4),
            inode_table_block: read_u32(s, at + 8),
            free_blocks_count: read_u16(s, at + 12),
            free_inodes_count: read_u16(s, at + 14),
            used_dirs_count: read_u16(s, at + 16),
        }
    }
}

/// The fields of an inode that locate and size its contents.
#[derive(Clone, Copy, Debug)]
pub struct Inode {
    pub type_perm: TypePerm,
    pub size_low: u32,
    pub size_high: u32,
    pub direct_pointer: [u32; 12],
    pub indirect_pointer: u32,
    pub doubly_indirect: u32,
    pub triply_indirect: u32,
}

/// What an [`Inode`] holds, as plain values.
pub struct InodeView {
    pub type_perm: TypePerm,
    pub size_low: u32,
    pub size_high: u32,
    pub direct_pointer: Seq<u32>,
    pub indirect_pointer: u32,
    pub doubly_indirect: u32,
    pub triply_indirect: u32,
}

impl View for Inode {
    type V = InodeView;

    open spec fn view(&self) -> InodeView {
        InodeView {
            type_perm: self.type_perm,
            size_low: self.size_low,
            size_high: self.size_high,
            direct_pointer: self.direct_pointer@,
            indirect_pointer: self.indirect_pointer,
            doubly_indirect: self.doubly_indirect,
            triply_indirect: self.triply_indirect,
        }
    }
}

/// The inode whose record starts at byte `at` of `s`.
pub open spec fn inode_record(s: Seq<u8>, at: int) -> InodeView {
    InodeView {
        type_perm: TypePerm { bits: le_u16(s, at) },
        size_low: le_u32(s, at + 4),
        size_high: le_u32(s, at + 108),
        direct_pointer: Seq::new(12, |i: int| le_u32(s, at + 40 + 4 * i)),
        indirect_pointer: le_u32(s, at + 88),
        doubly_indirect: le_u32(s, at + 92),
        triply_indirect: le_u32(s, at + 96),
    }
}

impl Inode {
    /// Decodes the inode record that starts at byte `at`.
    pub fn parse(s: &[u8], at: usize) -> (r: Inode)
        requires
            at + INODE_RECORD_SIZE <= s@.len(),
        ensures
            r@ == inode_record(s@, at as int),
    {
        proof {
            lemma_len_fits(s);
        }
        let p = at + 40;
        let direct_pointer: [u32; 12] = [
            read_u32(s, p),
            read_u32(s, p + 4),
            read_u32(s, p + 8),
            read_u32(s, p + 12),
            read_u32(s, p + 16),
            read_u32(s, p + 20),
            read_u32(s, p + 24),
            read_u32(s, p + 28),
            read_u32(s, p + 32),
            read_u32(s, p + 36),
            read_u32(s, p + 40),
            read_u32(s, p + 44),
        ];
        assert(direct_pointer@ =~= Seq::new(12, |i: int| le_u32(s@, at + 40 + 4 * i)));
        Inode {
            type_perm: TypePerm { bits: read_u16(s, at) },
            size_low: read_u32(s, at + 4),
            size_high: read_u32(s, at + 108),
            direct_pointer,
            indirect_pointer: read_u32(s, at + 88),
            doubly_indirect: read_u32(s, at + 92),
            triply_indirect: read_u32(s, at + 96),
        }
    }
}

/// One record of a directory block. `name` borrows from the block.
#[derive(Clone, Copy, Debug)]
pub struct DirectoryEntry<'a> {
    pub inode: u32,
    pub entry_size: u16,
    pub name_length: u8,
    pub type_indicator: u8,
    pub name: &'a [u8],
}

/// What a [`DirectoryEntry`] holds, as plain values.
pub struct DirectoryEntryView {
    pub inode: u32,
    pub entry_size: u16,
    pub name_length: u8,
    pub type_indicator: u8,
    pub name: Seq<u8>,
}

impl<'a> View for DirectoryEntry<'a> {
    type V = DirectoryEntryView;

    open spec fn view(&self) -> DirectoryEntryView {
        DirectoryEntryView {
            inode: self.inode,
            entry_size: self.entry_size,
            name_length: self.name_length,
            type_indicator: self.type_indicator,
            name: self.name@,
        }
    }
}

/// The directory entry whose record starts at byte `at` of `s`. Its name is
/// the `name_length` bytes behind the header, cut at the first zero byte.
pub open spec fn dir_entry_record(s: Seq<u8>, at: int) -> DirectoryEntryView {
    DirectoryEntryView {
        inode: le_u32(s, at),
        entry_size: le_u16(s, at + 4),
        name_length: s[at + 6],
        type_indicator: s[at + 7],
        name: nul_prefix(s.subrange(at + 8, at + 8 + s[at + 6])),
    }
}

impl<'a> DirectoryEntry<'a> {
    /// Decodes the directory entry that starts at byte `at`.
    pub fn parse(s: &'a [u8], at: usize) -> (r: DirectoryEntry<'a>)
        requires
            at + DIR_ENTRY_HEADER_SIZE <= s@.len(),
            at + DIR_ENTRY_HEADER_SIZE + s@[at + 6] <= s@.len(),
        ensures
            r@ == dir_entry_record(s@, at as int),
    {
        proof {
            lemma_len_fits(s);
        }
        let name_length = s[at + 6];
        let name_start = at + 8;
        let field = vstd::slice::slice_subrange(s, name_start, name_start + name_length as usize);
        DirectoryEntry {
            inode: read_u32(s, at),
            entry_size: read_u16(s, at + 4),
            name_length,
            type_indicator: s[at + 7],
            name: until_nul(field),
        }
    }
}

} // verus!

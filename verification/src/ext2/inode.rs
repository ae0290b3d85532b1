//! Finding an inode by its number.
//!
//! Inode numbers start at 1. Inode `n` is record `(n - 1) % inodes_per_group`
//! of the inode table of block group `(n - 1) / inodes_per_group`. The table
//! starts at the block that the group's descriptor names, and its records lie
//! `inode_size` bytes apart, on through the blocks that follow. A superblock
//! that records an `inode_size` below 128, as every volume of revision 0
//! does, stands for records of 128 bytes.

use vstd::prelude::*;
use crate::ext2::structs::{inode_record, Inode, InodeView, INODE_RECORD_SIZE};
use crate::ext2::{Ext2, Ext2Error, Ext2View};

verus! {

impl Ext2View {
    /// The block group that holds inode `n`.
    pub open spec fn inode_group(self, n: nat) -> int {
        (n - 1) / (self.superblock().inodes_per_group as int)
    }

    /// The position of inode `n` in its group's inode table.
    pub open spec fn inode_index(self, n: nat) -> int {
        (n - 1) % (self.superblock().inodes_per_group as int)
    }

    /// The logical block at which the inode table of group `g` starts.
    pub open spec fn inode_table_block(self, g: int) -> u32 {
        self.descriptor(g).inode_table_block
    }

    /// The distance in bytes from one inode record to the next: the
    /// superblock's `inode_size`, or 128 where that is smaller.
    pub open spec fn inode_stride(self) -> nat {
        if self.superblock().inode_size < INODE_RECORD_SIZE {
            INODE_RECORD_SIZE as nat
        } else {
            self.superblock().inode_size as nat
        }
    }

    /// Byte offset in the image of record `k` of the inode table of group
    /// `g`.
    pub open spec fn table_record_start(self, g: int, k: int) -> int {
        self.blocks_start() + (self.inode_table_block(g) - self.block_offset) * self.block_size()
            + k * self.inode_stride()
    }

    /// Record `k` of the inode table of group `g`.
    pub open spec fn table_record(self, g: int, k: int) -> InodeView {
        inode_record(self.image, self.table_record_start(g, k))
    }

    /// Whether `n` is the number of an inode of the volume.
    pub open spec fn has_inode(self, n: nat) -> bool {
        &&& 1 <= n <= self.superblock().inodes_count
        &&& self.superblock().inodes_per_group > 0
        &&& self.inode_group(n) < self.group_count()
    }

    /// Whether record `k` of the inode table of group `g` lies within the
    /// image's blocks.
    pub open spec fn record_in_range(self, g: int, k: int) -> bool {
        &&& self.in_range(self.inode_table_block(g))
        &&& self.table_record_start(g, k) + INODE_RECORD_SIZE <= self.blocks_end()
    }

    /// Inode `n`: `NoSuchInode` where the volume has no inode of that number,
    /// `BadBlockRef` where its record does not lie within the image's blocks.
    pub open spec fn inode(self, n: nat) -> Result<InodeView, Ext2Error> {
        if !self.has_inode(n) {
            Err(Ext2Error::NoSuchInode)
        } else if !self.record_in_range(self.inode_group(n), self.inode_index(n)) {
            Err(Ext2Error::BadBlockRef)
        } else {
            Ok(self.table_record(self.inode_group(n), self.inode_index(n)))
        }
    }
}

impl Ext2View {
    /// Inode `n`, where the volume has it, is record `(n - 1) %
    /// inodes_per_group` of the inode table of group `(n - 1) /
    /// inodes_per_group`.
    pub proof fn lemma_inode_indexing(self, n: nat)
        requires
            1 <= n <= self.superblock().inodes_count,
            self.inode(n) is Ok,
        ensures
            self.inode(n) == Ok::<InodeView, Ext2Error>(
                self.table_record(
                    (n - 1) / (self.superblock().inodes_per_group as int),
                    (n - 1) % (self.superblock().inodes_per_group as int),
                ),
            ),
    {
    }
}

impl<'a> Ext2<'a> {
    /// The inode with number `inode`: record `(inode - 1) % inodes_per_group`
    /// of the inode table of group `(inode - 1) / inodes_per_group`, where the
    /// records lie `inode_size` bytes apart, and 128 bytes apart where the
    /// superblock records less.
    ///
    /// Fails with `NoSuchInode` where `inode` is 0, exceeds the superblock's
    /// `inodes_count` or belongs to no block group, and with `BadBlockRef`
    /// where the inode's record does not lie within the image's blocks.
    pub fn get_inode(&self, inode: usize) -> (r: Result<Inode, Ext2Error>)
        ensures
            match r {
                Ok(found) => self@.inode(inode as nat) == Ok::<InodeView, Ext2Error>(found@),
                Err(e) => self@.inode(inode as nat) == Err::<InodeView, Ext2Error>(e),
            },
    {
        let superblock = self.superblock();
        let per_group = superblock.inodes_per_group;
        if inode == 0 || inode as u64 > superblock.inodes_count as u64 || per_group == 0 {
            return Err(Ext2Error::NoSuchInode);
        }
        let position: u32 = (inode - 1) as u32;
        let group = position / per_group;
        let index = position % per_group;
        let groups = self.block_groups();
        if group as usize >= groups.len() {
            return Err(Ext2Error::NoSuchInode);
        }
        let table_block = groups[group as usize].inode_table_block as usize;
        let block_offset = self.block_offset();
        let blocks_start = self.blocks_start();
        let blocks_end = self.blocks_end();
        if table_block < block_offset || table_block - block_offset >= self.blocks().len() {
            return Err(Ext2Error::BadBlockRef);
        }
        let p = table_block - block_offset;
        let stride: u64 = if (superblock.inode_size as usize) < INODE_RECORD_SIZE {
            INODE_RECORD_SIZE as u64
        } else {
            superblock.inode_size as u64
        };
        proof {
            self@.lemma_block_bounds(p as int);
            assert(index * stride <= 0xffff_ffff * 0xffff) by (nonlinear_arith)
                requires
                    0 <= index <= 0xffff_ffff,
                    0 <= stride <= 0xffff,
            ;
        }
        let table_start = blocks_start + p * self.block_size();
        let within: u64 = index as u64 * stride;
        let room: u64 = (blocks_end - table_start) as u64;
        if within > room || room - within < INODE_RECORD_SIZE as u64 {
            return Err(Ext2Error::BadBlockRef);
        }
        Ok(Inode::parse(self.image(), table_start + within as usize))
    }
}

} // verus!

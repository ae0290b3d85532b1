//! Listing a directory.
//!
//! A directory's records lie at the start of its first data block, one behind
//! the other; each says in `entry_size` how far the next one is. A record is
//! listed where it starts below the directory's `size_low`, or below the
//! block's end where the directory is larger than one block. Every record
//! listed must lie within the block.

use vstd::prelude::*;
use crate::ext2::bytes::{le_u16, lemma_len_fits, read_u16};
use crate::ext2::file::least;
use crate::ext2::structs::{
    dir_entry_record, DirectoryEntry, DirectoryEntryView, DIR_ENTRY_HEADER_SIZE,
};
use crate::ext2::{Ext2, Ext2Error, Ext2View};

verus! {

/// Whether the record at byte `at` is sound: its header lies within the
/// block, its `entry_size` covers the header and the name (so it is not
/// zero), and the record does not reach past the block's end.
pub open spec fn entry_fits(block: Seq<u8>, at: int) -> bool {
    &&& 0 <= at
    &&& at + DIR_ENTRY_HEADER_SIZE <= block.len()
    &&& DIR_ENTRY_HEADER_SIZE + block[at + 6] <= le_u16(block, at + 4)
    &&& at + le_u16(block, at + 4) <= block.len()
}

/// How far the walk from byte `at` still has to go before byte `limit`.
pub open spec fn distance(at: int, limit: int) -> int {
    if at < limit {
        limit - at
    } else {
        0
    }
}

/// The records of `block` that start at byte `at` or behind it and below
/// byte `limit`, or `None` where one of them is not sound.
pub open spec fn dir_walk(block: Seq<u8>, at: int, limit: int) -> Option<Seq<DirectoryEntryView>>
    decreases distance(at, limit),
{
    if at >= limit {
        Some(Seq::empty())
    } else if !entry_fits(block, at) {
        None
    } else {
        match dir_walk(block, at + le_u16(block, at + 4), limit) {
            Some(rest) => Some(seq![dir_entry_record(block, at)] + rest),
            None => None,
        }
    }
}

/// The byte at which the walk from byte `at` stops: the end of the last
/// record that starts below byte `limit`, or the start of a record that is
/// not sound.
pub open spec fn dir_walk_end(block: Seq<u8>, at: int, limit: int) -> int
    decreases distance(at, limit),
{
    if at >= limit || !entry_fits(block, at) {
        at
    } else {
        dir_walk_end(block, at + le_u16(block, at + 4), limit)
    }
}

/// The sum of the `entry_size` fields of `entries`.
pub open spec fn total_entry_size(entries: Seq<DirectoryEntryView>) -> int
    decreases entries.len(),
{
    if entries.len() == 0 {
        0
    } else {
        entries[0].entry_size + total_entry_size(entries.drop_first())
    }
}

/// The `entry_size` fields of the records listed add up to the bytes from
/// where the walk started to where it stopped.
pub proof fn lemma_dir_walk_total(block: Seq<u8>, at: int, limit: int)
    ensures
        dir_walk(block, at, limit) matches Some(entries) ==> total_entry_size(entries)
            == dir_walk_end(block, at, limit) - at,
    decreases distance(at, limit),
{
    if at < limit && entry_fits(block, at) {
        let next = at + le_u16(block, at + 4);
        lemma_dir_walk_total(block, next, limit);
        if let Some(rest) = dir_walk(block, next, limit) {
            let entries = seq![dir_entry_record(block, at)] + rest;
            assert(entries.drop_first() =~= rest);
        }
    }
}

/// `walk` with `done` put in front of it.
pub open spec fn after(done: Seq<DirectoryEntryView>, walk: Option<Seq<DirectoryEntryView>>)
    -> Option<Seq<DirectoryEntryView>> {
    match walk {
        Some(rest) => Some(done + rest),
        None => None,
    }
}

/// The entries of `s`, each by its view.
pub open spec fn entry_views<'a>(s: Seq<DirectoryEntry<'a>>) -> Seq<DirectoryEntryView> {
    Seq::new(s.len(), |i: int| s[i]@)
}

/// A listing as plain values: inode number and name of each entry.
pub open spec fn listing_view<'a>(s: Seq<(usize, &'a [u8])>) -> Seq<(usize, Seq<u8>)> {
    Seq::new(s.len(), |i: int| (s[i].0, s[i].1@))
}

/// The listing that `entries` give: inode number and name of each.
pub open spec fn listing_of(entries: Seq<DirectoryEntryView>) -> Seq<(usize, Seq<u8>)> {
    Seq::new(entries.len(), |i: int| (entries[i].inode as usize, entries[i].name))
}

impl Ext2View {
    /// The records of the directory with inode number `n`, read from the
    /// block that its first direct pointer names.
    pub open spec fn dir_entries(self, n: nat) -> Result<Seq<DirectoryEntryView>, Ext2Error> {
        match self.inode(n) {
            Err(e) => Err(e),
            Ok(inode) => match self.block(inode.direct_pointer[0]) {
                None => Err(Ext2Error::BadBlockRef),
                Some(block) => match dir_walk(
                    block,
                    0,
                    least(inode.size_low as int, self.block_size() as int),
                ) {
                    None => Err(Ext2Error::CorruptDirectory),
                    Some(entries) => Ok(entries),
                },
            },
        }
    }

    /// Inode number and name of each entry of the directory with inode
    /// number `n`.
    pub open spec fn dir_listing(self, n: nat) -> Result<Seq<(usize, Seq<u8>)>, Ext2Error> {
        match self.dir_entries(n) {
            Err(e) => Err(e),
            Ok(entries) => Ok(listing_of(entries)),
        }
    }

    /// The byte of its first data block at which the walk over the
    /// directory with inode number `n` stops.
    pub open spec fn dir_end(self, n: nat) -> int {
        dir_walk_end(
            self.block(self.inode(n).unwrap().direct_pointer[0]).unwrap(),
            0,
            least(self.inode(n).unwrap().size_low as int, self.block_size() as int),
        )
    }

    /// The `entry_size` fields of a directory's records add up to its
    /// `size_low`, where the records end at `size_low`.
    pub proof fn lemma_directory_totality(self, n: nat)
        requires
            self.inode(n) matches Ok(inode) && self.dir_end(n) == inode.size_low,
        ensures
            self.dir_entries(n) matches Ok(entries) ==> total_entry_size(entries)
                == self.inode(n).unwrap().size_low,
    {
        let inode = self.inode(n).unwrap();
        if let Some(block) = self.block(inode.direct_pointer[0]) {
            lemma_dir_walk_total(
                block,
                0,
                least(inode.size_low as int, self.block_size() as int),
            );
        }
    }
}

impl<'a> Ext2<'a> {
    /// The records of the directory with inode number `inode`, in the order
    /// in which they lie in its first data block.
    ///
    /// Fails as [`Ext2::get_inode`] does; with `BadBlockRef` where the first
    /// direct pointer lies outside the image; with `CorruptDirectory` where a
    /// record's `entry_size` is zero or too small for its header and name, or
    /// a record reaches past the block's end.
    pub fn read_dir_entries(&self, inode: usize) -> (r: Result<Vec<DirectoryEntry<'a>>, Ext2Error>)
        ensures
            match r {
                Ok(entries) => self@.dir_entries(inode as nat) == Ok::<
                    Seq<DirectoryEntryView>,
                    Ext2Error,
                >(entry_views(entries@)),
                Err(e) => self@.dir_entries(inode as nat) == Err::<
                    Seq<DirectoryEntryView>,
                    Ext2Error,
                >(e),
            },
            r matches Ok(entries) ==> total_entry_size(entry_views(entries@)) == self@.dir_end(
                inode as nat,
            ),
    {
        let directory = match self.get_inode(inode) {
            Ok(directory) => directory,
            Err(e) => {
                return Err(e);
            },
        };
        let block = match self.block(directory.direct_pointer[0]) {
            Ok(block) => block,
            Err(e) => {
                return Err(e);
            },
        };
        proof {
            lemma_len_fits(block);
        }
        let limit: usize = if (directory.size_low as usize) < block.len() {
            directory.size_low as usize
        } else {
            block.len()
        };
        let mut out: Vec<DirectoryEntry<'a>> = Vec::new();
        let mut at: usize = 0;
        proof {
            if let Some(all) = dir_walk(block@, 0, limit as int) {
                assert(entry_views(out@) + all =~= all);
            }
        }
        while at < limit
            invariant
                at <= block@.len() <= usize::MAX,
                limit <= block@.len(),
                self@.inode(inode as nat) == Ok::<crate::ext2::structs::InodeView, Ext2Error>(
                    directory@,
                ),
                self@.block(directory@.direct_pointer[0]) == Some(block@),
                limit == least(directory.size_low as int, self@.block_size() as int),
                dir_walk(block@, 0, limit as int) == after(
                    entry_views(out@),
                    dir_walk(block@, at as int, limit as int),
                ),
            decreases block@.len() - at,
        {
            if block.len() - at < DIR_ENTRY_HEADER_SIZE {
                return Err(Ext2Error::CorruptDirectory);
            }
            let entry_size = read_u16(block, at + 4) as usize;
            let name_length = block[at + 6] as usize;
            if DIR_ENTRY_HEADER_SIZE + name_length > entry_size || entry_size > block.len() - at {
                return Err(Ext2Error::CorruptDirectory);
            }
            let entry = DirectoryEntry::parse(block, at);
            let ghost done = entry_views(out@);
            out.push(entry);
            proof {
                let rest = dir_walk(block@, at + entry_size, limit as int);
                assert(entry_views(out@) =~= done.push(entry@));
                if let Some(tail) = rest {
                    assert(done + (seq![entry@] + tail) =~= done.push(entry@) + tail);
                }
            }
            at += entry_size;
        }
        proof {
            assert(entry_views(out@) + Seq::<DirectoryEntryView>::empty() =~= entry_views(out@));
            lemma_dir_walk_total(block@, 0, limit as int);
        }
        Ok(out)
    }

    /// Inode number and name of each entry of the directory with inode
    /// number `inode`, in the order in which they lie in its first data
    /// block. Entries whose inode number is 0 are listed like the others.
    ///
    /// Fails as [`Ext2::read_dir_entries`] does.
    pub fn read_dir_inode(&self, inode: usize) -> (r: Result<Vec<(usize, &'a [u8])>, Ext2Error>)
        ensures
            match r {
                Ok(listing) => self@.dir_listing(inode as nat) == Ok::<
                    Seq<(usize, Seq<u8>)>,
                    Ext2Error,
                >(listing_view(listing@)),
                Err(e) => self@.dir_listing(inode as nat) == Err::<Seq<(usize, Seq<u8>)>, Ext2Error>(
                    e,
                ),
            },
    {
        let entries = match self.read_dir_entries(inode) {
            Ok(entries) => entries,
            Err(e) => {
                return Err(e);
            },
        };
        let mut ret: Vec<(usize, &'a [u8])> = Vec::new();
        let mut i: usize = 0;
        while i < entries.len()
            invariant
                i <= entries@.len(),
                ret@.len() == i,
                forall|j: int|
                    0 <= j < i ==> #[trigger] ret@[j] == (
                        entries@[j].inode as usize,
                        entries@[j].name,
                    ),
            decreases entries@.len() - i,
        {
            ret.push((entries[i].inode as usize, entries[i].name));
            i += 1;
        }
        proof {
            assert(listing_view(ret@) =~= listing_of(entry_views(entries@)));
        }
        Ok(ret)
    }
}

} // verus!

use ext2::ext2::bytes::{bytes_eq, find_byte, read_u16, read_u32, starts_with, trimmed, until_nul};
use ext2::ext2::file::Chunk;
use ext2::ext2::path::find_entry;
use ext2::ext2::structs::{
    BlockGroupDescriptor, DirectoryEntry, Inode, Superblock, TypePerm, EXT2_MAGIC,
};
use ext2::ext2::{Ext2, Ext2Error};
use ext2::shell::Shell;

const BS: usize = 1024;
const BLOCKS: usize = 40;
const FS_ID: [u8; 16] = [
    0xa1, 0xa2, 0xa3, 0xa4, 0xb1, 0xb2, 0xc1, 0xc2, 0xd1, 0xd2, 0xd3, 0xd4, 0xd5, 0xd6, 0xd7, 0xd8,
];

fn put_u16(image: &mut [u8], at: usize, v: u16) {
    image[at..at + 2].copy_from_slice(&v.to_le_bytes());
}

fn put_u32(image: &mut [u8], at: usize, v: u32) {
    image[at..at + 4].copy_from_slice(&v.to_le_bytes());
}

/// Byte offset of logical block `n` in an image with 1024-byte blocks.
fn at_block(n: usize) -> usize {
    n * BS
}

fn put_superblock(image: &mut [u8], blocks: u32, per_group: u32, inodes: u32, inodes_per_group: u32) {
    put_u32(image, 1024, inodes);
    put_u32(image, 1024 + 4, blocks);
    put_u32(image, 1024 + 24, 0);
    put_u32(image, 1024 + 32, per_group);
    put_u32(image, 1024 + 40, inodes_per_group);
    put_u16(image, 1024 + 56, 0xef53);
    put_u16(image, 1024 + 88, 128);
    image[1024 + 104..1024 + 120].copy_from_slice(&FS_ID);
}

fn put_inode(image: &mut [u8], table_block: usize, index: usize, mode: u16, size: u32, direct: &[u32], tree: [u32; 3]) {
    let at = at_block(table_block) + index * 128;
    put_u16(image, at, mode);
    put_u32(image, at + 4, size);
    for (i, p) in direct.iter().enumerate() {
        put_u32(image, at + 40 + 4 * i, *p);
    }
    put_u32(image, at + 88, tree[0]);
    put_u32(image, at + 92, tree[1]);
    put_u32(image, at + 96, tree[2]);
}

/// Writes directory records at the start of `block`; gives their total size.
fn put_dir(image: &mut [u8], block: usize, entries: &[(u32, &str)]) -> u32 {
    let mut at = at_block(block);
    for (inode, name) in entries {
        let size = 8 + ((name.len() + 1 + 3) & !3);
        put_u32(image, at, *inode);
        put_u16(image, at + 4, size as u16);
        image[at + 6] = name.len() as u8;
        image[at + 7] = 0;
        image[at + 8..at + 8 + name.len()].copy_from_slice(name.as_bytes());
        at += size;
    }
    (at - at_block(block)) as u32
}

fn fill(image: &mut [u8], block: usize, byte: u8) {
    for b in &mut image[at_block(block)..at_block(block) + BS] {
        *b = byte;
    }
}

const FILE: u16 = 0x81a4;
const DIR: u16 = 0x41ed;

/// An image with one block group, inode table in blocks 5 and 6, and the
/// files that the tests read.
fn sample() -> Vec<u8> {
    let mut image = vec![0u8; 2048 + BS + BLOCKS * BS];
    put_superblock(&mut image, BLOCKS as u32, 8192, 16, 16);
    put_u32(&mut image, 2048, 3);
    put_u32(&mut image, 2048 + 4, 4);
    put_u32(&mut image, 2048 + 8, 5);
    let root_size = put_dir(
        &mut image,
        7,
        &[
            (2, "."),
            (2, ".."),
            (3, "hello.txt"),
            (4, "sub"),
            (5, "sparse"),
            (7, "big"),
            (8, "deep"),
            (9, "deeper"),
            (10, "bad"),
            (11, "binary"),
        ],
    );
    let sub_size = put_dir(&mut image, 8, &[(4, "."), (2, ".."), (6, "inner.txt")]);
    put_inode(&mut image, 5, 1, DIR, root_size, &[7], [0, 0, 0]);
    put_inode(&mut image, 5, 2, FILE, 4096, &[9, 10, 11, 12], [0, 0, 0]);
    put_inode(&mut image, 5, 3, DIR, sub_size, &[8], [0, 0, 0]);
    put_inode(&mut image, 5, 4, FILE, 2500, &[14, 0, 15], [0, 0, 0]);
    put_inode(&mut image, 5, 5, FILE, 5, &[34], [0, 0, 0]);
    let direct: Vec<u32> = (20..32).collect();
    put_inode(&mut image, 5, 6, FILE, 15 * 1024, &direct, [13, 0, 0]);
    put_inode(&mut image, 5, 7, FILE, 13 * 1024, &[], [0, 16, 0]);
    put_inode(&mut image, 5, 8, FILE, 13 * 1024, &[], [0, 0, 19]);
    put_inode(&mut image, 5, 9, FILE, 10, &[9999], [0, 0, 0]);
    put_inode(&mut image, 5, 10, FILE, 4, &[35], [0, 0, 0]);
    fill(&mut image, 9, b'a');
    fill(&mut image, 10, b'b');
    fill(&mut image, 11, b'c');
    fill(&mut image, 12, b'd');
    fill(&mut image, 14, b'x');
    fill(&mut image, 15, b'y');
    for n in 20..32 {
        fill(&mut image, n, b'0' + (n - 20) as u8);
    }
    fill(&mut image, 32, b'I');
    fill(&mut image, 33, b'J');
    put_u32(&mut image, at_block(13), 32);
    put_u32(&mut image, at_block(13) + 4, 0);
    put_u32(&mut image, at_block(13) + 8, 33);
    put_u32(&mut image, at_block(16), 17);
    put_u32(&mut image, at_block(17), 18);
    fill(&mut image, 18, b'z');
    put_u32(&mut image, at_block(19), 16);
    image[at_block(34)..at_block(34) + 5].copy_from_slice(b"inner");
    fill(&mut image, 35, 0xff);
    image
}

fn mount(image: &[u8]) -> Ext2<'_> {
    Ext2::new(image, image.as_ptr() as usize).unwrap()
}

fn data_len(chunks: &[Chunk<'_>]) -> usize {
    chunks
        .iter()
        .map(|c| match c {
            Chunk::Data(b) => b.len(),
            Chunk::Hole => 0,
        })
        .sum()
}

fn holes(chunks: &[Chunk<'_>]) -> usize {
    chunks.iter().filter(|c| matches!(c, Chunk::Hole)).count()
}

fn data_of<'a>(chunk: &Chunk<'a>) -> &'a [u8] {
    match chunk {
        Chunk::Data(b) => b,
        Chunk::Hole => panic!("a hole where data was expected"),
    }
}

fn names<'a>(listing: &[(usize, &'a [u8])]) -> Vec<&'a [u8]> {
    listing.iter().map(|e| e.1).collect()
}

#[test]
fn little_endian_numbers() {
    let bytes = [0x53u8, 0xef, 0x78, 0x56, 0x34, 0x12];
    assert_eq!(read_u16(&bytes, 0), 0xef53);
    assert_eq!(read_u32(&bytes, 2), 0x12345678);
    assert_eq!(read_u16(&bytes, 4), 0x1234);
}

#[test]
fn byte_string_helpers() {
    assert_eq!(until_nul(b"abc\0def\0"), b"abc");
    assert_eq!(until_nul(b"abcd"), b"abcd");
    assert_eq!(until_nul(b"\0abcd"), b"");
    assert_eq!(until_nul(b""), b"");
    assert_eq!(trimmed(b"name \t\n"), b"name");
    assert_eq!(trimmed(b" a b"), b" a b");
    assert_eq!(trimmed(b"  "), b"");
    assert_eq!(find_byte(b"a/b/c", b'/', 0), 1);
    assert_eq!(find_byte(b"a/b/c", b'/', 2), 3);
    assert_eq!(find_byte(b"a/b/c", b'/', 4), 5);
    assert!(bytes_eq(b"sub", b"sub"));
    assert!(!bytes_eq(b"sub", b"sup"));
    assert!(!bytes_eq(b"sub", b"su"));
    assert!(starts_with(b"lsfoo", b"ls"));
    assert!(!starts_with(b"l", b"ls"));
    assert!(starts_with(b"x", b""));
}

#[test]
fn type_perm_directory_bit() {
    assert!(TypePerm { bits: 0x41ed }.is_directory());
    assert!(!TypePerm { bits: 0x81a4 }.is_directory());
    assert!(TypePerm { bits: 0x4000 }.contains(TypePerm::DIRECTORY));
    assert!(!TypePerm { bits: 0x01ed }.contains(0x4000));
    assert!(TypePerm { bits: 0x01ed }.contains(0x0100));
}

#[test]
fn records_are_decoded_at_their_offsets() {
    let image = sample();
    let sb = Superblock::parse(&image, 1024);
    assert_eq!(sb.inodes_count, 16);
    assert_eq!(sb.blocks_count, 40);
    assert_eq!(sb.log_block_size, 0);
    assert_eq!(sb.blocks_per_group, 8192);
    assert_eq!(sb.inodes_per_group, 16);
    assert_eq!(sb.magic, EXT2_MAGIC);
    assert_eq!(sb.inode_size, 128);
    assert_eq!(sb.fs_id, FS_ID);
    let d = BlockGroupDescriptor::parse(&image, 2048);
    assert_eq!(d.block_bitmap, 3);
    assert_eq!(d.inode_bitmap, 4);
    assert_eq!(d.inode_table_block, 5);
    let big = Inode::parse(&image, 5 * 1024 + 6 * 128);
    assert_eq!(big.type_perm.bits, 0x81a4);
    assert_eq!(big.size_low, 15360);
    assert_eq!(big.size_high, 0);
    assert_eq!(big.direct_pointer, [20, 21, 22, 23, 24, 25, 26, 27, 28, 29, 30, 31]);
    assert_eq!(big.indirect_pointer, 13);
    let deep = Inode::parse(&image, 5 * 1024 + 7 * 128);
    assert_eq!(deep.doubly_indirect, 16);
    let deeper = Inode::parse(&image, 5 * 1024 + 8 * 128);
    assert_eq!(deeper.triply_indirect, 19);
    let e = DirectoryEntry::parse(&image, 7 * 1024 + 24);
    assert_eq!(e.inode, 3);
    assert_eq!(e.entry_size, 20);
    assert_eq!(e.name_length, 9);
    assert_eq!(e.type_indicator, 0);
    assert_eq!(e.name, b"hello.txt");
}

#[test]
fn directory_entry_name_is_cut_at_nul_and_at_its_length() {
    let mut record = vec![0u8; 24];
    put_u32(&mut record, 0, 12);
    put_u16(&mut record, 4, 24);
    record[6] = 8;
    record[8..16].copy_from_slice(b"ab\0defgh");
    record[16..24].copy_from_slice(b"ijklmnop");
    assert_eq!(DirectoryEntry::parse(&record, 0).name, b"ab");
    record[10] = b'c';
    assert_eq!(DirectoryEntry::parse(&record, 0).name, b"abcdefgh");
}

#[test]
fn mount_round_trip() {
    let image = sample();
    let fs = mount(&image);
    assert_eq!(fs.superblock().magic, 0xef53);
    assert_eq!(fs.blocks().len(), fs.superblock().blocks_count as usize);
    assert_eq!(fs.blocks().len(), 40);
    assert_eq!(fs.block_size(), 1024);
    assert_eq!(fs.block_groups().len(), 1);
    assert_eq!(fs.block_groups()[0].inode_table_block, 5);
    assert_eq!(fs.block_offset(), 3);
    assert_eq!(fs.blocks_start(), 3072);
    assert_eq!(fs.blocks_end(), image.len());
    assert_eq!(fs.image(), &image[..]);
    assert_eq!(fs.blocks()[0], &image[3072..4096]);
    assert_eq!(fs.blocks()[39], &image[3072 + 39 * 1024..]);
}

#[test]
fn mount_captures_the_volume_id() {
    let image = sample();
    let fs = mount(&image);
    assert_eq!(fs.uuid().as_bytes(), &FS_ID);
    assert_eq!(fs.uuid().hyphenated().to_string(), "a1a2a3a4-b1b2-c1c2-d1d2-d3d4d5d6d7d8");
}

#[test]
fn mount_rejects_bad_magic() {
    let mut image = sample();
    image[1024 + 56] = 0x54;
    assert_eq!(Ext2::new(&image, image.as_ptr() as usize).err(), Some(Ext2Error::BadMagic));
    let short = vec![0u8; 2047];
    assert_eq!(Ext2::new(&short, short.as_ptr() as usize).err(), Some(Ext2Error::BadMagic));
    let empty: Vec<u8> = Vec::new();
    assert_eq!(Ext2::mount_at(&empty, 0, 0).err(), Some(Ext2Error::BadMagic));
}

#[test]
fn mount_rejects_a_layout_that_does_not_fit() {
    let image = sample();
    let cut = &image[..image.len() - 1];
    assert_eq!(Ext2::mount_at(cut, 0, 0).err(), Some(Ext2Error::BadBlockRef));
    let header_only = &image[..2048];
    assert_eq!(Ext2::mount_at(header_only, 0, 0).err(), Some(Ext2Error::BadBlockRef));
    let mut no_groups = sample();
    put_u32(&mut no_groups, 1024 + 32, 0);
    assert_eq!(Ext2::mount_at(&no_groups, 0, 0).err(), Some(Ext2Error::BadBlockRef));
    let mut many_groups = sample();
    put_u32(&mut many_groups, 1024 + 32, 1);
    assert_eq!(Ext2::mount_at(&many_groups, 0, 0).err(), Some(Ext2Error::BadBlockRef));
    let mut huge_blocks = sample();
    put_u32(&mut huge_blocks, 1024 + 24, 200);
    assert_eq!(Ext2::mount_at(&huge_blocks, 0, 0).err(), Some(Ext2Error::BadBlockRef));
    let mut larger_blocks = sample();
    put_u32(&mut larger_blocks, 1024 + 24, 1);
    assert_eq!(Ext2::mount_at(&larger_blocks, 0, 0).err(), Some(Ext2Error::BadBlockRef));
}

#[test]
fn mount_with_larger_blocks() {
    let mut image = vec![0u8; 2048 + 4096 + 3 * 4096];
    put_superblock(&mut image, 3, 8, 4, 4);
    put_u32(&mut image, 1024 + 24, 2);
    let fs = Ext2::mount_at(&image, 0, 0).unwrap();
    assert_eq!(fs.block_size(), 4096);
    assert_eq!(fs.blocks().len(), 3);
    assert_eq!(fs.block_offset(), 1);
    assert_eq!(fs.blocks_start(), 2048 + 4096);
}

#[test]
fn block_offset_follows_the_base_address() {
    let image = sample();
    assert_eq!(Ext2::mount_at(&image, 10_000, 10_000).unwrap().block_offset(), 3);
    assert_eq!(Ext2::mount_at(&image, 10_000, 10_000 + 3072).unwrap().block_offset(), 0);
    assert_eq!(Ext2::mount_at(&image, 10_000, 10_000 + 3071).unwrap().block_offset(), 0);
    assert_eq!(Ext2::mount_at(&image, 10_000, 10_000 + 2048).unwrap().block_offset(), 1);
    assert_eq!(Ext2::mount_at(&image, 10_000, 0).unwrap().block_offset(), 12);
    assert_eq!(
        Ext2::mount_at(&image, 10_000, 10_000 + 3073).err(),
        Some(Ext2Error::BadBlockRef)
    );
    assert_eq!(Ext2::mount_at(&image, usize::MAX, usize::MAX).unwrap().block_offset(), 3);
}

#[test]
fn blocks_by_logical_number() {
    let image = sample();
    let fs = mount(&image);
    assert_eq!(fs.block(3), Ok(&image[3072..4096]));
    assert_eq!(fs.block(9), Ok(&[b'a'; 1024][..]));
    assert_eq!(fs.block(42), Ok(&image[42 * 1024..43 * 1024]));
    assert_eq!(fs.block(43), Err(Ext2Error::BadBlockRef));
    assert_eq!(fs.block(2), Err(Ext2Error::BadBlockRef));
    assert_eq!(fs.block(0), Err(Ext2Error::BadBlockRef));
    assert_eq!(fs.block(u32::MAX), Err(Ext2Error::BadBlockRef));
}

#[test]
fn inode_indexing() {
    let image = sample();
    let fs = mount(&image);
    let root = fs.get_inode(2).unwrap();
    assert!(root.type_perm.is_directory());
    assert_eq!(root.direct_pointer[0], 7);
    let hello = fs.get_inode(3).unwrap();
    assert_eq!(hello.size_low, 4096);
    assert_eq!(hello.direct_pointer[..5], [9, 10, 11, 12, 0]);
    let blank = fs.get_inode(1).unwrap();
    assert_eq!(blank.size_low, 0);
    let last = fs.get_inode(16).unwrap();
    assert_eq!(last.size_low, 0);
    assert_eq!(fs.get_inode(7).unwrap().indirect_pointer, 13);
}

#[test]
fn inode_numbers_out_of_range() {
    let image = sample();
    let fs = mount(&image);
    assert_eq!(fs.get_inode(0).err(), Some(Ext2Error::NoSuchInode));
    assert_eq!(fs.get_inode(17).err(), Some(Ext2Error::NoSuchInode));
    assert_eq!(fs.get_inode(usize::MAX).err(), Some(Ext2Error::NoSuchInode));
    let mut none_per_group = sample();
    put_u32(&mut none_per_group, 1024 + 40, 0);
    let fs = mount(&none_per_group);
    assert_eq!(fs.get_inode(2).err(), Some(Ext2Error::NoSuchInode));
    let mut more_inodes = sample();
    put_u32(&mut more_inodes, 1024, 40);
    let fs = mount(&more_inodes);
    assert_eq!(fs.get_inode(17).err(), Some(Ext2Error::NoSuchInode));
    assert!(fs.get_inode(16).is_ok());
}

#[test]
fn inode_table_out_of_range() {
    let mut image = sample();
    put_u32(&mut image, 2048 + 8, 43);
    let fs = mount(&image);
    assert_eq!(fs.get_inode(2).err(), Some(Ext2Error::BadBlockRef));
    let mut below = sample();
    put_u32(&mut below, 2048 + 8, 2);
    let fs = mount(&below);
    assert_eq!(fs.get_inode(2).err(), Some(Ext2Error::BadBlockRef));
    let mut at_the_end = sample();
    put_u32(&mut at_the_end, 2048 + 8, 42);
    let fs = mount(&at_the_end);
    assert!(fs.get_inode(8).is_ok());
    assert_eq!(fs.get_inode(9).err(), Some(Ext2Error::BadBlockRef));
}

#[test]
fn inodes_of_the_second_group() {
    let mut image = sample();
    put_superblock(&mut image, BLOCKS as u32, 20, 16, 8);
    put_u32(&mut image, 2048 + 32 + 8, 36);
    put_inode(&mut image, 36, 0, FILE, 77, &[9], [0, 0, 0]);
    put_inode(&mut image, 36, 7, FILE, 99, &[9], [0, 0, 0]);
    let fs = mount(&image);
    assert_eq!(fs.block_groups().len(), 2);
    assert_eq!(fs.get_inode(8).unwrap().size_low, Inode::parse(&image, 5 * 1024 + 7 * 128).size_low);
    assert_eq!(fs.get_inode(9).unwrap().size_low, 77);
    assert_eq!(fs.get_inode(16).unwrap().size_low, 99);
    assert_eq!(fs.get_inode(17).err(), Some(Ext2Error::NoSuchInode));
}

#[test]
fn inode_records_lie_inode_size_apart() {
    let mut image = sample();
    put_u16(&mut image, 1024 + 88, 256);
    put_u32(&mut image, 1024 + 40, 8);
    put_u32(&mut image, 1024, 8);
    let fs = mount(&image);
    assert_eq!(fs.get_inode(2).unwrap().size_low, Inode::parse(&image, 5 * 1024 + 256).size_low);
    assert_eq!(fs.get_inode(2).unwrap().size_low, 4096);
    assert_eq!(fs.get_inode(4).unwrap().size_low, 15 * 1024);
    assert_eq!(fs.get_inode(5).unwrap().triply_indirect, 19);
}

#[test]
fn inode_records_are_never_closer_than_their_length() {
    let mut image = vec![0u8; 8192];
    put_u32(&mut image, 1024, 8);
    put_u32(&mut image, 1028, 5);
    put_u32(&mut image, 1056, 8);
    put_u32(&mut image, 1064, 8);
    put_u16(&mut image, 1080, 0xef53);
    put_u32(&mut image, 2056, 3);
    put_u32(&mut image, 3204, 7);
    let fs = mount(&image);
    assert_eq!(fs.superblock().inode_size, 0);
    assert_eq!(fs.get_inode(2).unwrap().size_low, 7);
    assert_eq!(fs.get_inode(1).unwrap().size_low, 0);
    assert_eq!(fs.get_inode(3).unwrap().size_low, 0);
    put_u16(&mut image, 1024 + 88, 127);
    assert_eq!(mount(&image).get_inode(2).unwrap().size_low, 7);
    put_u16(&mut image, 1024 + 88, 128);
    assert_eq!(mount(&image).get_inode(2).unwrap().size_low, 7);
    put_u16(&mut image, 1024 + 88, 129);
    assert_eq!(mount(&image).get_inode(2).unwrap().size_low, 0);
}

#[test]
fn root_directory_listing() {
    let image = sample();
    let fs = mount(&image);
    let listing = fs.read_dir_inode(2).unwrap();
    assert_eq!(
        listing,
        vec![
            (2usize, &b"."[..]),
            (2, &b".."[..]),
            (3, &b"hello.txt"[..]),
            (4, &b"sub"[..]),
            (5, &b"sparse"[..]),
            (7, &b"big"[..]),
            (8, &b"deep"[..]),
            (9, &b"deeper"[..]),
            (10, &b"bad"[..]),
            (11, &b"binary"[..]),
        ]
    );
    let sub = fs.read_dir_inode(4).unwrap();
    assert_eq!(names(&sub), vec![&b"."[..], &b".."[..], &b"inner.txt"[..]]);
    assert_eq!(sub[2].0, 6);
}

#[test]
fn directory_totality() {
    let image = sample();
    let fs = mount(&image);
    for n in [2usize, 4] {
        let entries = fs.read_dir_entries(n).unwrap();
        let total: u32 = entries.iter().map(|e| e.entry_size as u32).sum();
        assert_eq!(total, fs.get_inode(n).unwrap().size_low);
    }
    let entries = fs.read_dir_entries(2).unwrap();
    assert_eq!(entries[0].entry_size, 12);
    assert_eq!(entries[2].entry_size, 20);
    assert_eq!(entries[2].name_length, 9);
}

#[test]
fn directory_larger_than_a_block_is_read_up_to_the_block_end() {
    let mut image = sample();
    let at = at_block(7);
    let used = fs_root_size(&image);
    put_u16(&mut image, at + used - 16 + 4, (1024 - used + 16) as u16);
    put_u32(&mut image, 5 * 1024 + 128 + 4, 5000);
    let fs = mount(&image);
    let entries = fs.read_dir_entries(2).unwrap();
    assert_eq!(entries.len(), 10);
    let total: u32 = entries.iter().map(|e| e.entry_size as u32).sum();
    assert_eq!(total, 1024);
}

fn fs_root_size(image: &[u8]) -> usize {
    Inode::parse(image, 5 * 1024 + 128).size_low as usize
}

#[test]
fn empty_directory() {
    let mut image = sample();
    put_u32(&mut image, 5 * 1024 + 128 + 4, 0);
    let fs = mount(&image);
    assert_eq!(fs.read_dir_inode(2).unwrap().len(), 0);
}

#[test]
fn corrupt_directories() {
    let mut zero = sample();
    put_u16(&mut zero, at_block(7) + 12 + 4, 0);
    assert_eq!(mount(&zero).read_dir_inode(2).err(), Some(Ext2Error::CorruptDirectory));
    let mut long_name = sample();
    long_name[at_block(7) + 24 + 6] = 13;
    assert_eq!(mount(&long_name).read_dir_inode(2).err(), Some(Ext2Error::CorruptDirectory));
    let size = fs_root_size(&zero);
    let mut past_block = sample();
    put_u16(&mut past_block, at_block(7) + size - 16 + 4, (1024 - size + 16 + 4) as u16);
    assert_eq!(mount(&past_block).read_dir_inode(2).err(), Some(Ext2Error::CorruptDirectory));
    let mut short_header = sample();
    put_u16(&mut short_header, at_block(7) + 4, 4);
    assert_eq!(mount(&short_header).read_dir_inode(2).err(), Some(Ext2Error::CorruptDirectory));
    let mut half_header = sample();
    put_u32(&mut half_header, 5 * 1024 + 128 + 4, size as u32 + 4);
    assert_eq!(mount(&half_header).read_dir_inode(2).err(), Some(Ext2Error::CorruptDirectory));
}

#[test]
fn a_record_that_starts_below_the_size_is_listed() {
    let mut image = sample();
    let size = fs_root_size(&image);
    // The last record, of 16 bytes, now starts below the size and ends
    // behind it.
    put_u32(&mut image, 5 * 1024 + 128 + 4, size as u32 - 4);
    let fs = mount(&image);
    let entries = fs.read_dir_entries(2).unwrap();
    assert_eq!(entries.len(), 10);
    assert_eq!(entries[9].name, b"binary");
    let total: usize = entries.iter().map(|e| e.entry_size as usize).sum();
    assert_eq!(total, size);
    // It is left out where the size ends at its start.
    put_u32(&mut image, 5 * 1024 + 128 + 4, size as u32 - 16);
    let fs = mount(&image);
    assert_eq!(fs.read_dir_inode(2).unwrap().len(), 9);
    put_u32(&mut image, 5 * 1024 + 128 + 4, 1);
    let fs = mount(&image);
    assert_eq!(fs.read_dir_inode(2).unwrap(), vec![(2usize, &b"."[..])]);
}

#[test]
fn directory_errors_pass_through() {
    let image = sample();
    let fs = mount(&image);
    assert_eq!(fs.read_dir_inode(0).err(), Some(Ext2Error::NoSuchInode));
    assert_eq!(fs.read_dir_inode(10).err(), Some(Ext2Error::BadBlockRef));
    assert_eq!(fs.read_dir_inode(1).err(), Some(Ext2Error::BadBlockRef));
}

#[test]
fn first_entry_of_a_name_is_found() {
    let listing = vec![(5usize, &b"a"[..]), (6, &b"b"[..]), (7, &b"a"[..])];
    assert_eq!(find_entry(&listing, b"a"), Some(5));
    assert_eq!(find_entry(&listing, b"b"), Some(6));
    assert_eq!(find_entry(&listing, b"c"), None);
    assert_eq!(find_entry(&listing, b""), None);
    assert_eq!(find_entry(&[], b"a"), None);
}

#[test]
fn paths_are_followed() {
    let image = sample();
    let fs = mount(&image);
    let root = fs.read_dir_inode(2).unwrap();
    assert_eq!(fs.follow_path("hello.txt", root.clone()), Ok(3));
    assert_eq!(fs.follow_path("sub", root.clone()), Ok(4));
    assert_eq!(fs.follow_path("sub/inner.txt", root.clone()), Ok(6));
    assert_eq!(fs.follow_path("sub/../sub/./inner.txt", root.clone()), Ok(6));
    assert_eq!(fs.follow_path("./..", root.clone()), Ok(2));
    assert_eq!(fs.follow_path_bytes(b"sub/inner.txt", &root), Ok(6));
    let sub = fs.read_dir_inode(4).unwrap();
    assert_eq!(fs.follow_path("../hello.txt", sub), Ok(3));
}

#[test]
fn paths_that_are_not_found() {
    let image = sample();
    let fs = mount(&image);
    let root = fs.read_dir_inode(2).unwrap();
    assert_eq!(fs.follow_path("nothing", root.clone()), Err(Ext2Error::NotFound));
    assert_eq!(fs.follow_path("sub/nothing", root.clone()), Err(Ext2Error::NotFound));
    assert_eq!(fs.follow_path("", root.clone()), Err(Ext2Error::NotFound));
    assert_eq!(fs.follow_path("/sub", root.clone()), Err(Ext2Error::NotFound));
    assert_eq!(fs.follow_path("sub/", root.clone()), Err(Ext2Error::NotFound));
    assert_eq!(fs.follow_path("sub//inner.txt", root.clone()), Err(Ext2Error::NotFound));
    assert_eq!(fs.follow_path("sub", Vec::new()), Err(Ext2Error::NotFound));
}

#[test]
fn path_through_a_file_is_not_a_directory() {
    let image = sample();
    let fs = mount(&image);
    let root = fs.read_dir_inode(2).unwrap();
    assert_eq!(fs.follow_path("hello.txt/bar", root.clone()), Err(Ext2Error::NotADirectory));
    assert_eq!(fs.follow_path("sub/inner.txt/x", root.clone()), Err(Ext2Error::NotADirectory));
    assert_eq!(fs.enter_directory(3).err(), Some(Ext2Error::NotADirectory));
    assert_eq!(fs.enter_directory(4).unwrap().len(), 3);
    assert_eq!(fs.enter_directory(0).err(), Some(Ext2Error::NoSuchInode));
}

#[test]
fn path_errors_of_directories_on_the_way() {
    let mut image = sample();
    put_inode(&mut image, 5, 9, DIR, 10, &[9999], [0, 0, 0]);
    put_inode(&mut image, 5, 10, DIR, 4, &[35], [0, 0, 0]);
    let fs = mount(&image);
    let root = fs.read_dir_inode(2).unwrap();
    assert_eq!(fs.follow_path("bad/x", root.clone()), Err(Ext2Error::BadBlockRef));
    assert_eq!(fs.follow_path("binary/x", root.clone()), Err(Ext2Error::CorruptDirectory));
    assert_eq!(fs.follow_path("bad", root.clone()), Ok(10));
    let stray = vec![(99usize, &b"far"[..])];
    assert_eq!(fs.follow_path("far/x", stray.clone()), Err(Ext2Error::NoSuchInode));
    assert_eq!(fs.follow_path("far", stray), Ok(99));
}

#[test]
fn path_composition() {
    let image = sample();
    let fs = mount(&image);
    let root = fs.read_dir_inode(2).unwrap();
    let whole = fs.follow_path("sub/../sub/inner.txt", root.clone());
    let prefix = fs.follow_path("sub/../sub", root.clone()).unwrap();
    let rest = fs.follow_path("inner.txt", fs.read_dir_inode(prefix).unwrap());
    assert_eq!(whole, rest);
    assert_eq!(whole, Ok(6));
    let missing = fs.follow_path("sub/nope", root.clone());
    let prefix = fs.follow_path("sub", root).unwrap();
    assert_eq!(missing, fs.follow_path("nope", fs.read_dir_inode(prefix).unwrap()));
}

#[test]
fn file_of_four_direct_blocks() {
    let image = sample();
    let fs = mount(&image);
    let chunks = fs.read_file(&fs.get_inode(3).unwrap()).unwrap();
    assert_eq!(chunks.len(), 4);
    assert_eq!(data_of(&chunks[0]), &[b'a'; 1024][..]);
    assert_eq!(data_of(&chunks[1]), &[b'b'; 1024][..]);
    assert_eq!(data_of(&chunks[2]), &[b'c'; 1024][..]);
    assert_eq!(data_of(&chunks[3]), &[b'd'; 1024][..]);
    assert_eq!(data_len(&chunks), 4096);
}

#[test]
fn file_through_the_singly_indirect_block() {
    let image = sample();
    let fs = mount(&image);
    let chunks = fs.read_file(&fs.get_inode(7).unwrap()).unwrap();
    assert_eq!(chunks.len(), 15);
    for i in 0..12 {
        assert_eq!(data_of(&chunks[i]), &[b'0' + i as u8; 1024][..]);
    }
    assert_eq!(data_of(&chunks[12]), &[b'I'; 1024][..]);
    assert!(matches!(chunks[13], Chunk::Hole));
    assert_eq!(data_of(&chunks[14]), &[b'J'; 1024][..]);
    assert_eq!(holes(&chunks), 1);
}

#[test]
fn sparse_file_is_cut_at_its_size() {
    let image = sample();
    let fs = mount(&image);
    let inode = fs.get_inode(5).unwrap();
    let chunks = fs.read_file(&inode).unwrap();
    assert_eq!(chunks.len(), 3);
    assert_eq!(data_of(&chunks[0]), &[b'x'; 1024][..]);
    assert!(matches!(chunks[1], Chunk::Hole));
    assert_eq!(data_of(&chunks[2]), &[b'y'; 452][..]);
    assert_eq!(holes(&chunks), 1);
    assert!(data_len(&chunks) <= inode.size_low as usize);
}

#[test]
fn file_length_bound() {
    let image = sample();
    let fs = mount(&image);
    for n in [1usize, 3, 5, 6, 7, 8, 9, 11] {
        let inode = fs.get_inode(n).unwrap();
        let chunks = fs.read_file(&inode).unwrap();
        assert!(data_len(&chunks) <= inode.size_low as usize);
    }
    assert_eq!(data_len(&fs.read_file(&fs.get_inode(6).unwrap()).unwrap()), 5);
    assert_eq!(fs.read_file(&fs.get_inode(1).unwrap()).unwrap().len(), 0);
}

#[test]
fn file_through_the_doubly_indirect_block() {
    let image = sample();
    let fs = mount(&image);
    let chunks = fs.read_file(&fs.get_inode(8).unwrap()).unwrap();
    assert_eq!(chunks.len(), 13);
    assert_eq!(holes(&chunks), 12);
    assert_eq!(data_of(&chunks[12]), &[b'z'; 1024][..]);
}

#[test]
fn file_through_the_triply_indirect_block() {
    let image = sample();
    let fs = mount(&image);
    let chunks = fs.read_file(&fs.get_inode(9).unwrap()).unwrap();
    assert_eq!(chunks.len(), 13);
    assert_eq!(holes(&chunks), 12);
    assert_eq!(data_of(&chunks[12]), &[b'z'; 1024][..]);
}

#[test]
fn hole_transparency() {
    let mut image = sample();
    put_inode(&mut image, 5, 7, FILE, 14 * 1024, &[], [0, 16, 0]);
    let fs = mount(&image);
    let chunks = fs.read_file(&fs.get_inode(8).unwrap()).unwrap();
    // Twelve zero direct pointers, one data block, and one zero pointer of
    // the same pointer table, with which the size is reached.
    assert_eq!(chunks.len(), 14);
    assert_eq!(holes(&chunks), 13);
    put_inode(&mut image, 5, 7, FILE, (12 + 256 + 1) * 1024, &[], [0, 16, 0]);
    let fs = mount(&image);
    let chunks = fs.read_file(&fs.get_inode(8).unwrap()).unwrap();
    // Twelve zero direct pointers; the pointer table behind the first entry
    // of the doubly indirect block, with one data block and 255 zero
    // pointers; then the other 255 entries of the doubly indirect block, all
    // zero, none of which advances the walk.
    assert_eq!(chunks.len(), 12 + 256 + 255);
    assert_eq!(holes(&chunks), 12 + 255 + 255);
    assert_eq!(data_len(&chunks), 1024);
    put_inode(&mut image, 5, 4, FILE, 3000, &[0, 0, 0, 14], [0, 0, 0]);
    let fs = mount(&image);
    let chunks = fs.read_file(&fs.get_inode(5).unwrap()).unwrap();
    assert_eq!(chunks.len(), 3);
    assert_eq!(holes(&chunks), 3);
}

#[test]
fn file_with_a_pointer_outside_the_image() {
    let mut image = sample();
    let fs = mount(&image);
    assert_eq!(fs.read_file(&fs.get_inode(10).unwrap()).err(), Some(Ext2Error::BadBlockRef));
    put_inode(&mut image, 5, 2, FILE, 4096, &[9, 10, 11, 12], [9999, 0, 0]);
    let fs = mount(&image);
    assert_eq!(fs.read_file(&fs.get_inode(3).unwrap()).err(), Some(Ext2Error::BadBlockRef));
    put_inode(&mut image, 5, 2, FILE, 4096, &[9, 10, 11, 12], [0, 0, 2]);
    let fs = mount(&image);
    assert_eq!(fs.read_file(&fs.get_inode(3).unwrap()).err(), Some(Ext2Error::BadBlockRef));
    put_inode(&mut image, 5, 2, FILE, 4096, &[9, 10, 11, 12, 9999], [0, 0, 0]);
    let fs = mount(&image);
    assert_eq!(fs.read_file(&fs.get_inode(3).unwrap()).unwrap().len(), 4);
    put_u32(&mut image, at_block(13) + 8, 9999);
    let fs = mount(&image);
    assert_eq!(fs.read_file(&fs.get_inode(7).unwrap()).err(), Some(Ext2Error::BadBlockRef));
}

#[test]
fn error_messages() {
    assert_eq!(Ext2Error::BadMagic.message(), "bad magic number");
    assert_eq!(Ext2Error::BadBlockRef.message(), "bad block reference");
    assert_eq!(Ext2Error::NoSuchInode.message(), "no such inode");
    assert_eq!(Ext2Error::NotADirectory.message(), "cannot cd into a file");
    assert_eq!(Ext2Error::NotFound.message(), "no such file or directory");
    assert_eq!(Ext2Error::CorruptDirectory.message(), "corrupt directory");
    assert_eq!(Ext2Error::InvalidUtf8.message(), "invalid utf-8");
}

fn run(fs: &Ext2<'_>, shell: &mut Shell, line: &str) -> (Vec<u8>, bool) {
    let dirs = shell.begin(fs).unwrap();
    let reply = shell.execute(fs, &dirs, line);
    (reply.output, reply.quit)
}

#[test]
fn ls_at_startup_prints_the_root_directory() {
    let image = sample();
    let fs = mount(&image);
    let mut shell = Shell::new();
    assert_eq!(shell.cwd, 2);
    let (output, quit) = run(&fs, &mut shell, "ls");
    assert_eq!(
        output,
        b".\t..\thello.txt\tsub\tsparse\tbig\tdeep\tdeeper\tbad\tbinary\n".to_vec()
    );
    assert!(!quit);
    assert_eq!(shell.cwd, 2);
}

#[test]
fn ls_with_a_path() {
    let image = sample();
    let fs = mount(&image);
    let mut shell = Shell::new();
    assert_eq!(run(&fs, &mut shell, "ls sub"), (b".\t..\tinner.txt\n".to_vec(), false));
    assert_eq!(run(&fs, &mut shell, "ls sub/.. ignored"), (
        b".\t..\thello.txt\tsub\tsparse\tbig\tdeep\tdeeper\tbad\tbinary\n".to_vec(),
        false,
    ));
    assert_eq!(run(&fs, &mut shell, "ls nothing"), (b"no such file or directory\n".to_vec(), false));
    assert_eq!(run(&fs, &mut shell, "ls hello.txt/bar"), (b"cannot cd into a file\n".to_vec(), false));
    assert_eq!(run(&fs, &mut shell, "ls "), (b"no such file or directory\n".to_vec(), false));
    assert_eq!(run(&fs, &mut shell, "ls bad"), (b"cannot cd into a file\n".to_vec(), false));
    assert_eq!(run(&fs, &mut shell, "ls hello.txt"), (b"cannot cd into a file\n".to_vec(), false));
    assert_eq!(shell.cwd, 2);
}

#[test]
fn ls_ends_the_session_where_the_directory_cannot_be_read() {
    let mut image = sample();
    put_inode(&mut image, 5, 9, DIR, 10, &[9999], [0, 0, 0]);
    put_inode(&mut image, 5, 10, DIR, 4, &[35], [0, 0, 0]);
    let fs = mount(&image);
    let mut shell = Shell::new();
    assert_eq!(run(&fs, &mut shell, "ls bad"), (b"unable to read cwd\n".to_vec(), true));
    assert_eq!(run(&fs, &mut shell, "ls binary"), (b"unable to read cwd\n".to_vec(), true));
    let dirs = vec![(99usize, &b"far"[..])];
    let reply = shell.execute(&fs, &dirs, "ls far");
    assert_eq!(reply.output, b"unable to read cwd\n".to_vec());
    assert!(reply.quit);
}

#[test]
fn ls_of_one_name_and_of_none() {
    let image = sample();
    let fs = mount(&image);
    let mut shell = Shell::new();
    let one = vec![(3usize, &b"only"[..])];
    assert_eq!(shell.execute(&fs, &one, "ls").output, b"only\n".to_vec());
    let none: Vec<(usize, &[u8])> = Vec::new();
    assert_eq!(shell.execute(&fs, &none, "ls").output, b"\n".to_vec());
    let two = vec![(3usize, &b"a"[..]), (4, &b""[..]), (5, &b"b"[..])];
    assert_eq!(shell.execute(&fs, &two, "ls").output, b"a\t\tb\n".to_vec());
}

#[test]
fn cd_without_argument_goes_to_the_root() {
    let image = sample();
    let fs = mount(&image);
    let mut shell = Shell { cwd: 4 };
    assert_eq!(run(&fs, &mut shell, "cd"), (Vec::new(), false));
    assert_eq!(shell.cwd, 2);
}

#[test]
fn cd_to_a_name_that_is_not_there() {
    let image = sample();
    let fs = mount(&image);
    let mut shell = Shell::new();
    assert_eq!(run(&fs, &mut shell, "cd nonexistent"), (
        b"unable to locate nonexistent, cwd unchanged\n".to_vec(),
        false,
    ));
    assert_eq!(shell.cwd, 2);
    shell.cwd = 4;
    assert_eq!(run(&fs, &mut shell, "cd hello.txt"), (
        b"unable to locate hello.txt, cwd unchanged\n".to_vec(),
        false,
    ));
    assert_eq!(shell.cwd, 4);
}

#[test]
fn cd_into_directories_and_files() {
    let image = sample();
    let fs = mount(&image);
    let mut shell = Shell::new();
    assert_eq!(run(&fs, &mut shell, "cd sub"), (Vec::new(), false));
    assert_eq!(shell.cwd, 4);
    assert_eq!(run(&fs, &mut shell, "ls"), (b".\t..\tinner.txt\n".to_vec(), false));
    assert_eq!(run(&fs, &mut shell, "cd inner.txt"), (b"cannot cd into a file\n".to_vec(), false));
    assert_eq!(shell.cwd, 4);
    assert_eq!(run(&fs, &mut shell, "cd .."), (Vec::new(), false));
    assert_eq!(shell.cwd, 2);
    assert_eq!(run(&fs, &mut shell, "cd sub extra words"), (Vec::new(), false));
    assert_eq!(shell.cwd, 4);
}

#[test]
fn cd_takes_the_last_directory_of_a_name() {
    let image = sample();
    let fs = mount(&image);
    let mut shell = Shell::new();
    let dirs = vec![(4usize, &b"d"[..]), (3, &b"d"[..]), (2, &b"d"[..]), (99, &b"d"[..])];
    let reply = shell.execute(&fs, &dirs, "cd d");
    assert_eq!(reply.output, b"cannot cd into a file\nno such inode\n".to_vec());
    assert!(!reply.quit);
    assert_eq!(shell.cwd, 2);
    let dirs = vec![(2usize, &b"d"[..]), (4, &b"d"[..]), (3, &b"e"[..])];
    shell.execute(&fs, &dirs, "cd d");
    assert_eq!(shell.cwd, 4);
}

#[test]
fn cat_prints_a_file() {
    let image = sample();
    let fs = mount(&image);
    let mut shell = Shell::new();
    let (output, quit) = run(&fs, &mut shell, "cat hello.txt");
    let mut expected = Vec::new();
    for b in [b'a', b'b', b'c', b'd'] {
        expected.extend_from_slice(&[b; 1024]);
    }
    expected.push(b'\n');
    assert_eq!(output, expected);
    assert!(!quit);
    shell.cwd = 4;
    assert_eq!(run(&fs, &mut shell, "cat inner.txt"), (b"inner\n".to_vec(), false));
}

#[test]
fn cat_shows_holes_as_dots() {
    let image = sample();
    let fs = mount(&image);
    let mut shell = Shell::new();
    let (output, _) = run(&fs, &mut shell, "cat sparse");
    let mut expected = vec![b'x'; 1024];
    expected.extend_from_slice(b"...");
    expected.extend_from_slice(&[b'y'; 452]);
    expected.push(b'\n');
    assert_eq!(output, expected);
    let (output, _) = run(&fs, &mut shell, "cat big");
    assert_eq!(output.len(), 14 * 1024 + 3 + 1);
    assert_eq!(&output[12 * 1024..13 * 1024], &[b'I'; 1024][..]);
    assert_eq!(&output[13 * 1024..13 * 1024 + 3], b"...");
    assert_eq!(&output[13 * 1024 + 3..14 * 1024 + 3], &[b'J'; 1024][..]);
}

#[test]
fn cat_reports_what_fails() {
    let image = sample();
    let fs = mount(&image);
    let mut shell = Shell::new();
    assert_eq!(run(&fs, &mut shell, "cat"), (b"no argument provided\n".to_vec(), false));
    assert_eq!(run(&fs, &mut shell, "cat nothing"), (b"unable to locate nothing\n".to_vec(), false));
    assert_eq!(run(&fs, &mut shell, "cat bad"), (b"bad block reference\n".to_vec(), false));
    assert_eq!(run(&fs, &mut shell, "cat binary"), (b"invalid utf-8\n".to_vec(), false));
    let dirs = vec![(99usize, &b"far"[..]), (6, &b"near \n"[..]), (6, &b"near"[..])];
    assert_eq!(shell.execute(&fs, &dirs, "cat far").output, b"no such inode\n".to_vec());
    assert_eq!(shell.execute(&fs, &dirs, "cat near").output, b"inner\ninner\n".to_vec());
    assert_eq!(shell.cwd, 2);
}

#[test]
fn commands_that_are_not_implemented() {
    let image = sample();
    let fs = mount(&image);
    let mut shell = Shell::new();
    assert_eq!(run(&fs, &mut shell, "mkdir x"), (b"mkdir not yet implemented\n".to_vec(), false));
    assert_eq!(run(&fs, &mut shell, "rm x"), (b"rm not yet implemented\n".to_vec(), false));
    assert_eq!(run(&fs, &mut shell, "mount a b"), (b"mount not yet implemented\n".to_vec(), false));
    assert_eq!(run(&fs, &mut shell, "link a b"), (b"link not yet implemented\n".to_vec(), false));
    assert_eq!(run(&fs, &mut shell, "frobnicate"), (Vec::new(), false));
    assert_eq!(run(&fs, &mut shell, ""), (Vec::new(), false));
    assert_eq!(run(&fs, &mut shell, " ls"), (Vec::new(), false));
    assert_eq!(shell.cwd, 2);
}

#[test]
fn quit_and_exit_end_the_session() {
    let image = sample();
    let fs = mount(&image);
    let mut shell = Shell::new();
    assert_eq!(run(&fs, &mut shell, "quit"), (Vec::new(), true));
    assert_eq!(run(&fs, &mut shell, "exit now"), (Vec::new(), true));
    let reply = Shell::end_of_input();
    assert_eq!(reply.output, b"bye!\n".to_vec());
    assert!(reply.quit);
}

#[test]
fn session_ends_where_the_working_directory_cannot_be_read() {
    let image = sample();
    let fs = mount(&image);
    let shell = Shell { cwd: 10 };
    let reply = shell.begin(&fs).unwrap_err();
    assert_eq!(reply.output, b"unable to read cwd, top\n".to_vec());
    assert!(reply.quit);
    assert_eq!(Shell::new().begin(&fs).unwrap().len(), 10);
}

#[test]
fn entries_without_an_inode_are_listed() {
    let mut image = sample();
    put_u32(&mut image, at_block(7) + 24, 0);
    let fs = mount(&image);
    let listing = fs.read_dir_inode(2).unwrap();
    assert_eq!(listing.len(), 10);
    assert_eq!(listing[2], (0usize, &b"hello.txt"[..]));
    assert_eq!(fs.follow_path("hello.txt", listing.clone()), Ok(0));
    assert_eq!(fs.follow_path("hello.txt/x", listing), Err(Ext2Error::NoSuchInode));
}

#[test]
fn group_count_rounds_up() {
    for (per_group, groups) in [(40u32, 1usize), (39, 2), (20, 2), (19, 3), (2, 20), (8192, 1)] {
        let mut image = sample();
        put_u32(&mut image, 1024 + 32, per_group);
        let fs = mount(&image);
        assert_eq!(fs.block_groups().len(), groups);
    }
    let mut no_blocks = vec![0u8; 2048 + 1024];
    put_superblock(&mut no_blocks, 0, 8, 0, 8);
    let fs = mount(&no_blocks);
    assert_eq!(fs.block_groups().len(), 0);
    assert_eq!(fs.blocks().len(), 0);
    assert_eq!(fs.block(3).err(), Some(Ext2Error::BadBlockRef));
    assert_eq!(fs.get_inode(1).err(), Some(Ext2Error::NoSuchInode));
}

use ext2::block_group::BlockGroupDescriptor;
use ext2::bytes::read_u16_le;
use ext2::bytes::read_u32_le;
use ext2::bytes::write_u16_le;
use ext2::bytes::write_u32_le;
use ext2::dir::DirEntry;
use ext2::Inode;
use ext2::Superblock;
use ext2::Type;

#[test]
fn test_little_endian_fields() {
    let data = vec![0x78, 0x56, 0x34, 0x12, 0xCD, 0xAB];
    assert_eq!(0x1234_5678, read_u32_le(&data, 0));
    assert_eq!(0x5678, read_u16_le(&data, 0));
    assert_eq!(0xABCD, read_u16_le(&data, 4));

    let mut out = vec![0_u8; 6];
    write_u32_le(&mut out, 0, 0x1234_5678);
    write_u16_le(&mut out, 4, 0xABCD);
    assert_eq!(data, out);
}

fn sample_superblock() -> Superblock {
    Superblock {
        num_inodes: 128,
        num_blocks: 1024,
        num_reserved_blocks: 5,
        num_unallocated_blocks: 1003,
        num_unallocated_inodes: 118,
        log_block_size: 2,
        blocks_per_group: 8192,
        inodes_per_group: 128,
        magic: 0xEF53,
        inode_size: 256,
        required_features: 0x2,
    }
}

#[test]
fn test_superblock_roundtrip() {
    let sb = sample_superblock();
    let encoded = sb.encode();
    assert_eq!(1024, encoded.len());
    let decoded = Superblock::decode(&encoded).unwrap();
    assert_eq!(sb, decoded);
    // block size follows 1024 << log_block_size
    assert_eq!(4096, decoded.block_size());
    assert!(decoded.has_dir_entry_types());
}

#[test]
fn test_superblock_rejects_bad_magic() {
    let sb = Superblock { magic: 0x1234, ..sample_superblock() };
    // the encoder demands a valid record, so corrupt the bytes instead
    let mut encoded = sample_superblock().encode();
    encoded[56] = 0x34;
    encoded[57] = 0x12;
    assert!(Superblock::decode(&encoded).is_none());
    assert_eq!(0x1234, sb.magic);
}

#[test]
fn test_block_group_descriptor_roundtrip() {
    let d = BlockGroupDescriptor {
        block_usage_bitmap_block: 3,
        inode_usage_bitmap_block: 4,
        inode_table_starting_block: 5,
        num_unallocated_blocks: 1003,
        num_unallocated_inodes: 118,
        num_directories: 7,
    };
    let mut buf = vec![0xAA_u8; 64];
    d.encode_into(&mut buf, 32);
    let decoded = BlockGroupDescriptor::decode(&buf, 32);
    assert_eq!(d, decoded);
    // bytes before the record and its reserved tail stay untouched
    assert_eq!(0xAA, buf[31]);
    assert_eq!(0xAA, buf[32 + 18]);
}

#[test]
fn test_inode_roundtrip() {
    let mut ino = Inode::new(Type::RegularFile);
    ino.byte_size_lower = 14;
    ino.byte_size_upper_or_dir_acl = 1;
    ino.num_hard_links = 2;
    ino.flags = 0x80;
    ino.direct_block_ptr[0] = 21;
    ino.direct_block_ptr[11] = 99;
    ino.singly_indirect_block_ptr = 123;
    let raw = ino.encode();
    let decoded = Inode::decode(&raw);
    assert_eq!(ino, decoded);
    assert_eq!(128, raw.as_slice().len());
}

#[test]
fn test_inode_type_and_len() {
    let mut ino = Inode::new(Type::RegularFile);
    assert_eq!(Type::RegularFile, ino.typ());
    assert_eq!(0, ino.len());
    assert!(ino.is_empty());
    ino.byte_size_lower = 5;
    ino.byte_size_upper_or_dir_acl = 2;
    // regular files use the full 64-bit size
    assert_eq!((2_u64 << 32) | 5, ino.len());

    let mut dir = Inode::new(Type::Directory);
    assert_eq!(Type::Directory, dir.typ());
    dir.byte_size_lower = 1024;
    dir.byte_size_upper_or_dir_acl = 7; // dir_acl, not a size word
    assert_eq!(1024, dir.len());
}

#[test]
fn test_inode_perm_mask() {
    let mut ino = Inode::new(Type::RegularFile);
    ino.type_and_perm = 0x81ED;
    assert_eq!(Type::RegularFile, ino.typ());
    assert_eq!(0x1ED, ino.perm());
}

#[test]
fn test_dir_entry_roundtrip() {
    let e = DirEntry {
        inode: 12,
        total_size: 20,
        name_length: 9,
        type_indicator: Some(1),
        name_bytes: b"hello.txt".to_vec(),
    };
    let bytes = e.serialize(true);
    assert_eq!(8 + 9, bytes.len());
    let decoded = DirEntry::from(true, &bytes, 0);
    assert_eq!(e, decoded);

    // without entry types the high name-length byte is stored instead
    let e2 = DirEntry {
        inode: 7,
        total_size: 16,
        name_length: 4,
        type_indicator: None,
        name_bytes: b"asdf".to_vec(),
    };
    let bytes2 = e2.serialize(false);
    let decoded2 = DirEntry::from(false, &bytes2, 0);
    assert_eq!(e2, decoded2);
}

#[test]
fn test_dir_entry_size_is_aligned() {
    assert_eq!(12, DirEntry::size(1));
    assert_eq!(12, DirEntry::size(2));
    assert_eq!(12, DirEntry::size(4));
    assert_eq!(16, DirEntry::size(5));
    assert_eq!(20, DirEntry::size(9));
    assert_eq!(20, DirEntry::size(10));
    assert_eq!(20, DirEntry::size(12));
}

use ext2::dir::check_dir_block;
use ext2::DirType;
use ext2::Error;
use ext2::Ext2Fs;
use ext2::MemoryBlockDevice;
use ext2::RegularFile;
use ext2::Type;

// ---------------------------------------------------------------------------
// image construction: a 1 MiB volume with 1 KiB blocks and a single group
// ---------------------------------------------------------------------------

const BLOCK: usize = 1024;
const IMAGE_LEN: usize = 1024 * 1024;

fn le16(img: &mut Vec<u8>, off: usize, x: u16) {
    img[off] = (x & 0xFF) as u8;
    img[off + 1] = (x >> 8) as u8;
}

fn le32(img: &mut Vec<u8>, off: usize, x: u32) {
    img[off] = (x & 0xFF) as u8;
    img[off + 1] = ((x >> 8) & 0xFF) as u8;
    img[off + 2] = ((x >> 16) & 0xFF) as u8;
    img[off + 3] = ((x >> 24) & 0xFF) as u8;
}

fn mark_used(img: &mut Vec<u8>, bitmap_off: usize, from_bit: usize, to_bit: usize) {
    for b in from_bit..to_bit {
        img[bitmap_off + b / 8] |= 1 << (b % 8);
    }
}

fn block_off(b: usize) -> usize {
    1024 + (b - 1) * BLOCK
}

fn inode_off(a: usize) -> usize {
    // inode table starts at block 5
    block_off(5) + (a - 1) * 128
}

fn write_dirent(img: &mut Vec<u8>, off: usize, inode: u32, total: u16, name: &[u8], dtype: u8) {
    le32(img, off, inode);
    le16(img, off + 4, total);
    img[off + 6] = name.len() as u8;
    img[off + 7] = dtype;
    img[off + 8..off + 8 + name.len()].copy_from_slice(name);
}

fn write_dir_inode(img: &mut Vec<u8>, a: usize, first_block: u32) {
    let o = inode_off(a);
    le16(img, o, 0x41ED); // directory, rwxr-xr-x
    le32(img, o + 4, BLOCK as u32);
    le16(img, o + 26, 2);
    le32(img, o + 40, first_block);
}

/// The base volume: superblock, descriptor table, bitmaps, inode table
/// over blocks 1..=20, and a root directory in block 21 holding only "."
/// and "..". `used_blocks` and `used_inodes` say how much is taken in all.
fn build_base_image(used_blocks: usize, used_inodes: usize) -> Vec<u8> {
    let mut img = vec![0u8; IMAGE_LEN];
    let free_blocks = 1024 - used_blocks;
    let free_inodes = 128 - used_inodes;
    // superblock
    let sb = 1024;
    le32(&mut img, sb, 128); // inodes
    le32(&mut img, sb + 4, 1024); // blocks
    le32(&mut img, sb + 8, 0); // reserved
    le32(&mut img, sb + 12, free_blocks as u32);
    le32(&mut img, sb + 16, free_inodes as u32);
    le32(&mut img, sb + 20, 1); // first data block
    le32(&mut img, sb + 24, 0); // log block size -> 1024
    le32(&mut img, sb + 32, 8192); // blocks per group
    le32(&mut img, sb + 40, 128); // inodes per group
    le16(&mut img, sb + 56, 0xEF53);
    le32(&mut img, sb + 76, 1); // revision
    le16(&mut img, sb + 88, 128); // inode size
    le32(&mut img, sb + 96, 0x2); // directory entries carry types
    // one group descriptor
    let gd = 2048;
    le32(&mut img, gd, 3); // block bitmap at block 3
    le32(&mut img, gd + 4, 4); // inode bitmap at block 4
    le32(&mut img, gd + 8, 5); // inode table from block 5
    le16(&mut img, gd + 12, free_blocks as u16);
    le16(&mut img, gd + 14, free_inodes as u16);
    le16(&mut img, gd + 16, 1);
    // block bitmap: low bits for used blocks, plus everything past the volume
    mark_used(&mut img, block_off(3), 0, used_blocks);
    mark_used(&mut img, block_off(3), 1024, 8192);
    // inode bitmap: the reserved inodes, plus everything past the table
    mark_used(&mut img, block_off(4), 0, used_inodes);
    mark_used(&mut img, block_off(4), 128, 8192);
    // root directory: inode 2 over block 21
    write_dir_inode(&mut img, 2, 21);
    let d = block_off(21);
    write_dirent(&mut img, d, 2, 12, b".", 2);
    write_dirent(&mut img, d + 12, 2, (BLOCK - 12) as u16, b"..", 2);
    img
}

/// The empty volume: reserved inodes 1..=10, blocks 1..=21 in use.
fn build_empty_image() -> Vec<u8> {
    build_base_image(21, 10)
}

/// The populated read-only volume: `lost+found` (inode 11, block 23),
/// `hello.txt` (inode 12, block 22, "Hello, World!\n") and `some`
/// (inode 13, block 24) in the root.
fn build_read_image() -> Vec<u8> {
    let mut img = build_base_image(24, 13);
    // root entries
    let d = block_off(21);
    write_dirent(&mut img, d, 2, 12, b".", 2);
    write_dirent(&mut img, d + 12, 2, 12, b"..", 2);
    write_dirent(&mut img, d + 24, 11, 20, b"lost+found", 2);
    write_dirent(&mut img, d + 44, 12, 20, b"hello.txt", 1);
    write_dirent(&mut img, d + 64, 13, (BLOCK - 64) as u16, b"some", 2);
    // hello.txt: inode 12 over block 22
    let o = inode_off(12);
    le16(&mut img, o, 0x81A4); // regular, rw-r--r--
    le32(&mut img, o + 4, 14);
    le16(&mut img, o + 26, 1);
    le32(&mut img, o + 40, 22);
    let c = block_off(22);
    img[c..c + 14].copy_from_slice(b"Hello, World!\n");
    // lost+found: inode 11 over block 23
    write_dir_inode(&mut img, 11, 23);
    let d2 = block_off(23);
    write_dirent(&mut img, d2, 11, 12, b".", 2);
    write_dirent(&mut img, d2 + 12, 2, (BLOCK - 12) as u16, b"..", 2);
    // some: inode 13 over block 24
    write_dir_inode(&mut img, 13, 24);
    let d3 = block_off(24);
    write_dirent(&mut img, d3, 13, 12, b".", 2);
    write_dirent(&mut img, d3 + 12, 2, (BLOCK - 12) as u16, b"..", 2);
    img
}

fn mount(data: Vec<u8>, sector_size: usize) -> Ext2Fs<MemoryBlockDevice> {
    let device = MemoryBlockDevice::try_new(sector_size, data).unwrap();
    Ext2Fs::try_new(device).unwrap()
}

// ---------------------------------------------------------------------------
// listing the root directory, across device sector sizes
// ---------------------------------------------------------------------------

fn do_test_list_directory(sector_size: usize) {
    let data = build_read_image();
    assert_eq!(1048576, data.len());
    let fs = mount(data, sector_size);
    let root = fs.read_root_inode().unwrap();
    let entries = fs.list_dir(root.inode()).unwrap();

    let expected_entries = [
        (2, &b"."[..], DirType::Directory),
        (2, &b".."[..], DirType::Directory),
        (11, &b"lost+found"[..], DirType::Directory),
        (12, &b"hello.txt"[..], DirType::RegularFile),
        (13, &b"some"[..], DirType::Directory),
    ];
    assert_eq!(expected_entries.len(), entries.len());
    for (inode, name, typ) in expected_entries {
        assert!(entries
            .iter()
            .find(|&entry| {
                entry.inode().unwrap().get() == inode
                    && entry.name().as_slice() == name
                    && entry.typ() == Some(typ)
            })
            .is_some());
    }
}

#[test]
fn test_list_directory() {
    do_test_list_directory(512);
}

#[test]
fn test_list_directory_tiny_device_block_size() {
    do_test_list_directory(1);
}

#[test]
fn test_list_directory_small_device_block_size() {
    do_test_list_directory(32);
}

#[test]
fn test_list_directory_large_device_block_size() {
    do_test_list_directory(32768);
}

#[test]
fn test_list_directory_huge_device_block_size() {
    do_test_list_directory(1048576);
}

// ---------------------------------------------------------------------------
// reading a file, whole and partial, across device sector sizes
// ---------------------------------------------------------------------------

fn do_test_read_file(sector_size: usize) {
    let data = build_read_image();
    assert_eq!(1048576, data.len());
    let fs = mount(data, sector_size);
    let root = fs.read_root_inode().unwrap();

    let (addr, inode) = fs
        .lookup_dir_entry(&root, &b"hello.txt".to_vec())
        .expect("lookup_dir_entry failed")
        .expect("hello.txt not found");
    assert_eq!(12, addr.get());
    let hello_txt: RegularFile = RegularFile::try_new(addr, inode).unwrap();
    assert_eq!(14, hello_txt.len());
    assert_eq!(Type::RegularFile, hello_txt.typ());

    {
        // read the whole file
        let mut hello_txt_data = vec![0xFC_u8; 20];
        let read_bytes = fs
            .read_from_file(&hello_txt, 0, &mut hello_txt_data)
            .expect("read_from_file failed");
        assert_eq!(14, read_bytes);
        assert_eq!(b"Hello, World!\n", &hello_txt_data[0..14]);
        assert_eq!(vec![0xFC_u8; 5], hello_txt_data[15..20].to_vec());
    }
    {
        // read a part of the file
        let mut hello_txt_data = vec![0_u8; 5];
        let read_bytes = fs
            .read_from_file(&hello_txt, 7, &mut hello_txt_data)
            .expect("read_from_file failed");
        assert_eq!(5, read_bytes);
        assert_eq!(b"World", &hello_txt_data[..]);
    }
}

#[test]
fn test_read_file() {
    do_test_read_file(512);
}

#[test]
fn test_read_file_tiny_device_block_size() {
    do_test_read_file(1);
}

#[test]
fn test_read_file_small_device_block_size() {
    do_test_read_file(32);
}

#[test]
fn test_read_file_large_device_block_size() {
    do_test_read_file(32768);
}

#[test]
fn test_read_file_huge_device_block_size() {
    do_test_read_file(1048576);
}

#[test]
fn test_read_past_end_and_empty_buffer() {
    let fs = mount(build_read_image(), 512);
    let root = fs.read_root_inode().unwrap();
    let (addr, inode) = fs
        .lookup_dir_entry(&root, &b"hello.txt".to_vec())
        .unwrap()
        .unwrap();
    let f = RegularFile::try_new(addr, inode).unwrap();
    let mut buf = vec![9_u8; 4];
    assert_eq!(0, fs.read_from_file(&f, 14, &mut buf).unwrap());
    assert_eq!(0, fs.read_from_file(&f, 100, &mut buf).unwrap());
    assert_eq!(vec![9_u8; 4], buf);
    let mut empty: Vec<u8> = vec![];
    assert_eq!(0, fs.read_from_file(&f, 0, &mut empty).unwrap());
}

// ---------------------------------------------------------------------------
// creating and writing files
// ---------------------------------------------------------------------------

fn test_create_and_write_file(sector_size: usize) {
    let mut fs = mount(build_empty_image(), sector_size);

    let file_name = b"my_file.txt".to_vec();
    let mut root = fs.read_root_inode().unwrap();
    let mut file = fs.create_regular_file(&mut root, &file_name).unwrap();
    assert!(fs
        .list_dir(root.inode())
        .unwrap()
        .iter()
        .find(|e| e.name().as_slice() == b"my_file.txt" && e.typ() == Some(DirType::RegularFile))
        .is_some());
    assert_eq!(file.len(), 0);

    let data = b"Hello, world!".to_vec();
    // write `data` until all direct pointers are used
    for i in 0..((1024 * 12) / data.len()) {
        assert_eq!(
            fs.write_to_file(&mut file, i * data.len(), &data).unwrap(),
            data.len()
        );
    }
}

#[test]
fn test_create_and_write_file_standard() {
    test_create_and_write_file(512);
}

#[test]
fn test_create_and_write_file_tiny() {
    test_create_and_write_file(1);
}

#[test]
fn test_create_and_write_file_small() {
    test_create_and_write_file(32);
}

#[test]
fn test_create_and_write_file_large() {
    test_create_and_write_file(32768);
}

#[test]
fn test_create_and_write_file_huge() {
    test_create_and_write_file(1048576);
}

fn test_create_files(sector_size: usize) {
    let mut fs = mount(build_empty_image(), sector_size);

    let mut root = fs.read_root_inode().unwrap();
    for i in 0..25 {
        let file_name = format!("file_{}.txt", i).into_bytes();
        let file = fs.create_regular_file(&mut root, &file_name).unwrap();
        let listing = fs.list_dir(root.inode()).unwrap();
        assert_eq!(
            1,
            listing
                .iter()
                .filter(|e| e.name().as_slice() == file_name.as_slice())
                .count()
        );
        assert_eq!(file.len(), 0);
    }
}

#[test]
fn test_create_files_standard() {
    test_create_files(512);
}

#[test]
fn test_create_files_tiny() {
    test_create_files(1);
}

#[test]
fn test_create_files_small() {
    test_create_files(32);
}

#[test]
fn test_create_files_large() {
    test_create_files(32768);
}

#[test]
fn test_create_files_huge() {
    test_create_files(1048576);
}

fn test_create_file_collision(sector_size: usize) {
    let mut fs = mount(build_empty_image(), sector_size);

    let mut root = fs.read_root_inode().unwrap();
    let file_name = b"file.txt".to_vec();
    let file = fs.create_regular_file(&mut root, &file_name).unwrap();
    assert!(fs
        .list_dir(root.inode())
        .unwrap()
        .iter()
        .find(|e| e.name().as_slice() == b"file.txt")
        .is_some());
    assert_eq!(file.len(), 0);

    let mut root = fs.read_root_inode().unwrap();
    let result = fs.create_regular_file(&mut root, &file_name);
    assert_eq!(result.unwrap_err(), Error::EntryExists);
    // the first file is intact
    let root = fs.read_root_inode().unwrap();
    assert!(fs
        .list_dir(root.inode())
        .unwrap()
        .iter()
        .find(|e| e.name().as_slice() == b"file.txt")
        .is_some());
}

#[test]
fn test_create_file_collision_standard() {
    test_create_file_collision(512);
}

#[test]
fn test_create_file_collision_tiny() {
    test_create_file_collision(1);
}

#[test]
fn test_create_file_collision_small() {
    test_create_file_collision(32);
}

#[test]
fn test_create_file_collision_large() {
    test_create_file_collision(32768);
}

#[test]
fn test_create_file_collision_huge() {
    test_create_file_collision(1048576);
}

#[test]
fn test_write_then_read_back() {
    let mut fs = mount(build_empty_image(), 512);
    let mut root = fs.read_root_inode().unwrap();
    let mut file = fs.create_regular_file(&mut root, &b"notes.txt".to_vec()).unwrap();
    let payload = b"the quick brown fox jumps over the lazy dog".to_vec();
    assert_eq!(payload.len(), fs.write_to_file(&mut file, 0, &payload).unwrap());
    assert_eq!(payload.len() as u64, file.len());

    let mut buf = vec![0_u8; payload.len()];
    assert_eq!(payload.len(), fs.read_from_file(&file, 0, &mut buf).unwrap());
    assert_eq!(payload, buf);

    // overwrite in the middle, crossing nothing
    assert_eq!(5, fs.write_to_file(&mut file, 4, &b"slow!".to_vec()).unwrap());
    let mut buf = vec![0_u8; 9];
    assert_eq!(9, fs.read_from_file(&file, 0, &mut buf).unwrap());
    assert_eq!(b"the slow!".to_vec(), buf);
}

#[test]
fn test_write_across_block_boundary() {
    let mut fs = mount(build_empty_image(), 512);
    let mut root = fs.read_root_inode().unwrap();
    let mut file = fs.create_regular_file(&mut root, &b"big.bin".to_vec()).unwrap();
    let payload: Vec<u8> = (0..3000u32).map(|i| (i % 251) as u8).collect();
    assert_eq!(3000, fs.write_to_file(&mut file, 100, &payload).unwrap());
    assert_eq!(3100, file.len());
    let mut buf = vec![0_u8; 3000];
    assert_eq!(3000, fs.read_from_file(&file, 100, &mut buf).unwrap());
    assert_eq!(payload, buf);
    // the hole before offset 100 reads as zeros
    let mut head = vec![7_u8; 100];
    assert_eq!(100, fs.read_from_file(&file, 0, &mut head).unwrap());
    assert_eq!(vec![0_u8; 100], head);
}

// ---------------------------------------------------------------------------
// the allocator: counters stay conserved, the handed-out bit is set
// ---------------------------------------------------------------------------

#[test]
fn test_allocate_block_conserves_counters() {
    let mut fs = mount(build_empty_image(), 512);
    let free_before = fs.superblock().num_unallocated_blocks;
    let group_free_before = fs.bgdt.get(0).num_unallocated_blocks();
    assert_eq!(free_before, group_free_before as u32);

    let addr = fs.allocate_block().unwrap().unwrap();
    // first free block of the empty volume
    assert_eq!(22, addr.get());
    assert_eq!(free_before - 1, fs.superblock().num_unallocated_blocks);
    // one group: the sum over groups is that group's counter
    assert_eq!(group_free_before - 1, fs.bgdt.get(0).num_unallocated_blocks());
    assert_eq!(
        fs.superblock().num_unallocated_blocks,
        fs.bgdt.get(0).num_unallocated_blocks() as u32
    );

    // the returned block's bit is set in the group's bitmap
    let bitmap_block = ext2::BlockAddress::new(fs.bgdt.get(0).block_usage_bitmap_block()).unwrap();
    let mut bitmap = vec![0_u8; 1024];
    fs.read_block(bitmap_block, &mut bitmap).unwrap();
    let bit = (addr.get() - 1) as usize;
    assert_ne!(0, bitmap[bit / 8] & (1 << (bit % 8)));

    // the counters are persisted: remount and compare
    let data = fs.block_device.data().clone();
    let fs2 = mount(data, 512);
    assert_eq!(free_before - 1, fs2.superblock().num_unallocated_blocks);
    assert_eq!(group_free_before - 1, fs2.bgdt.get(0).num_unallocated_blocks());
}

#[test]
fn test_allocate_inode_counters() {
    let mut fs = mount(build_empty_image(), 512);
    let free_before = fs.superblock().num_unallocated_inodes;
    let addr = fs.allocate_inode().unwrap().unwrap();
    // inodes 1..=10 are reserved on the empty volume
    assert_eq!(11, addr.get());
    assert_eq!(free_before - 1, fs.superblock().num_unallocated_inodes);
    assert_eq!(
        fs.superblock().num_unallocated_inodes,
        fs.bgdt.get(0).num_unallocated_inodes() as u32
    );
}

#[test]
fn test_allocate_inode_exhaustion() {
    // a volume whose inode bitmap is completely full
    let mut img = build_empty_image();
    mark_used(&mut img, block_off(4), 0, 8192);
    le32(&mut img, 1024 + 16, 0);
    le16(&mut img, 2048 + 14, 0);
    let mut fs = mount(img, 512);
    assert!(fs.allocate_inode().unwrap().is_none());
    let mut root = fs.read_root_inode().unwrap();
    let r = fs.create_regular_file(&mut root, &b"wont_fit.txt".to_vec());
    assert_eq!(Error::NoSpace, r.unwrap_err());
}

// ---------------------------------------------------------------------------
// directory blocks stay exactly tiled through insertions
// ---------------------------------------------------------------------------

#[test]
fn test_root_block_tiled_after_inserts() {
    let mut fs = mount(build_empty_image(), 512);
    let mut root = fs.read_root_inode().unwrap();
    for i in 0..10 {
        let file_name = format!("entry_{}.dat", i).into_bytes();
        fs.create_regular_file(&mut root, &file_name).unwrap();
        // decode the root directory block and check the slots tile it
        let block = ext2::BlockAddress::new(21).unwrap();
        let mut data = vec![0_u8; 1024];
        fs.read_block(block, &mut data).unwrap();
        assert!(check_dir_block(&data, true));
    }
}

// ---------------------------------------------------------------------------
// mount validation and error surface
// ---------------------------------------------------------------------------

#[test]
fn test_mount_rejects_bad_magic() {
    let mut img = build_empty_image();
    img[1024 + 56] = 0;
    img[1024 + 57] = 0;
    let device = MemoryBlockDevice::try_new(512, img).unwrap();
    match Ext2Fs::try_new(device) {
        Err(e) => assert_eq!(Error::InvalidSuperblock, e),
        Ok(_) => panic!("mount unexpectedly succeeded"),
    }
}

#[test]
fn test_mount_rejects_truncated_device() {
    let device = MemoryBlockDevice::try_new(512, vec![0_u8; 1536]).unwrap();
    match Ext2Fs::try_new(device) {
        Err(e) => assert_eq!(Error::UnableToReadSuperblock, e),
        Ok(_) => panic!("mount unexpectedly succeeded"),
    }
}

#[test]
fn test_list_dir_refuses_non_directory() {
    let fs = mount(build_read_image(), 512);
    let root = fs.read_root_inode().unwrap();
    let (_, inode) = fs
        .lookup_dir_entry(&root, &b"hello.txt".to_vec())
        .unwrap()
        .unwrap();
    assert_eq!(Error::NotDirectory, fs.list_dir(&inode).unwrap_err());
}

#[test]
fn test_read_inode_refuses_out_of_range() {
    let fs = mount(build_empty_image(), 512);
    let addr = ext2::InodeAddress::new(129).unwrap();
    assert_eq!(
        Error::InvalidInodeAddress(129),
        fs.read_inode(addr).unwrap_err()
    );
}

#[test]
fn test_lookup_missing_name() {
    let fs = mount(build_read_image(), 512);
    let root = fs.read_root_inode().unwrap();
    assert!(fs
        .lookup_dir_entry(&root, &b"no_such_file".to_vec())
        .unwrap()
        .is_none());
}

#[test]
fn test_root_typed_wrapper_refuses_file() {
    let fs = mount(build_read_image(), 512);
    let root = fs.read_root_inode().unwrap();
    let (addr, inode) = fs
        .lookup_dir_entry(&root, &b"hello.txt".to_vec())
        .unwrap()
        .unwrap();
    assert!(ext2::Directory::try_new(addr, inode).is_err());
}

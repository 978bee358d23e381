use ext2::device::BlockDevice;
use ext2::device::MemoryBlockDevice;

#[test]
fn test_read_at_short() {
    let data = vec![1_u8, 1, 2, 2, 3, 3, 4, 4, 5, 5, 6, 6, 7, 7, 8, 8];
    let device = MemoryBlockDevice::try_new(2, data).unwrap();

    let mut buf = vec![0_u8; 2];
    device.read_at(1, &mut buf).unwrap();
    assert_eq!(vec![1, 2], buf);

    device.read_at(2, &mut buf).unwrap();
    assert_eq!(vec![2, 2], buf);

    device.read_at(5, &mut buf).unwrap();
    assert_eq!(vec![3, 4], buf);

    device.read_at(14, &mut buf).unwrap();
    assert_eq!(vec![8, 8], buf);

    let mut buf = vec![0_u8; 1];
    device.read_at(15, &mut buf).unwrap();
    assert_eq!(vec![8], buf);
}

#[test]
fn test_read_at() {
    let data = vec![1_u8, 1, 2, 2, 3, 3, 4, 4, 5, 5, 6, 6, 7, 7, 8, 8];
    let device = MemoryBlockDevice::try_new(2, data).unwrap();

    let mut buf = vec![0_u8; 8];
    device.read_at(3, &mut buf).unwrap();
    assert_eq!(vec![2, 3, 3, 4, 4, 5, 5, 6], buf);
}

#[test]
fn test_read_at_zero_sized() {
    let data = vec![1_u8, 1, 2, 2, 3, 3, 4, 4, 5, 5, 6, 6, 7, 7, 8, 8];
    let device = MemoryBlockDevice::try_new(2, data).unwrap();

    let mut buf = vec![0_u8; 0];
    device.read_at(3, &mut buf).unwrap();
    let expected: Vec<u8> = vec![];
    assert_eq!(expected, buf);
}

#[test]
fn test_read_unaligned() {
    let data = vec![1_u8, 2, 3, 4, 5, 6, 7, 8, 9, 10, 11, 12];
    let device = MemoryBlockDevice::try_new(4, data).unwrap();

    let mut buf = vec![0_u8; 10];
    device.read_at(0, &mut buf).unwrap();
    let expected = vec![1_u8, 2, 3, 4, 5, 6, 7, 8, 9, 10];
    assert_eq!(expected, buf);
}

#[test]
fn test_write_at() {
    let data = vec![0xFF_u8; 16];
    let mut device = MemoryBlockDevice::try_new(4, data).unwrap();

    device.write_at(0, &vec![1, 2, 3, 4, 5, 6, 7, 8]).unwrap();
    assert_eq!(
        &vec![1, 2, 3, 4, 5, 6, 7, 8, 0xFF, 0xFF, 0xFF, 0xFF, 0xFF, 0xFF, 0xFF, 0xFF],
        device.data()
    );
}

#[test]
fn test_write_at_unaligned() {
    let data = vec![0xFF_u8; 16];
    let mut device = MemoryBlockDevice::try_new(4, data).unwrap();

    device.write_at(1, &vec![1, 2, 3, 4, 5, 6, 7, 8]).unwrap();
    assert_eq!(
        &vec![0xFF, 1, 2, 3, 4, 5, 6, 7, 8, 0xFF, 0xFF, 0xFF, 0xFF, 0xFF, 0xFF, 0xFF],
        device.data()
    );
}

#[test]
fn test_write_at_aligned_short() {
    let data = vec![0xFF_u8; 16];
    let mut device = MemoryBlockDevice::try_new(4, data).unwrap();

    device.write_at(0, &vec![1, 2]).unwrap();
    assert_eq!(
        &vec![1, 2, 0xFF, 0xFF, 0xFF, 0xFF, 0xFF, 0xFF, 0xFF, 0xFF, 0xFF, 0xFF, 0xFF, 0xFF, 0xFF, 0xFF],
        device.data()
    );
    device.write_at(0, &vec![1, 2, 3]).unwrap();
    assert_eq!(
        &vec![1, 2, 3, 0xFF, 0xFF, 0xFF, 0xFF, 0xFF, 0xFF, 0xFF, 0xFF, 0xFF, 0xFF, 0xFF, 0xFF, 0xFF],
        device.data()
    );
}

#[test]
fn test_write_at_unaligned_short() {
    let data = vec![0xFF_u8; 16];
    let mut device = MemoryBlockDevice::try_new(4, data).unwrap();

    device.write_at(1, &vec![1, 2]).unwrap();
    assert_eq!(
        &vec![0xFF, 1, 2, 0xFF, 0xFF, 0xFF, 0xFF, 0xFF, 0xFF, 0xFF, 0xFF, 0xFF, 0xFF, 0xFF, 0xFF, 0xFF],
        device.data()
    );
    device.write_at(1, &vec![1, 2, 3]).unwrap();
    assert_eq!(
        &vec![0xFF, 1, 2, 3, 0xFF, 0xFF, 0xFF, 0xFF, 0xFF, 0xFF, 0xFF, 0xFF, 0xFF, 0xFF, 0xFF, 0xFF],
        device.data()
    );
}

#[test]
fn test_write_at_aligned_one_sector() {
    let data = vec![0xFF_u8; 16];
    let mut device = MemoryBlockDevice::try_new(4, data).unwrap();

    device.write_at(0, &vec![1, 2, 3, 4]).unwrap();
    assert_eq!(
        &vec![1, 2, 3, 4, 0xFF, 0xFF, 0xFF, 0xFF, 0xFF, 0xFF, 0xFF, 0xFF, 0xFF, 0xFF, 0xFF, 0xFF],
        device.data()
    );
}

#[test]
fn test_try_new_refuses_bad_geometry() {
    assert!(MemoryBlockDevice::try_new(0, vec![0_u8; 16]).is_none());
    assert!(MemoryBlockDevice::try_new(3, vec![0_u8; 16]).is_none());
    assert!(MemoryBlockDevice::try_new(4, vec![0_u8; 16]).is_some());
}

#[test]
fn test_read_at_out_of_bounds() {
    let device = MemoryBlockDevice::try_new(4, vec![0_u8; 16]).unwrap();
    let mut buf = vec![0_u8; 4];
    assert!(device.read_at(16, &mut buf).is_err());
    assert!(device.read_at(13, &mut buf).is_err());
}

//! An ext2 filesystem driver over a generic byte-addressable block device.
//!
//! The driver decodes and encodes the on-disk structures (superblock,
//! block-group descriptor table, inodes, directory entries, bitmaps), maps
//! logical file blocks to physical blocks through the indirect-pointer
//! trees, and manages space through the per-group usage bitmaps. Every
//! operation's contract is stated against the device's byte contents, so
//! the results are independent of the device's sector geometry.

use vstd::prelude::*;

pub mod address;
pub mod allocator;
pub mod block_group;
pub mod bytes;
pub mod create;
pub mod device;
pub mod dir;
pub mod error;
pub mod inode;
pub mod read;
pub mod superblock;
pub mod write;

pub use crate::address::BlockAddress;
pub use crate::address::InodeAddress;
pub use crate::device::BlockDevice;
pub use crate::device::MemoryBlockDevice;
pub use crate::dir::DirEntry;
pub use crate::dir::DirType;
pub use crate::error::Error;
pub use crate::inode::Directory;
pub use crate::inode::Inode;
pub use crate::inode::InodeRawArray;
pub use crate::inode::RegularFile;
pub use crate::inode::Type;
pub use crate::superblock::Superblock;

use crate::block_group::spec_decode_bgd;
use crate::block_group::BlockGroupDescriptor;
use crate::block_group::BlockGroupDescriptorTable;
use crate::block_group::BGD_SIZE;
use crate::bytes::zero_vec;
use crate::inode::spec_decode_inode;
use crate::superblock::spec_decode_superblock;

verus! {

/// The root directory's inode address.
pub const ROOT_DIR_INODE_ADDRESS: u32 = 2;

/// The superblock's byte offset and length on disk.
pub const SUPERBLOCK_OFFSET: usize = 1024;

/// The number of block groups: `ceil(num_blocks / blocks_per_group)`.
pub open spec fn spec_num_groups(sb: Superblock) -> int {
    (sb.num_blocks as int + sb.blocks_per_group as int - 1) / (sb.blocks_per_group as int)
}

/// The byte offset of the block-group descriptor table: the block right
/// after the superblock.
pub open spec fn spec_bgdt_offset(sb: Superblock) -> int {
    if sb.spec_block_size() == 1024 {
        2048
    } else {
        sb.spec_block_size() as int
    }
}

/// The byte offset of block `b` (1-based): `1024 + (b - 1) * block_size`.
pub open spec fn spec_block_byte_offset(sb: Superblock, b: u32) -> int {
    1024 + (b as int - 1) * (sb.spec_block_size() as int)
}

/// The byte offset of the 128-byte record of inode `a` (1-based).
pub open spec fn spec_inode_byte_offset(
    sb: Superblock,
    bgdt: Seq<BlockGroupDescriptor>,
    a: u32,
) -> int {
    let group = (a as int - 1) / (sb.inodes_per_group as int);
    let index = (a as int - 1) % (sb.inodes_per_group as int);
    spec_block_byte_offset(sb, bgdt[group].inode_table_starting_block) + index * (
    sb.inode_size as int)
}

/// An ext2 filesystem over a block device: the device together with the
/// in-memory copies of the superblock and the descriptor table, which are
/// the only cached state.
pub struct Ext2Fs<T> {
    pub block_device: T,
    pub superblock: Superblock,
    pub bgdt: BlockGroupDescriptorTable,
}

impl<T: BlockDevice> Ext2Fs<T> {
    /// The device's byte contents.
    pub open spec fn contents(&self) -> Seq<u8> {
        self.block_device.contents()
    }

    /// A mounted filesystem is well formed when the device is, the cached
    /// superblock is structurally valid, the descriptor table has one entry
    /// per group and fits in one block, and no descriptor points at block 0.
    pub open spec fn wf(&self) -> bool {
        &&& self.block_device.wf()
        &&& self.superblock.wf()
        &&& self.bgdt@.len() == spec_num_groups(self.superblock)
        &&& spec_num_groups(self.superblock) * 32 <= self.superblock.spec_block_size() as int
        &&& forall|g: int|
            0 <= g < self.bgdt@.len() ==> {
                let d = #[trigger] self.bgdt@[g];
                &&& d.block_usage_bitmap_block != 0
                &&& d.inode_usage_bitmap_block != 0
                &&& d.inode_table_starting_block != 0
            }
    }

    /// Mounts the filesystem: reads and validates the superblock at byte
    /// 1024, then reads the descriptor table from the following block.
    pub fn try_new(block_device: T) -> (r: Result<Self, Error>)
        requires
            block_device.wf(),
        ensures
            r matches Ok(fs) ==> {
                &&& fs.wf()
                &&& fs.block_device == block_device
                &&& Some(fs.superblock) == spec_decode_superblock(
                    block_device.contents().subrange(1024, 2048),
                )
                &&& fs.bgdt@.len() == spec_num_groups(fs.superblock)
                &&& forall|g: int|
                    0 <= g < fs.bgdt@.len() ==> fs.bgdt@[g] == spec_decode_bgd(
                        block_device.contents(),
                        spec_bgdt_offset(fs.superblock) + 32 * g,
                    )
            },
            r matches Err(e) ==> (e == Error::UnableToReadSuperblock || e
                == Error::InvalidSuperblock || e == Error::UnableToReadBlockGroupDescriptorTable),
            block_device.contents().len() < 2048 ==> r is Err,
            r == Err::<Self, Error>(Error::InvalidSuperblock) ==> match spec_decode_superblock(
                block_device.contents().subrange(1024, 2048),
            ) {
                None => true,
                Some(sb) => spec_num_groups(sb) * 32 > sb.spec_block_size() as int,
            },
    {
        let mut superblock_data = zero_vec(1024);
        let read = block_device.read_at(SUPERBLOCK_OFFSET, &mut superblock_data);
        if read.is_err() {
            return Err(Error::UnableToReadSuperblock);
        }
        let superblock = match Superblock::decode(&superblock_data) {
            Some(sb) => sb,
            None => {
                return Err(Error::InvalidSuperblock);
            },
        };
        let block_size = superblock.block_size();

        let num_groups_64 = ((superblock.num_blocks as u64) + (superblock.blocks_per_group as u64)
            - 1) / (superblock.blocks_per_group as u64);
        if num_groups_64 * 32 > block_size as u64 {
            return Err(Error::InvalidSuperblock);
        }
        let num_groups = num_groups_64 as usize;
        assert(num_groups as int == spec_num_groups(superblock));

        let bgdt_offset: usize = if block_size == 1024 {
            2048
        } else {
            block_size as usize
        };
        assert(bgdt_offset as int == spec_bgdt_offset(superblock));

        let mut bgdt_data = zero_vec(block_size as usize);
        let read = block_device.read_at(bgdt_offset, &mut bgdt_data);
        if read.is_err() {
            return Err(Error::UnableToReadBlockGroupDescriptorTable);
        }
        proof {
            assert(bgdt_data@ == block_device.contents().subrange(
                bgdt_offset as int,
                bgdt_offset + block_size as int,
            ));
        }

        let mut bgdt = BlockGroupDescriptorTable::new();
        let mut g: usize = 0;
        while g < num_groups
            invariant
                g <= num_groups,
                num_groups * 32 <= block_size as int,
                bgdt_data@.len() == block_size as int,
                bgdt_data@ == block_device.contents().subrange(
                    bgdt_offset as int,
                    bgdt_offset + block_size as int,
                ),
                bgdt_offset + block_size as int <= block_device.contents().len(),
                bgdt@.len() == g,
                forall|i: int|
                    0 <= i < g ==> bgdt@[i] == spec_decode_bgd(
                        block_device.contents(),
                        bgdt_offset + 32 * i,
                    ),
                forall|i: int|
                    0 <= i < g ==> {
                        let d = #[trigger] bgdt@[i];
                        &&& d.block_usage_bitmap_block != 0
                        &&& d.inode_usage_bitmap_block != 0
                        &&& d.inode_table_starting_block != 0
                    },
            decreases num_groups - g,
        {
            let bgd = BlockGroupDescriptor::decode(&bgdt_data, g * BGD_SIZE);
            if bgd.block_usage_bitmap_block == 0 || bgd.inode_usage_bitmap_block == 0
                || bgd.inode_table_starting_block == 0 {
                return Err(Error::UnableToReadBlockGroupDescriptorTable);
            }
            proof {
                lemma_decode_bgd_of_subrange(
                    block_device.contents(),
                    bgdt_offset as int,
                    bgdt_offset + block_size as int,
                    32 * g,
                );
            }
            bgdt.push(bgd);
            g = g + 1;
        }

        Ok(Ext2Fs { block_device, superblock, bgdt })
    }

    /// The byte offset where the descriptor table lives.
    pub(crate) fn bgdt_offset(&self) -> (r: usize)
        requires
            self.wf(),
        ensures
            r as int == spec_bgdt_offset(self.superblock),
    {
        let block_size = self.superblock.block_size();
        if block_size == 1024 {
            2048
        } else {
            block_size as usize
        }
    }

    pub fn superblock(&self) -> (r: &Superblock)
        ensures
            *r == self.superblock,
    {
        &self.superblock
    }

    /// Reads the root directory (inode 2); an inode 2 of any other type
    /// is refused with `NotDirectory`.
    pub fn read_root_inode(&self) -> (r: Result<Directory, Error>)
        requires
            self.wf(),
        ensures
            r == Err::<Directory, Error>(Error::NotDirectory) ==> crate::inode::spec_type_of(
                spec_decode_inode(
                    self.contents().subrange(
                        spec_inode_byte_offset(self.superblock, self.bgdt@, ROOT_DIR_INODE_ADDRESS),
                        spec_inode_byte_offset(self.superblock, self.bgdt@, ROOT_DIR_INODE_ADDRESS)
                            + 128,
                    ),
                ).type_and_perm,
            ) != Type::Directory,
            r matches Ok(d) ==> {
                &&& d.wf()
                &&& d.spec_address().spec_get() == ROOT_DIR_INODE_ADDRESS
                &&& d.spec_inode()@ == spec_decode_inode(
                    self.contents().subrange(
                        spec_inode_byte_offset(
                            self.superblock,
                            self.bgdt@,
                            ROOT_DIR_INODE_ADDRESS,
                        ),
                        spec_inode_byte_offset(self.superblock, self.bgdt@, ROOT_DIR_INODE_ADDRESS)
                            + 128,
                    ),
                )
            },
    {
        let root = match InodeAddress::new(ROOT_DIR_INODE_ADDRESS) {
            Some(a) => a,
            None => {
                proof {
                    assert(false);
                }
                return Err(Error::InvalidInodeAddress(ROOT_DIR_INODE_ADDRESS));
            },
        };
        let (addr, inode) = self.read_inode(root)?;
        match Directory::try_new(addr, inode) {
            Ok(d) => Ok(d),
            Err(_) => Err(Error::NotDirectory),
        }
    }

    /// Reads the 128-byte record of inode `addr` from the inode table of
    /// its group.
    pub fn read_inode(&self, addr: InodeAddress) -> (r: Result<(InodeAddress, Inode), Error>)
        requires
            self.wf(),
        ensures
            r matches Ok((a, ino)) ==> {
                &&& a == addr
                &&& ino.wf()
                &&& ino@ == spec_decode_inode(
                    self.contents().subrange(
                        spec_inode_byte_offset(self.superblock, self.bgdt@, addr.spec_get()),
                        spec_inode_byte_offset(self.superblock, self.bgdt@, addr.spec_get()) + 128,
                    ),
                )
            },
            r matches Err(e) ==> (e matches Error::InvalidInodeAddress(_) || e
                == Error::DeviceRead),
            ({
                let a = addr.spec_get();
                let out_of_range = a > self.superblock.num_inodes || (a - 1) as int / (
                self.superblock.inodes_per_group as int) >= self.bgdt@.len();
                r == Err::<(InodeAddress, Inode), Error>(Error::InvalidInodeAddress(a))
                    <==> out_of_range
            }),
    {
        let a = addr.get();
        let inodes_per_group = self.superblock.inodes_per_group;
        let block_group_index = ((a - 1) / inodes_per_group) as usize;
        if a > self.superblock.num_inodes || block_group_index >= self.bgdt.len() {
            return Err(Error::InvalidInodeAddress(a));
        }
        let block_group = self.bgdt.get(block_group_index);
        let itable_start_block = block_group.inode_table_starting_block;
        assert(itable_start_block != 0);

        let index = (a - 1) % inodes_per_group;
        let inode_size = self.superblock.inode_size;
        let offset64 = inode_offset_u64(
            itable_start_block,
            self.superblock.block_size(),
            index,
            inode_size,
        );
        let offset = match offset_to_usize(offset64) {
            Some(o) => o,
            None => {
                return Err(Error::DeviceRead);
            },
        };

        if offset > usize::MAX - 128 {
            return Err(Error::DeviceRead);
        }
        let mut inode_buffer = zero_vec(128);
        let read = self.block_device.read_at(offset, &mut inode_buffer);
        if read.is_err() {
            return Err(Error::DeviceRead);
        }
        let raw = match InodeRawArray::new(inode_buffer) {
            Some(raw) => raw,
            None => {
                proof {
                    assert(false);
                }
                return Err(Error::DeviceRead);
            },
        };
        let inode = Inode::decode(&raw);
        Ok((addr, inode))
    }

    /// Writes the 128-byte record of inode `addr` back to the inode table,
    /// leaving the record's trailing bytes and everything else unchanged.
    pub fn write_inode(&mut self, addr: InodeAddress, inode: &Inode) -> (r: Result<(), Error>)
        requires
            old(self).wf(),
            inode.wf(),
        ensures
            final(self).wf(),
            final(self).superblock == old(self).superblock,
            final(self).bgdt@ == old(self).bgdt@,
            final(self).contents().len() == old(self).contents().len(),
            final(self).block_device.spec_sector_size() == old(self).block_device.spec_sector_size(),
            r matches Ok(_) ==> {
                let off = spec_inode_byte_offset(old(self).superblock, old(self).bgdt@, addr.spec_get());
                &&& spec_decode_inode(final(self).contents().subrange(off, off + 128)) == inode@
                &&& forall|j: int|
                    0 <= j < old(self).contents().len() && !(off <= j < off + 128) ==> final(self).contents()[j] == old(self).contents()[j]
                &&& off + 128 <= old(self).contents().len()
            },
            r matches Err(e) ==> (e matches Error::InvalidInodeAddress(_) || e
                == Error::DeviceWrite),
            ({
                let a = addr.spec_get();
                let out_of_range = a > old(self).superblock.num_inodes || (a - 1) as int / (
                old(self).superblock.inodes_per_group as int) >= old(self).bgdt@.len();
                r == Err::<(), Error>(Error::InvalidInodeAddress(a)) <==> out_of_range
            }),
    {
        let a = addr.get();
        let inodes_per_group = self.superblock.inodes_per_group;
        let block_group_index = ((a - 1) / inodes_per_group) as usize;
        if a > self.superblock.num_inodes || block_group_index >= self.bgdt.len() {
            return Err(Error::InvalidInodeAddress(a));
        }
        let block_group = self.bgdt.get(block_group_index);
        let itable_start_block = block_group.inode_table_starting_block;
        assert(itable_start_block != 0);

        let index = (a - 1) % inodes_per_group;
        let inode_size = self.superblock.inode_size;
        let offset64 = inode_offset_u64(
            itable_start_block,
            self.superblock.block_size(),
            index,
            inode_size,
        );
        let offset = match offset_to_usize(offset64) {
            Some(o) => o,
            None => {
                return Err(Error::DeviceWrite);
            },
        };

        if offset > usize::MAX - 128 {
            return Err(Error::DeviceWrite);
        }
        let raw = inode.encode();
        let written = self.block_device.write_at(offset, raw.as_slice());
        match written {
            Ok(_) => {
                proof {
                    crate::bytes::lemma_splice_bytes_len(
                        old(self).contents(),
                        offset as int,
                        raw@,
                    );
                    assert(final(self).contents().subrange(offset as int, offset + 128) =~= raw@);
                }
                Ok(())
            },
            Err(_) => Err(Error::DeviceWrite),
        }
    }

    /// Reads `buf.len()` bytes from the start of block `addr`.
    pub fn read_block(&self, addr: BlockAddress, buf: &mut Vec<u8>) -> (r: Result<usize, Error>)
        requires
            self.wf(),
        ensures
            final(buf)@.len() == old(buf)@.len(),
            r matches Ok(n) ==> {
                let off = spec_block_byte_offset(self.superblock, addr.spec_get());
                &&& n == old(buf)@.len()
                &&& old(buf)@.len() > 0 ==> {
                    &&& off + old(buf)@.len() <= self.contents().len()
                    &&& final(buf)@ == self.contents().subrange(off, off + old(buf)@.len())
                }
            },
            r matches Err(e) ==> e == Error::DeviceRead,
            old(buf)@.len() == 0 ==> r is Ok,
    {
        let buf_len = buf.len();
        if buf_len == 0 {
            return Ok(0);
        }
        let offset64 = self.resolve_block_offset(addr);
        let offset = match offset_to_usize(offset64) {
            Some(o) => o,
            None => {
                return Err(Error::DeviceRead);
            },
        };
        if offset > usize::MAX - buf_len {
            return Err(Error::DeviceRead);
        }
        match self.block_device.read_at(offset, buf) {
            Ok(n) => Ok(n),
            Err(_) => Err(Error::DeviceRead),
        }
    }

    /// Writes `buf` over the start of block `addr`.
    pub fn write_block(&mut self, addr: BlockAddress, buf: &Vec<u8>) -> (r: Result<usize, Error>)
        requires
            old(self).wf(),
        ensures
            final(self).wf(),
            final(self).superblock == old(self).superblock,
            final(self).bgdt@ == old(self).bgdt@,
            final(self).contents().len() == old(self).contents().len(),
            final(self).block_device.spec_sector_size() == old(self).block_device.spec_sector_size(),
            r matches Ok(n) ==> {
                let off = spec_block_byte_offset(old(self).superblock, addr.spec_get());
                &&& n == buf@.len()
                &&& buf@.len() > 0 ==> {
                    &&& off + buf@.len() <= old(self).contents().len()
                    &&& final(self).contents() == crate::bytes::splice_bytes(
                        old(self).contents(),
                        off,
                        buf@,
                    )
                }
                &&& buf@.len() == 0 ==> final(self).contents() == old(self).contents()
            },
            r matches Err(e) ==> e == Error::DeviceWrite,
            buf@.len() == 0 ==> r is Ok,
    {
        let buf_len = buf.len();
        if buf_len == 0 {
            return Ok(0);
        }
        let offset64 = self.resolve_block_offset(addr);
        let offset = match offset_to_usize(offset64) {
            Some(o) => o,
            None => {
                return Err(Error::DeviceWrite);
            },
        };
        if offset > usize::MAX - buf_len {
            return Err(Error::DeviceWrite);
        }
        match self.block_device.write_at(offset, buf) {
            Ok(n) => Ok(n),
            Err(_) => Err(Error::DeviceWrite),
        }
    }

    /// The byte offset where block `addr` starts.
    pub(crate) fn resolve_block_offset(&self, addr: BlockAddress) -> (r: u64)
        requires
            self.wf(),
        ensures
            r as int == spec_block_byte_offset(self.superblock, addr.spec_get()),
            r >= 1024,
    {
        let b = addr.get();
        let bs = self.superblock.block_size();
        proof {
            vstd::arithmetic::mul::lemma_mul_upper_bound(
                b as int - 1,
                0xFFFF_FFFF,
                bs as int,
                0x10_0000,
            );
            vstd::arithmetic::mul::lemma_mul_nonnegative(b as int - 1, bs as int);
        }
        1024u64 + ((b as u64) - 1) * (bs as u64)
    }
}

/// The byte offset of an inode record: the group's inode table start plus
/// the inode's index within the group times the record stride.
pub(crate) fn inode_offset_u64(itable_block: u32, block_size: u32, index: u32, inode_size: u16) -> (r:
    u64)
    requires
        itable_block >= 1,
        1024 <= block_size <= 0x10_0000,
    ensures
        r as int == 1024 + (itable_block as int - 1) * (block_size as int) + (index as int) * (
        inode_size as int),
{
    proof {
        vstd::arithmetic::mul::lemma_mul_upper_bound(
            itable_block as int - 1,
            0xFFFF_FFFF,
            block_size as int,
            0x10_0000,
        );
        vstd::arithmetic::mul::lemma_mul_nonnegative(itable_block as int - 1, block_size as int);
        vstd::arithmetic::mul::lemma_mul_upper_bound(
            index as int,
            0xFFFF_FFFF,
            inode_size as int,
            0xFFFF,
        );
        vstd::arithmetic::mul::lemma_mul_nonnegative(index as int, inode_size as int);
    }
    1024u64 + ((itable_block as u64) - 1) * (block_size as u64) + (index as u64) * (inode_size
        as u64)
}

/// Narrows a 64-bit byte offset to `usize`, refusing one that the machine
/// cannot address.
pub(crate) fn offset_to_usize(off: u64) -> (r: Option<usize>)
    ensures
        r matches Some(u) ==> u as int == off as int,
        r is None <==> off > usize::MAX as u64,
{
    if off <= usize::MAX as u64 {
        Some(off as usize)
    } else {
        None
    }
}

/// Decoding a descriptor inside a subrange equals decoding it in the whole
/// sequence at the shifted offset.
pub proof fn lemma_decode_bgd_of_subrange(s: Seq<u8>, a: int, b: int, off: int)
    requires
        0 <= a,
        0 <= off,
        a + off + 32 <= b,
        b <= s.len(),
    ensures
        spec_decode_bgd(s.subrange(a, b), off) == spec_decode_bgd(s, a + off),
{
}

} // verus!

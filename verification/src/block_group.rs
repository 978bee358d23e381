//! Block-group descriptors and the in-memory descriptor table.
//!
//! Each group of `blocks_per_group` blocks has one 32-byte descriptor in
//! the table that follows the superblock; it names the group's usage
//! bitmaps and inode table and carries the group's free counters.

use vstd::prelude::*;

use crate::bytes::le16_at;
use crate::bytes::le32_at;
use crate::bytes::read_u16_le;
use crate::bytes::read_u32_le;
use crate::bytes::write_u16_le;
use crate::bytes::write_u32_le;

verus! {

/// The size of one descriptor record on disk, in bytes.
pub const BGD_SIZE: usize = 32;

#[derive(Debug, Copy, Clone, PartialEq, Eq, Structural)]
pub struct BlockGroupDescriptor {
    pub block_usage_bitmap_block: u32,
    pub inode_usage_bitmap_block: u32,
    pub inode_table_starting_block: u32,
    pub num_unallocated_blocks: u16,
    pub num_unallocated_inodes: u16,
    pub num_directories: u16,
}

/// The descriptor fields as laid out at byte offset `off` of `s`.
pub open spec fn spec_decode_bgd(s: Seq<u8>, off: int) -> BlockGroupDescriptor {
    BlockGroupDescriptor {
        block_usage_bitmap_block: le32_at(s, off),
        inode_usage_bitmap_block: le32_at(s, off + 4),
        inode_table_starting_block: le32_at(s, off + 8),
        num_unallocated_blocks: le16_at(s, off + 12),
        num_unallocated_inodes: le16_at(s, off + 14),
        num_directories: le16_at(s, off + 16),
    }
}

impl BlockGroupDescriptor {
    pub fn block_usage_bitmap_block(&self) -> (r: u32)
        ensures
            r == self.block_usage_bitmap_block,
    {
        self.block_usage_bitmap_block
    }

    pub fn inode_usage_bitmap_block(&self) -> (r: u32)
        ensures
            r == self.inode_usage_bitmap_block,
    {
        self.inode_usage_bitmap_block
    }

    pub fn inode_table_starting_block(&self) -> (r: u32)
        ensures
            r == self.inode_table_starting_block,
    {
        self.inode_table_starting_block
    }

    pub fn num_unallocated_blocks(&self) -> (r: u16)
        ensures
            r == self.num_unallocated_blocks,
    {
        self.num_unallocated_blocks
    }

    pub fn num_unallocated_inodes(&self) -> (r: u16)
        ensures
            r == self.num_unallocated_inodes,
    {
        self.num_unallocated_inodes
    }

    pub fn num_directories(&self) -> (r: u16)
        ensures
            r == self.num_directories,
    {
        self.num_directories
    }

    /// Parses the 32-byte descriptor record at byte offset `off` of `data`.
    pub fn decode(data: &Vec<u8>, off: usize) -> (r: BlockGroupDescriptor)
        requires
            off + BGD_SIZE <= data@.len(),
        ensures
            r == spec_decode_bgd(data@, off as int),
    {
        let n = data.len();
        assert(off + BGD_SIZE <= n);
        BlockGroupDescriptor {
            block_usage_bitmap_block: read_u32_le(data, off),
            inode_usage_bitmap_block: read_u32_le(data, off + 4),
            inode_table_starting_block: read_u32_le(data, off + 8),
            num_unallocated_blocks: read_u16_le(data, off + 12),
            num_unallocated_inodes: read_u16_le(data, off + 14),
            num_directories: read_u16_le(data, off + 16),
        }
    }

    /// Writes this descriptor's fields over the record at byte offset `off`
    /// of `data`, leaving the record's reserved tail and all other bytes
    /// unchanged. Decoding the written record gives back this descriptor.
    pub fn encode_into(&self, data: &mut Vec<u8>, off: usize)
        requires
            off + BGD_SIZE <= old(data)@.len(),
        ensures
            final(data)@.len() == old(data)@.len(),
            spec_decode_bgd(final(data)@, off as int) == *self,
            forall|j: int|
                0 <= j < old(data)@.len() && !(off <= j < off + 18) ==> final(data)@[j] == old(
                    data,
                )@[j],
    {
        let n = data.len();
        assert(off + BGD_SIZE <= n);
        write_u32_le(data, off, self.block_usage_bitmap_block);
        write_u32_le(data, off + 4, self.inode_usage_bitmap_block);
        write_u32_le(data, off + 8, self.inode_table_starting_block);
        write_u16_le(data, off + 12, self.num_unallocated_blocks);
        write_u16_le(data, off + 14, self.num_unallocated_inodes);
        write_u16_le(data, off + 16, self.num_directories);
    }
}

/// The in-memory copy of the block-group descriptor table.
#[derive(Debug)]
pub struct BlockGroupDescriptorTable {
    entries: Vec<BlockGroupDescriptor>,
}

impl View for BlockGroupDescriptorTable {
    type V = Seq<BlockGroupDescriptor>;

    closed spec fn view(&self) -> Seq<BlockGroupDescriptor> {
        self.entries@
    }
}

impl BlockGroupDescriptorTable {
    pub fn new() -> (r: Self)
        ensures
            r@.len() == 0,
    {
        BlockGroupDescriptorTable { entries: Vec::new() }
    }

    pub fn len(&self) -> (r: usize)
        ensures
            r == self@.len(),
    {
        self.entries.len()
    }

    pub fn push(&mut self, d: BlockGroupDescriptor)
        ensures
            final(self)@ == old(self)@.push(d),
    {
        self.entries.push(d);
    }

    pub fn get(&self, i: usize) -> (r: &BlockGroupDescriptor)
        requires
            i < self@.len(),
        ensures
            *r == self@[i as int],
    {
        &self.entries[i]
    }

    pub fn set(&mut self, i: usize, d: BlockGroupDescriptor)
        requires
            i < old(self)@.len(),
        ensures
            final(self)@ == old(self)@.update(i as int, d),
    {
        self.entries.set(i, d);
    }
}

} // verus!

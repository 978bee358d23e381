//! The superblock: the volume's global parameters.
//!
//! It is stored at byte offset 1024, occupies 1024 bytes, and is validated
//! by its magic number. Only the fields this core reads are decoded; the
//! encoder writes them back at their standard offsets into an otherwise
//! zeroed record.

use vstd::prelude::*;

use crate::bytes::le16_at;
use crate::bytes::le32_at;
use crate::bytes::read_u16_le;
use crate::bytes::read_u32_le;
use crate::bytes::write_u16_le;
use crate::bytes::write_u32_le;
use crate::bytes::zero_vec;

verus! {

/// The superblock magic number.
pub const EXT2_MAGIC: u16 = 0xEF53;

/// The required-features bit this core honors: directory entries carry a
/// type indicator in place of the high byte of the name length.
pub const FEATURE_DIRECTORY_ENTRIES_HAVE_TYPE: u32 = 0x2;

#[derive(Debug, Copy, Clone, PartialEq, Eq, Structural)]
pub struct Superblock {
    pub num_inodes: u32,
    pub num_blocks: u32,
    pub num_reserved_blocks: u32,
    pub num_unallocated_blocks: u32,
    pub num_unallocated_inodes: u32,
    pub log_block_size: u32,
    pub blocks_per_group: u32,
    pub inodes_per_group: u32,
    pub magic: u16,
    pub inode_size: u16,
    pub required_features: u32,
}

/// The superblock fields as laid out at their standard byte offsets.
pub open spec fn spec_decode_superblock_fields(s: Seq<u8>) -> Superblock {
    Superblock {
        num_inodes: le32_at(s, 0),
        num_blocks: le32_at(s, 4),
        num_reserved_blocks: le32_at(s, 8),
        num_unallocated_blocks: le32_at(s, 12),
        num_unallocated_inodes: le32_at(s, 16),
        log_block_size: le32_at(s, 24),
        blocks_per_group: le32_at(s, 32),
        inodes_per_group: le32_at(s, 40),
        magic: le16_at(s, 56),
        inode_size: le16_at(s, 88),
        required_features: le32_at(s, 96),
    }
}

/// Decoding a 1024-byte superblock record: the fields parse at their
/// offsets, and the result is accepted only if it is structurally valid.
pub open spec fn spec_decode_superblock(s: Seq<u8>) -> Option<Superblock> {
    let sb = spec_decode_superblock_fields(s);
    if s.len() == 1024 && sb.wf() {
        Some(sb)
    } else {
        None
    }
}

impl Superblock {
    /// Structural validity: the magic matches, the block size is between
    /// 1 KiB and 1 MiB, the group shapes are non-degenerate, and the inode
    /// record size is at least the 128 bytes this core reads.
    pub open spec fn wf(&self) -> bool {
        &&& self.magic == EXT2_MAGIC
        &&& self.log_block_size <= 10
        &&& self.blocks_per_group > 0
        &&& self.inodes_per_group > 0
        &&& self.inode_size >= 128
        &&& self.num_blocks > 0
    }

    /// The block size in bytes: `1024 << log_block_size`.
    pub open spec fn spec_block_size(&self) -> u32 {
        1024u32 << self.log_block_size
    }

    pub fn block_size(&self) -> (r: u32)
        requires
            self.wf(),
        ensures
            r == self.spec_block_size(),
            1024 <= r <= 0x10_0000,
            r % 4 == 0,
            r % 1024 == 0,
    {
        proof {
            lemma_block_size_bounds(self.log_block_size);
        }
        1024u32 << self.log_block_size
    }

    /// Whether directory entries carry a type indicator.
    pub open spec fn spec_has_dir_entry_types(&self) -> bool {
        self.required_features & FEATURE_DIRECTORY_ENTRIES_HAVE_TYPE != 0
    }

    pub fn has_dir_entry_types(&self) -> (r: bool)
        ensures
            r == self.spec_has_dir_entry_types(),
    {
        self.required_features & FEATURE_DIRECTORY_ENTRIES_HAVE_TYPE != 0
    }

    /// Parses a 1024-byte superblock record, refusing one whose magic or
    /// structure is invalid.
    pub fn decode(data: &Vec<u8>) -> (r: Option<Superblock>)
        requires
            data@.len() == 1024,
        ensures
            r == spec_decode_superblock(data@),
    {
        let sb = Superblock {
            num_inodes: read_u32_le(data, 0),
            num_blocks: read_u32_le(data, 4),
            num_reserved_blocks: read_u32_le(data, 8),
            num_unallocated_blocks: read_u32_le(data, 12),
            num_unallocated_inodes: read_u32_le(data, 16),
            log_block_size: read_u32_le(data, 24),
            blocks_per_group: read_u32_le(data, 32),
            inodes_per_group: read_u32_le(data, 40),
            magic: read_u16_le(data, 56),
            inode_size: read_u16_le(data, 88),
            required_features: read_u32_le(data, 96),
        };
        if sb.magic == EXT2_MAGIC && sb.log_block_size <= 10 && sb.blocks_per_group > 0
            && sb.inodes_per_group > 0 && sb.inode_size >= 128 && sb.num_blocks > 0 {
            Some(sb)
        } else {
            None
        }
    }

    /// Serializes the superblock into a fresh 1024-byte record; decoding
    /// the result gives back exactly this superblock.
    pub fn encode(&self) -> (r: Vec<u8>)
        requires
            self.wf(),
        ensures
            r@.len() == 1024,
            spec_decode_superblock(r@) == Some(*self),
    {
        let mut r = zero_vec(1024);
        write_u32_le(&mut r, 0, self.num_inodes);
        write_u32_le(&mut r, 4, self.num_blocks);
        write_u32_le(&mut r, 8, self.num_reserved_blocks);
        write_u32_le(&mut r, 12, self.num_unallocated_blocks);
        write_u32_le(&mut r, 16, self.num_unallocated_inodes);
        write_u32_le(&mut r, 24, self.log_block_size);
        write_u32_le(&mut r, 32, self.blocks_per_group);
        write_u32_le(&mut r, 40, self.inodes_per_group);
        write_u16_le(&mut r, 56, self.magic);
        write_u16_le(&mut r, 88, self.inode_size);
        write_u32_le(&mut r, 96, self.required_features);
        proof {
            assert(spec_decode_superblock_fields(r@) == *self);
        }
        r
    }
}

/// Bounds of the block size computed from a valid `log_block_size`.
pub proof fn lemma_block_size_bounds(log: u32)
    requires
        log <= 10,
    ensures
        1024 <= (1024u32 << log),
        (1024u32 << log) <= 0x10_0000,
        (1024u32 << log) % 4 == 0,
        (1024u32 << log) % 1024 == 0,
{
    assert(1024 <= (1024u32 << log) && (1024u32 << log) <= 0x10_0000 && (1024u32 << log) % 4 == 0
        && (1024u32 << log) % 1024 == 0) by (bit_vector)
        requires
            log <= 10,
    ;
}

} // verus!

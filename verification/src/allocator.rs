//! Inode and block allocation through the per-group usage bitmaps.
//!
//! Both resources share one mechanism: scan each group's bitmap for the
//! first clear bit (byte-major, LSB first), set it and write the bitmap
//! back, then decrement the group's and the superblock's free counter and
//! persist both. The write order — bitmap, then descriptor table, then
//! superblock — means a crash can at worst leak a resource, never hand the
//! same one out twice.

use vstd::prelude::*;

use crate::address::BlockAddress;
use crate::address::InodeAddress;
use crate::block_group::BlockGroupDescriptor;
use crate::bytes::bitmap_bit_at;
use crate::bytes::zero_vec;
use crate::device::BlockDevice;
use crate::error::Error;
use crate::spec_bgdt_offset;
use crate::spec_block_byte_offset;
use crate::superblock::Superblock;
use crate::Ext2Fs;

verus! {

/// Which resource the shared allocation walk hands out.
#[derive(Debug, Copy, Clone, PartialEq, Eq, Structural)]
pub(crate) enum ResourceKind {
    Blocks,
    Inodes,
}

/// A `u16` counter after one allocation: decremented, stopping at 0.
pub open spec fn spec_dec16(x: u16) -> u16 {
    if x > 0 {
        (x - 1) as u16
    } else {
        0
    }
}

/// A `u32` counter after one allocation: decremented, stopping at 0.
pub open spec fn spec_dec32(x: u32) -> u32 {
    if x > 0 {
        (x - 1) as u32
    } else {
        0
    }
}

/// The sum of a sequence of 16-bit counters.
pub open spec fn spec_sum_u16(s: Seq<u16>) -> int
    decreases s.len(),
{
    if s.len() == 0 {
        0
    } else {
        spec_sum_u16(s.drop_last()) + s.last() as int
    }
}

/// Updating one counter changes the sum by exactly the difference.
pub proof fn lemma_sum_u16_update(s: Seq<u16>, i: int, v: u16)
    requires
        0 <= i < s.len(),
    ensures
        spec_sum_u16(s.update(i, v)) == spec_sum_u16(s) - s[i] + v,
    decreases s.len(),
{
    let t = s.update(i, v);
    if i == s.len() - 1 {
        assert(t.drop_last() =~= s.drop_last());
    } else {
        assert(t.drop_last() =~= s.drop_last().update(i, v));
        lemma_sum_u16_update(s.drop_last(), i, v);
    }
}

/// Allocator conservation: when the groups' free counters sum to the
/// superblock's free counter, one successful allocation — which decrements
/// one group counter and the superblock counter by one each — keeps them
/// equal.
pub proof fn lemma_allocation_conserves_free_count(
    pre: Seq<u16>,
    post: Seq<u16>,
    g: int,
    sb_pre: u32,
    sb_post: u32,
)
    requires
        0 <= g < pre.len(),
        pre[g] > 0,
        sb_pre > 0,
        post == pre.update(g, spec_dec16(pre[g])),
        sb_post == spec_dec32(sb_pre),
        spec_sum_u16(pre) == sb_pre as int,
    ensures
        spec_sum_u16(post) == sb_post as int,
{
    lemma_sum_u16_update(pre, g, spec_dec16(pre[g]));
}

/// The free-block counters of the groups.
pub open spec fn spec_group_free_blocks(bgdt: Seq<BlockGroupDescriptor>) -> Seq<u16> {
    bgdt.map_values(|d: BlockGroupDescriptor| d.num_unallocated_blocks)
}

/// The free-inode counters of the groups.
pub open spec fn spec_group_free_inodes(bgdt: Seq<BlockGroupDescriptor>) -> Seq<u16> {
    bgdt.map_values(|d: BlockGroupDescriptor| d.num_unallocated_inodes)
}

/// After any successful block allocation, when the groups' free-block
/// counters summed to the superblock's free-block counter before, they
/// still do.
pub proof fn lemma_block_allocation_conserves<T: BlockDevice>(
    pre: Ext2Fs<T>,
    post: Ext2Fs<T>,
    n: u32,
    g: int,
    idx: int,
)
    requires
        spec_block_alloc_post(pre, post, n, g, idx),
        pre.bgdt@[g].num_unallocated_blocks > 0,
        pre.superblock.num_unallocated_blocks > 0,
        spec_sum_u16(spec_group_free_blocks(pre.bgdt@))
            == pre.superblock.num_unallocated_blocks as int,
    ensures
        spec_sum_u16(spec_group_free_blocks(post.bgdt@))
            == post.superblock.num_unallocated_blocks as int,
{
    let f = |d: BlockGroupDescriptor| d.num_unallocated_blocks;
    let v = spec_dec16(pre.bgdt@[g].num_unallocated_blocks);
    assert(spec_group_free_blocks(post.bgdt@) =~= spec_group_free_blocks(pre.bgdt@).update(g, v));
    lemma_allocation_conserves_free_count(
        spec_group_free_blocks(pre.bgdt@),
        spec_group_free_blocks(post.bgdt@),
        g,
        pre.superblock.num_unallocated_blocks,
        post.superblock.num_unallocated_blocks,
    );
}

/// After any successful inode allocation, when the groups' free-inode
/// counters summed to the superblock's free-inode counter before, they
/// still do.
pub proof fn lemma_inode_allocation_conserves<T: BlockDevice>(
    pre: Ext2Fs<T>,
    post: Ext2Fs<T>,
    n: u32,
    g: int,
    idx: int,
)
    requires
        spec_inode_alloc_post(pre, post, n, g, idx),
        pre.bgdt@[g].num_unallocated_inodes > 0,
        pre.superblock.num_unallocated_inodes > 0,
        spec_sum_u16(spec_group_free_inodes(pre.bgdt@))
            == pre.superblock.num_unallocated_inodes as int,
    ensures
        spec_sum_u16(spec_group_free_inodes(post.bgdt@))
            == post.superblock.num_unallocated_inodes as int,
{
    let v = spec_dec16(pre.bgdt@[g].num_unallocated_inodes);
    assert(spec_group_free_inodes(post.bgdt@) =~= spec_group_free_inodes(pre.bgdt@).update(g, v));
    lemma_allocation_conserves_free_count(
        spec_group_free_inodes(pre.bgdt@),
        spec_group_free_inodes(post.bgdt@),
        g,
        pre.superblock.num_unallocated_inodes,
        post.superblock.num_unallocated_inodes,
    );
}

/// Every bit of the bitmap block `bm_block` is set in `contents`.
pub open spec fn spec_group_bitmap_full(contents: Seq<u8>, sb: Superblock, bm_block: u32) -> bool {
    forall|j: int|
        0 <= j < 8 * sb.spec_block_size() ==> bitmap_bit_at(
            contents,
            spec_block_byte_offset(sb, bm_block),
            j,
        )
}

/// Every group's block bitmap is completely full.
pub open spec fn spec_all_block_bitmaps_full<T: BlockDevice>(fs: Ext2Fs<T>) -> bool {
    forall|g: int|
        0 <= g < fs.bgdt@.len() ==> spec_group_bitmap_full(
            fs.contents(),
            fs.superblock,
            (#[trigger] fs.bgdt@[g]).block_usage_bitmap_block,
        )
}

/// Every group's inode bitmap is completely full.
pub open spec fn spec_all_inode_bitmaps_full<T: BlockDevice>(fs: Ext2Fs<T>) -> bool {
    forall|g: int|
        0 <= g < fs.bgdt@.len() ==> spec_group_bitmap_full(
            fs.contents(),
            fs.superblock,
            (#[trigger] fs.bgdt@[g]).inode_usage_bitmap_block,
        )
}

/// What holds of the filesystem after a successful block allocation: some
/// group `g` held the first clear bit `idx` of its block bitmap, that bit
/// is now set on disk (wherever the bitmap does not collide with the
/// descriptor-table or superblock regions), the group's and the
/// superblock's free-block counters went down by one, and the returned
/// global number is `g * blocks_per_group + idx`.
pub open spec fn spec_block_alloc_post<T: BlockDevice>(
    pre: Ext2Fs<T>,
    post: Ext2Fs<T>,
    n: u32,
    g: int,
    idx: int,
) -> bool {
    let sb = pre.superblock;
    let bs = sb.spec_block_size() as int;
    let d = pre.bgdt@[g];
    let bmoff = spec_block_byte_offset(sb, d.block_usage_bitmap_block);
    let byte_pos = bmoff + idx / 8;
    let goff = spec_bgdt_offset(sb);
    &&& 0 <= g < pre.bgdt@.len()
    &&& 0 <= idx < 8 * bs
    &&& n as int == g * (sb.blocks_per_group as int) + idx
    &&& post.bgdt@ == pre.bgdt@.update(
        g,
        (BlockGroupDescriptor { num_unallocated_blocks: spec_dec16(d.num_unallocated_blocks), ..d }),
    )
    &&& post.superblock == (Superblock {
        num_unallocated_blocks: spec_dec32(sb.num_unallocated_blocks),
        ..sb
    })
    &&& !bitmap_bit_at(pre.contents(), bmoff, idx)
    &&& forall|j: int| 0 <= j < idx ==> bitmap_bit_at(pre.contents(), bmoff, j)
    &&& forall|g2: int|
        0 <= g2 < g ==> spec_group_bitmap_full(
            pre.contents(),
            sb,
            (#[trigger] pre.bgdt@[g2]).block_usage_bitmap_block,
        )
    &&& (!(goff <= byte_pos < goff + bs) && !(1024 <= byte_pos < 2048)) ==> bitmap_bit_at(
        post.contents(),
        bmoff,
        idx,
    )
    &&& crate::superblock::spec_decode_superblock(post.contents().subrange(1024, 2048)) == Some(
        post.superblock,
    )
    &&& crate::block_group::spec_decode_bgd(post.contents(), goff + 32 * g) == post.bgdt@[g]
    &&& forall|j: int|
        0 <= j < pre.contents().len() && !(bmoff <= j < bmoff + bs) && !(goff <= j < goff + bs)
            && !(1024 <= j < 2048) ==> post.contents()[j] == pre.contents()[j]
    &&& (bmoff + bs <= goff || goff + bs <= bmoff) && (bmoff + bs <= 1024 || 2048 <= bmoff)
        ==> forall|j: int|
        0 <= j < 8 * bs && j != idx ==> bitmap_bit_at(post.contents(), bmoff, j) == bitmap_bit_at(
            pre.contents(),
            bmoff,
            j,
        )
}

/// The same for a successful inode allocation, over the inode bitmap and
/// the free-inode counters.
pub open spec fn spec_inode_alloc_post<T: BlockDevice>(
    pre: Ext2Fs<T>,
    post: Ext2Fs<T>,
    n: u32,
    g: int,
    idx: int,
) -> bool {
    let sb = pre.superblock;
    let bs = sb.spec_block_size() as int;
    let d = pre.bgdt@[g];
    let bmoff = spec_block_byte_offset(sb, d.inode_usage_bitmap_block);
    let byte_pos = bmoff + idx / 8;
    let goff = spec_bgdt_offset(sb);
    &&& 0 <= g < pre.bgdt@.len()
    &&& 0 <= idx < 8 * bs
    &&& n as int == g * (sb.inodes_per_group as int) + idx
    &&& post.bgdt@ == pre.bgdt@.update(
        g,
        (BlockGroupDescriptor { num_unallocated_inodes: spec_dec16(d.num_unallocated_inodes), ..d }),
    )
    &&& post.superblock == (Superblock {
        num_unallocated_inodes: spec_dec32(sb.num_unallocated_inodes),
        ..sb
    })
    &&& !bitmap_bit_at(pre.contents(), bmoff, idx)
    &&& forall|j: int| 0 <= j < idx ==> bitmap_bit_at(pre.contents(), bmoff, j)
    &&& forall|g2: int|
        0 <= g2 < g ==> spec_group_bitmap_full(
            pre.contents(),
            sb,
            (#[trigger] pre.bgdt@[g2]).inode_usage_bitmap_block,
        )
    &&& (!(goff <= byte_pos < goff +
        bs) && !(1024 <= byte_pos < 2048)) ==> bitmap_bit_at(post.contents(), bmoff, idx)
    &&& crate::superblock::spec_decode_superblock(post.contents().subrange(1024, 2048)) == Some(
        post.superblock,
    )
    &&& crate::block_group::spec_decode_bgd(post.contents(), goff + 32 * g) == post.bgdt@[g]
    &&& forall|j: int|
        0 <= j < pre.contents().len() && !(bmoff <= j < bmoff + bs) && !(goff <= j < goff + bs)
            && !(1024 <= j < 2048) ==> post.contents()[j] == pre.contents()[j]
    &&& (bmoff + bs <= goff || goff + bs <= bmoff) && (bmoff + bs <= 1024 || 2048 <= bmoff)
        ==> forall|j: int|
        0 <= j < 8 * bs && j != idx ==> bitmap_bit_at(post.contents(), bmoff, j) == bitmap_bit_at(
            pre.contents(),
            bmoff,
            j,
        )
}

/// Some group and bit witness the successful block allocation of global
/// number `n`.
pub open spec fn spec_block_allocated<T: BlockDevice>(pre: Ext2Fs<T>, post: Ext2Fs<T>, n: u32) -> bool {
    exists|g: int, idx: int| #[trigger] spec_block_alloc_post(pre, post, n, g, idx)
}

/// Some group and bit witness the successful inode allocation of global
/// number `n`.
pub open spec fn spec_inode_allocated<T: BlockDevice>(pre: Ext2Fs<T>, post: Ext2Fs<T>, n: u32) -> bool {
    exists|g: int, idx: int| #[trigger] spec_inode_alloc_post(pre, post, n, g, idx)
}

/// After the bitmap write and the two metadata write-backs, everything
/// outside the bitmap, descriptor-table and superblock regions is
/// untouched; and when the bitmap region is clear of the other two, its
/// bits besides the reserved one read as before.
proof fn lemma_alloc_contents_frame(
    c0: Seq<u8>,
    c_mid: Seq<u8>,
    c2: Seq<u8>,
    c3: Seq<u8>,
    bmoff: int,
    bs: int,
    goff: int,
    idx: int,
    bgdt_data: Seq<u8>,
    sb_data: Seq<u8>,
)
    requires
        c0.len() == c_mid.len(),
        c2 == crate::bytes::splice_bytes(c_mid, goff, bgdt_data),
        c3 == crate::bytes::splice_bytes(c2, 1024, sb_data),
        bgdt_data.len() == bs,
        sb_data.len() == 1024,
        0 <= bmoff,
        bmoff + bs <= c0.len(),
        0 <= goff,
        goff + bs <= c_mid.len(),
        2048 <= c2.len(),
        0 <= idx < 8 * bs,
        forall|j: int| 0 <= j < c0.len() && !(bmoff <= j < bmoff + bs) ==> c_mid[j] == c0[j],
        forall|j: int|
            0 <= j < 8 * bs && j != idx ==> bitmap_bit_at(c_mid, bmoff, j) == bitmap_bit_at(
                c0,
                bmoff,
                j,
            ),
        bitmap_bit_at(c_mid, bmoff, idx),
    ensures
        forall|j: int|
            0 <= j < c0.len() && !(bmoff <= j < bmoff + bs) && !(goff <= j < goff + bs) && !(1024
                <= j < 2048) ==> c3[j] == c0[j],
        ((bmoff + bs <= goff || goff + bs <= bmoff) && (bmoff + bs <= 1024 || 2048 <= bmoff))
            ==> (forall|j: int|
            0 <= j < 8 * bs && j != idx ==> bitmap_bit_at(c3, bmoff, j) == bitmap_bit_at(
                c0,
                bmoff,
                j,
            )) && bitmap_bit_at(c3, bmoff, idx),
{
    crate::bytes::lemma_splice_bytes_len(c_mid, goff, bgdt_data);
    crate::bytes::lemma_splice_bytes_len(c2, 1024, sb_data);
    assert forall|j: int|
        0 <= j < c0.len() && !(bmoff <= j < bmoff + bs) && !(goff <= j < goff + bs) && !(1024 <= j
            < 2048) implies c3[j] == c0[j] by {
        assert(c2[j] == c_mid[j]);
        assert(c3[j] == c2[j]);
    }
    if (bmoff + bs <= goff || goff + bs <= bmoff) && (bmoff + bs <= 1024 || 2048 <= bmoff) {
        assert forall|j: int|
            0 <= j < 8 * bs && j != idx implies bitmap_bit_at(c3, bmoff, j) == bitmap_bit_at(
            c0,
            bmoff,
            j,
        ) by {
            vstd::arithmetic::div_mod::lemma_fundamental_div_mod(j, 8);
            let p = bmoff + j / 8;
            assert(bmoff <= p < bmoff + bs);
            assert(c2[p] == c_mid[p]);
            assert(c3[p] == c2[p]);
        }
        vstd::arithmetic::div_mod::lemma_fundamental_div_mod(idx, 8);
        let p = bmoff + idx / 8;
        assert(bmoff <= p < bmoff + bs);
        assert(c2[p] == c_mid[p]);
        assert(c3[p] == c2[p]);
        assert(bitmap_bit_at(c3, bmoff, idx));
    }
}

/// Assembles the allocation postcondition from the reserved bit, the two
/// metadata write-backs, and the in-memory updates.
#[verifier::rlimit(100)]
proof fn lemma_alloc_post_assembly<T: BlockDevice>(
    pre: Ext2Fs<T>,
    mid: Ext2Fs<T>,
    post: Ext2Fs<T>,
    kind: ResourceKind,
    g: int,
    idx: int,
    n: u32,
    resource_per_group: u32,
    c2: Seq<u8>,
    bgdt_data: Seq<u8>,
    superblock_data: Seq<u8>,
    updated: BlockGroupDescriptor,
)
    requires
        pre.wf(),
        0 <= g < pre.bgdt@.len(),
        0 <= idx < 8 * pre.superblock.spec_block_size(),
        mid.superblock == pre.superblock,
        mid.bgdt@ == pre.bgdt@,
        mid.contents().len() == pre.contents().len(),
        kind == ResourceKind::Blocks ==> {
            let bmoff = spec_block_byte_offset(
                pre.superblock,
                pre.bgdt@[g].block_usage_bitmap_block,
            );
            let bs = pre.superblock.spec_block_size() as int;
            &&& bmoff + bs <= pre.contents().len()
            &&& !bitmap_bit_at(pre.contents(), bmoff, idx)
            &&& forall|j: int| 0 <= j < idx ==> bitmap_bit_at(pre.contents(), bmoff, j)
            &&& bitmap_bit_at(mid.contents(), bmoff, idx)
            &&& forall|j: int|
                0 <= j < pre.contents().len() && !(bmoff <= j < bmoff + bs) ==> mid.contents()[j]
                    == pre.contents()[j]
            &&& forall|j: int|
                0 <= j < 8 * bs && j != idx ==> bitmap_bit_at(mid.contents(), bmoff, j)
                    == bitmap_bit_at(pre.contents(), bmoff, j)
            &&& forall|g2: int|
                0 <= g2 < g ==> spec_group_bitmap_full(
                    pre.contents(),
                    pre.superblock,
                    (#[trigger] pre.bgdt@[g2]).block_usage_bitmap_block,
                )
            &&& updated == (BlockGroupDescriptor {
                num_unallocated_blocks: spec_dec16(pre.bgdt@[g].num_unallocated_blocks),
                ..pre.bgdt@[g]
            })
            &&& post.superblock == (Superblock {
                num_unallocated_blocks: spec_dec32(pre.superblock.num_unallocated_blocks),
                ..pre.superblock
            })
        },
        kind == ResourceKind::Inodes ==> {
            let bmoff = spec_block_byte_offset(
                pre.superblock,
                pre.bgdt@[g].inode_usage_bitmap_block,
            );
            let bs = pre.superblock.spec_block_size() as int;
            &&& bmoff + bs <= pre.contents().len()
            &&& !bitmap_bit_at(pre.contents(), bmoff, idx)
            &&& forall|j: int| 0 <= j < idx ==> bitmap_bit_at(pre.contents(), bmoff, j)
            &&& bitmap_bit_at(mid.contents(), bmoff, idx)
            &&& forall|j: int|
                0 <= j < pre.contents().len() && !(bmoff <= j < bmoff + bs) ==> mid.contents()[j]
                    == pre.contents()[j]
            &&& forall|j: int|
                0 <= j < 8 * bs && j != idx ==> bitmap_bit_at(mid.contents(), bmoff, j)
                    == bitmap_bit_at(pre.contents(), bmoff, j)
            &&& forall|g2: int|
                0 <= g2 < g ==> spec_group_bitmap_full(
                    pre.contents(),
                    pre.superblock,
                    (#[trigger] pre.bgdt@[g2]).inode_usage_bitmap_block,
                )
            &&& updated == (BlockGroupDescriptor {
                num_unallocated_inodes: spec_dec16(pre.bgdt@[g].num_unallocated_inodes),
                ..pre.bgdt@[g]
            })
            &&& post.superblock == (Superblock {
                num_unallocated_inodes: spec_dec32(pre.superblock.num_unallocated_inodes),
                ..pre.superblock
            })
        },
        post.bgdt@ == pre.bgdt@.update(g, updated),
        c2 == crate::bytes::splice_bytes(mid.contents(), spec_bgdt_offset(pre.superblock), bgdt_data),
        post.contents() == crate::bytes::splice_bytes(c2, 1024, superblock_data),
        bgdt_data.len() == pre.superblock.spec_block_size() as int,
        superblock_data.len() == 1024,
        spec_bgdt_offset(pre.superblock) + pre.superblock.spec_block_size() as int
            <= mid.contents().len(),
        crate::superblock::spec_decode_superblock(superblock_data) == Some(post.superblock),
        crate::block_group::spec_decode_bgd(bgdt_data, 32 * g) == updated,
        n as int == g * (resource_per_group as int) + idx,
    ensures
        kind == ResourceKind::Blocks && resource_per_group == pre.superblock.blocks_per_group
            ==> spec_block_allocated(pre, post, n),
        kind == ResourceKind::Inodes && resource_per_group == pre.superblock.inodes_per_group
            ==> spec_inode_allocated(pre, post, n),
{
    let sb = pre.superblock;
    let bs = sb.spec_block_size() as int;
    let goff = spec_bgdt_offset(sb);
    crate::superblock::lemma_block_size_bounds(sb.log_block_size);
    assert(goff >= 2048);
    crate::bytes::lemma_splice_bytes_len(mid.contents(), goff, bgdt_data);
    crate::bytes::lemma_splice_bytes_len(c2, 1024, superblock_data);
    assert(post.contents().subrange(1024, 2048) =~= superblock_data);
    assert(post.contents().subrange(goff, goff + bs) =~= bgdt_data);
    assert(32 * g + 32 <= bs);
    crate::lemma_decode_bgd_of_subrange(post.contents(), goff, goff + bs, 32 * g);
    let bm_block = if kind == ResourceKind::Blocks {
        pre.bgdt@[g].block_usage_bitmap_block
    } else {
        pre.bgdt@[g].inode_usage_bitmap_block
    };
    let bmoff = spec_block_byte_offset(sb, bm_block);
    vstd::arithmetic::mul::lemma_mul_nonnegative(bm_block as int - 1, bs);
    lemma_alloc_contents_frame(
        pre.contents(),
        mid.contents(),
        c2,
        post.contents(),
        bmoff,
        bs,
        goff,
        idx,
        bgdt_data,
        superblock_data,
    );
    let byte_pos = bmoff + idx / 8;
    if !(goff <= byte_pos < goff + bs) && !(1024 <= byte_pos < 2048) {
        assert(byte_pos < bmoff + bs);
        assert(post.contents()[byte_pos] == mid.contents()[byte_pos]);
    }
    if kind == ResourceKind::Blocks {
        if resource_per_group == sb.blocks_per_group {
            assert(spec_block_alloc_post(pre, post, n, g, idx));
            assert(spec_block_allocated(pre, post, n));
        }
    } else {
        if resource_per_group == sb.inodes_per_group {
            assert(spec_inode_alloc_post(pre, post, n, g, idx));
            assert(spec_inode_allocated(pre, post, n));
        }
    }
}

impl<T: BlockDevice> Ext2Fs<T> {
    /// Allocates one block: the global scan over the block bitmaps, with
    /// the counters updated and persisted. Returns `None` when every group
    /// is full.
    pub fn allocate_block(&mut self) -> (r: Result<Option<BlockAddress>, Error>)
        requires
            old(self).wf(),
        ensures
            final(self).wf(),
            final(self).contents().len() == old(self).contents().len(),
            final(self).block_device.spec_sector_size() == old(self).block_device.spec_sector_size(),
            r matches Err(e) ==> (e == Error::DeviceRead || e == Error::DeviceWrite || e == Error::NoSpace || e == Error::UnableToReadBlockGroupDescriptorTable || e == Error::UnableToWriteBlockGroupDescriptorTable || e == Error::UnableToWriteSuperblock),
            final(self).superblock.log_block_size == old(self).superblock.log_block_size,
            final(self).superblock.required_features == old(self).superblock.required_features,
            final(self).superblock.inodes_per_group == old(self).superblock.inodes_per_group,
            final(self).bgdt@.len() == old(self).bgdt@.len(),
            r == Err::<Option<BlockAddress>, Error>(Error::NoSpace) ==> !spec_all_block_bitmaps_full(*old(self)),
            r matches Ok(Some(addr)) ==> addr.spec_get() >= 1 && spec_block_allocated(
                *old(self),
                *final(self),
                (addr.spec_get() - 1) as u32,
            ),
            r matches Ok(None) ==> final(self).superblock == old(self).superblock && final(self).bgdt@ == old(self).bgdt@ && final(self).contents() == old(self).contents()
                && spec_all_block_bitmaps_full(*old(self)),
    {
        let blocks_per_group = self.superblock.blocks_per_group;
        let r = self.allocate_resource(ResourceKind::Blocks, blocks_per_group)?;
        match r {
            Some(n) => {
                match BlockAddress::new(n + 1) {
                    Some(addr) => {
                        proof {
                            assert(((addr.spec_get() - 1) as u32) == n);
                        }
                        Ok(Some(addr))
                    },
                    None => {
                        proof {
                            assert(false);
                        }
                        Err(Error::NoSpace)
                    },
                }
            },
            None => Ok(None),
        }
    }

    /// Allocates one inode; inode addresses are 1-based, so the returned
    /// address is the global bitmap number plus one.
    pub fn allocate_inode(&mut self) -> (r: Result<Option<InodeAddress>, Error>)
        requires
            old(self).wf(),
        ensures
            final(self).wf(),
            final(self).contents().len() == old(self).contents().len(),
            final(self).block_device.spec_sector_size() == old(self).block_device.spec_sector_size(),
            r matches Err(e) ==> (e == Error::DeviceRead || e == Error::DeviceWrite || e == Error::NoSpace || e == Error::UnableToReadBlockGroupDescriptorTable || e == Error::UnableToWriteBlockGroupDescriptorTable || e == Error::UnableToWriteSuperblock),
            final(self).superblock.log_block_size == old(self).superblock.log_block_size,
            final(self).superblock.required_features == old(self).superblock.required_features,
            final(self).superblock.inodes_per_group == old(self).superblock.inodes_per_group,
            final(self).bgdt@.len() == old(self).bgdt@.len(),
            r == Err::<Option<InodeAddress>, Error>(Error::NoSpace) ==> !spec_all_inode_bitmaps_full(*old(self)),
            r matches Ok(Some(addr)) ==> addr.spec_get() >= 1 && spec_inode_allocated(
                *old(self),
                *final(self),
                (addr.spec_get() - 1) as u32,
            ),
            r matches Ok(None) ==> final(self).superblock == old(self).superblock && final(self).bgdt@ == old(self).bgdt@ && final(self).contents() == old(self).contents()
                && spec_all_inode_bitmaps_full(*old(self)),
    {
        let inodes_per_group = self.superblock.inodes_per_group;
        let r = self.allocate_resource(ResourceKind::Inodes, inodes_per_group)?;
        match r {
            Some(n) => {
                match InodeAddress::new(n + 1) {
                    Some(addr) => {
                        proof {
                            assert(((addr.spec_get() - 1) as u32) == n);
                        }
                        Ok(Some(addr))
                    },
                    None => {
                        proof {
                            assert(false);
                        }
                        Err(Error::NoSpace)
                    },
                }
            },
            None => Ok(None),
        }
    }

    /// The shared walk: for each group in order, try to reserve a bit in
    /// its bitmap; on success persist the group's descriptor and the
    /// superblock and return the global resource number.
    #[verifier::rlimit(100)]
    fn allocate_resource(&mut self, kind: ResourceKind, resource_per_group: u32) -> (r: Result<
        Option<u32>,
        Error,
    >)
        requires
            old(self).wf(),
        ensures
            final(self).wf(),
            final(self).contents().len() == old(self).contents().len(),
            final(self).block_device.spec_sector_size() == old(self).block_device.spec_sector_size(),
            r matches Err(e) ==> (e == Error::DeviceRead || e == Error::DeviceWrite || e == Error::NoSpace || e == Error::UnableToReadBlockGroupDescriptorTable || e == Error::UnableToWriteBlockGroupDescriptorTable || e == Error::UnableToWriteSuperblock),
            final(self).superblock.log_block_size == old(self).superblock.log_block_size,
            final(self).superblock.required_features == old(self).superblock.required_features,
            final(self).superblock.inodes_per_group == old(self).superblock.inodes_per_group,
            final(self).bgdt@.len() == old(self).bgdt@.len(),
            r == Err::<Option<u32>, Error>(Error::NoSpace) ==> {
                &&& kind == ResourceKind::Blocks ==> !spec_all_block_bitmaps_full(*old(self))
                &&& kind == ResourceKind::Inodes ==> !spec_all_inode_bitmaps_full(*old(self))
            },
            r matches Ok(Some(n)) ==> {
                &&& (n as int) + 1 <= u32::MAX as int
                &&& kind == ResourceKind::Blocks && resource_per_group
                    == old(self).superblock.blocks_per_group ==> spec_block_allocated(
                    *old(self),
                    *final(self),
                    n,
                )
                &&& kind == ResourceKind::Inodes && resource_per_group
                    == old(self).superblock.inodes_per_group ==> spec_inode_allocated(
                    *old(self),
                    *final(self),
                    n,
                )
            },
            r matches Ok(None) ==> {
                &&& final(self).superblock == old(self).superblock
                &&& final(self).bgdt@ == old(self).bgdt@
                &&& final(self).contents() == old(self).contents()
                &&& kind == ResourceKind::Blocks ==> spec_all_block_bitmaps_full(*old(self))
                &&& kind == ResourceKind::Inodes ==> spec_all_inode_bitmaps_full(*old(self))
            },
    {
        let block_size = self.superblock.block_size();
        let num_groups = self.bgdt.len();
        let bgdt_offset = self.bgdt_offset();
        assert(32 * (num_groups as int) <= block_size as int);
        assert(2048 <= bgdt_offset <= 0x10_0000);

        let mut group_index: usize = 0;
        while group_index < num_groups
            invariant
                self.wf(),
                old(self).wf(),
                self.superblock == old(self).superblock,
                self.bgdt@ == old(self).bgdt@,
                self.contents() == old(self).contents(),
                self.block_device.spec_sector_size() == old(self).block_device.spec_sector_size(),
                num_groups == self.bgdt@.len(),
                block_size == self.superblock.spec_block_size(),
                1024 <= block_size <= 0x10_0000,
                32 * (num_groups as int) <= block_size as int,
                bgdt_offset as int == spec_bgdt_offset(self.superblock),
                2048 <= bgdt_offset <= 0x10_0000,
                group_index <= num_groups,
                kind == ResourceKind::Blocks ==> forall|g2: int|
                    0 <= g2 < group_index ==> spec_group_bitmap_full(
                        old(self).contents(),
                        old(self).superblock,
                        (#[trigger] old(self).bgdt@[g2]).block_usage_bitmap_block,
                    ),
                kind == ResourceKind::Inodes ==> forall|g2: int|
                    0 <= g2 < group_index ==> spec_group_bitmap_full(
                        old(self).contents(),
                        old(self).superblock,
                        (#[trigger] old(self).bgdt@[g2]).inode_usage_bitmap_block,
                    ),
            decreases num_groups - group_index,
        {
            let reserved = match kind {
                ResourceKind::Blocks => self.try_reserve_block_in_group(group_index),
                ResourceKind::Inodes => self.try_reserve_inode_in_group(group_index),
            };
            let idx = match reserved {
                Ok(Some(i)) => i,
                Ok(None) => {
                    group_index = group_index + 1;
                    continue ;
                },
                Err(e) => {
                    return Err(e);
                },
            };
            let ghost mid = *self;
            let ghost pre = *old(self);
            let ghost sb = pre.superblock;
            let ghost bs = sb.spec_block_size() as int;

            proof {
                assert(group_index as int <= 0x8000);
                vstd::arithmetic::mul::lemma_mul_upper_bound(
                    group_index as int,
                    0x8000,
                    resource_per_group as int,
                    0xFFFF_FFFF,
                );
                vstd::arithmetic::mul::lemma_mul_nonnegative(
                    group_index as int,
                    resource_per_group as int,
                );
            }
            let global64 = (group_index as u64) * (resource_per_group as u64) + (idx as u64);
            if global64 > 0xFFFF_FFFEu64 {
                // the reserved bit cannot be named by a 32-bit address; the
                // resource is leaked, which the write ordering permits
                proof {
                    let g = group_index as int;
                    if kind == ResourceKind::Blocks {
                        assert(!spec_group_bitmap_full(
                            old(self).contents(),
                            old(self).superblock,
                            old(self).bgdt@[g].block_usage_bitmap_block,
                        ));
                    } else {
                        assert(!spec_group_bitmap_full(
                            old(self).contents(),
                            old(self).superblock,
                            old(self).bgdt@[g].inode_usage_bitmap_block,
                        ));
                    }
                }
                return Err(Error::NoSpace);
            }

            let descriptor = *self.bgdt.get(group_index);
            let updated = match kind {
                ResourceKind::Blocks => BlockGroupDescriptor {
                    num_unallocated_blocks: dec16(descriptor.num_unallocated_blocks),
                    ..descriptor
                },
                ResourceKind::Inodes => BlockGroupDescriptor {
                    num_unallocated_inodes: dec16(descriptor.num_unallocated_inodes),
                    ..descriptor
                },
            };
            self.bgdt.set(group_index, updated);

            let mut bgdt_data = zero_vec(block_size as usize);
            let read = self.block_device.read_at(bgdt_offset, &mut bgdt_data);
            if read.is_err() {
                return Err(Error::UnableToReadBlockGroupDescriptorTable);
            }
            updated.encode_into(&mut bgdt_data, group_index * 32);
            let ghost c1 = self.contents();
            let written = self.block_device.write_at(bgdt_offset, &bgdt_data);
            if written.is_err() {
                return Err(Error::UnableToWriteBlockGroupDescriptorTable);
            }
            proof {
                crate::bytes::lemma_splice_bytes_len(c1, bgdt_offset as int, bgdt_data@);
            }

            let new_superblock = match kind {
                ResourceKind::Blocks => Superblock {
                    num_unallocated_blocks: dec32(self.superblock.num_unallocated_blocks),
                    ..self.superblock
                },
                ResourceKind::Inodes => Superblock {
                    num_unallocated_inodes: dec32(self.superblock.num_unallocated_inodes),
                    ..self.superblock
                },
            };
            self.superblock = new_superblock;
            let superblock_data = self.superblock.encode();
            let ghost c2 = self.contents();
            let written = self.block_device.write_at(crate::SUPERBLOCK_OFFSET, &superblock_data);
            if written.is_err() {
                return Err(Error::UnableToWriteSuperblock);
            }
            proof {
                let g = group_index as int;
                let n = global64 as u32;
                assert(self.bgdt@ =~= pre.bgdt@.update(g, updated));
                lemma_alloc_post_assembly(
                    pre,
                    mid,
                    *self,
                    kind,
                    g,
                    idx as int,
                    n,
                    resource_per_group,
                    c2,
                    bgdt_data@,
                    superblock_data@,
                    updated,
                );
            }
            return Ok(Some(global64 as u32));
        }

        Ok(None)
    }

    /// Tries to reserve a bit in the block bitmap of group `group_index`.
    fn try_reserve_block_in_group(&mut self, group_index: usize) -> (r: Result<
        Option<usize>,
        Error,
    >)
        requires
            old(self).wf(),
            group_index < old(self).bgdt@.len(),
        ensures
            final(self).wf(),
            final(self).superblock == old(self).superblock,
            final(self).bgdt@ == old(self).bgdt@,
            final(self).contents().len() == old(self).contents().len(),
            final(self).block_device.spec_sector_size() == old(self).block_device.spec_sector_size(),
            ({
                let sb = old(self).superblock;
                let bs = sb.spec_block_size() as int;
                let bmoff = spec_block_byte_offset(
                    sb,
                    old(self).bgdt@[group_index as int].block_usage_bitmap_block,
                );
                &&& r matches Ok(Some(i)) ==> {
                    &&& i < 8 * bs
                    &&& bmoff + bs <= old(self).contents().len()
                    &&& !bitmap_bit_at(old(self).contents(), bmoff, i as int)
                    &&& forall|j: int| 0 <= j < i ==> bitmap_bit_at(old(self).contents(), bmoff, j)
                    &&& bitmap_bit_at(final(self).contents(), bmoff, i as int)
                    &&& forall|j: int|
                        0 <= j < old(self).contents().len() && !(bmoff <= j < bmoff + bs) ==> final(self).contents()[j] == old(self).contents()[j]
                    &&& forall|j: int|
                        0 <= j < 8 * bs && j != i ==> bitmap_bit_at(final(self).contents(), bmoff, j)
                            == bitmap_bit_at(old(self).contents(), bmoff, j)
                }
                &&& r matches Ok(None) ==> final(self).contents() == old(self).contents() && forall|
                    j: int,
                |
                    0 <= j < 8 * bs ==> bitmap_bit_at(old(self).contents(), bmoff, j)
            }),
            r matches Err(e) ==> (e == Error::DeviceRead || e == Error::DeviceWrite),
    {
        let bitmap_block_num = self.bgdt.get(group_index).block_usage_bitmap_block;
        let bitmap_block = match BlockAddress::new(bitmap_block_num) {
            Some(a) => a,
            None => {
                proof {
                    assert(false);
                }
                return Err(Error::DeviceRead);
            },
        };
        self.try_reserve_in_group_with_bitmap(bitmap_block)
    }

    /// Tries to reserve a bit in the inode bitmap of group `group_index`.
    fn try_reserve_inode_in_group(&mut self, group_index: usize) -> (r: Result<
        Option<usize>,
        Error,
    >)
        requires
            old(self).wf(),
            group_index < old(self).bgdt@.len(),
        ensures
            final(self).wf(),
            final(self).superblock == old(self).superblock,
            final(self).bgdt@ == old(self).bgdt@,
            final(self).contents().len() == old(self).contents().len(),
            final(self).block_device.spec_sector_size() == old(self).block_device.spec_sector_size(),
            ({
                let sb = old(self).superblock;
                let bs = sb.spec_block_size() as int;
                let bmoff = spec_block_byte_offset(
                    sb,
                    old(self).bgdt@[group_index as int].inode_usage_bitmap_block,
                );
                &&& r matches Ok(Some(i)) ==> {
                    &&& i < 8 * bs
                    &&& bmoff + bs <= old(self).contents().len()
                    &&& !bitmap_bit_at(old(self).contents(), bmoff, i as int)
                    &&& forall|j: int| 0 <= j < i ==> bitmap_bit_at(old(self).contents(), bmoff, j)
                    &&& bitmap_bit_at(final(self).contents(), bmoff, i as int)
                    &&& forall|j: int|
                        0 <= j < old(self).contents().len() && !(bmoff <= j < bmoff + bs) ==> final(self).contents()[j] == old(self).contents()[j]
                    &&& forall|j: int|
                        0 <= j < 8 * bs && j != i ==> bitmap_bit_at(final(self).contents(), bmoff, j)
                            == bitmap_bit_at(old(self).contents(), bmoff, j)
                }
                &&& r matches Ok(None) ==> final(self).contents() == old(self).contents() && forall|
                    j: int,
                |
                    0 <= j < 8 * bs ==> bitmap_bit_at(old(self).contents(), bmoff, j)
            }),
            r matches Err(e) ==> (e == Error::DeviceRead || e == Error::DeviceWrite),
    {
        let bitmap_block_num = self.bgdt.get(group_index).inode_usage_bitmap_block;
        let bitmap_block = match BlockAddress::new(bitmap_block_num) {
            Some(a) => a,
            None => {
                proof {
                    assert(false);
                }
                return Err(Error::DeviceRead);
            },
        };
        self.try_reserve_in_group_with_bitmap(bitmap_block)
    }

    /// Scans the bitmap block for the first clear bit, sets it, and writes
    /// the bitmap back; `None` when every bit is set, leaving everything
    /// unchanged.
    fn try_reserve_in_group_with_bitmap(&mut self, bitmap_block: BlockAddress) -> (r: Result<
        Option<usize>,
        Error,
    >)
        requires
            old(self).wf(),
        ensures
            final(self).wf(),
            final(self).superblock == old(self).superblock,
            final(self).bgdt@ == old(self).bgdt@,
            final(self).contents().len() == old(self).contents().len(),
            final(self).block_device.spec_sector_size() == old(self).block_device.spec_sector_size(),
            ({
                let sb = old(self).superblock;
                let bs = sb.spec_block_size() as int;
                let bmoff = spec_block_byte_offset(sb, bitmap_block.spec_get());
                &&& r matches Ok(Some(i)) ==> {
                    &&& i < 8 * bs
                    &&& bmoff + bs <= old(self).contents().len()
                    &&& !bitmap_bit_at(old(self).contents(), bmoff, i as int)
                    &&& forall|j: int| 0 <= j < i ==> bitmap_bit_at(old(self).contents(), bmoff, j)
                    &&& bitmap_bit_at(final(self).contents(), bmoff, i as int)
                    &&& forall|j: int|
                        0 <= j < old(self).contents().len() && !(bmoff <= j < bmoff + bs) ==> final(self).contents()[j] == old(self).contents()[j]
                    &&& forall|j: int|
                        0 <= j < 8 * bs && j != i ==> bitmap_bit_at(final(self).contents(), bmoff, j)
                            == bitmap_bit_at(old(self).contents(), bmoff, j)
                }
                &&& r matches Ok(None) ==> final(self).contents() == old(self).contents() && forall|
                    j: int,
                |
                    0 <= j < 8 * bs ==> bitmap_bit_at(old(self).contents(), bmoff, j)
            }),
            r matches Err(e) ==> (e == Error::DeviceRead || e == Error::DeviceWrite),
    {
        let block_size = self.superblock.block_size() as usize;
        let ghost bs = self.superblock.spec_block_size() as int;
        let ghost bmoff = spec_block_byte_offset(self.superblock, bitmap_block.spec_get());
        let bitmap_block_value = bitmap_block.get();
        proof {
            vstd::arithmetic::mul::lemma_mul_nonnegative(bitmap_block_value as int - 1, bs);
        }
        let mut bitmap = zero_vec(block_size);
        match self.read_block(bitmap_block, &mut bitmap) {
            Ok(_) => {},
            Err(_) => {
                return Err(Error::DeviceRead);
            },
        }
        let ghost c0 = self.contents();

        let mut byte_index: usize = 0;
        while byte_index < block_size
            invariant
                *self == *old(self),
                old(self).wf(),
                byte_index <= block_size,
                block_size as int == bs,
                1024 <= bs <= 0x10_0000,
                1024 <= bmoff,
                bs == self.superblock.spec_block_size() as int,
                bmoff == spec_block_byte_offset(self.superblock, bitmap_block.spec_get()),
                c0 == self.contents(),
                bitmap@.len() == bs,
                bmoff + bs <= c0.len(),
                bitmap@ == c0.subrange(bmoff, bmoff + bs),
                forall|j: int| 0 <= j < 8 * byte_index ==> bitmap_bit_at(c0, bmoff, j),
            decreases block_size - byte_index,
        {
            let b = bitmap[byte_index];
            let mut bit_index: usize = 0;
            while bit_index < 8
                invariant
                    self.wf(),
                    old(self).wf(),
                    *self == *old(self),
                    bit_index <= 8,
                    bitmap@.len() == bs,
                    byte_index < bs,
                    1024 <= bs <= 0x10_0000,
                    1024 <= bmoff,
                    bs == self.superblock.spec_block_size() as int,
                    bmoff == spec_block_byte_offset(self.superblock, bitmap_block.spec_get()),
                    c0 == self.contents(),
                    bmoff + bs <= c0.len(),
                    bitmap@ == c0.subrange(bmoff, bmoff + bs),
                    forall|j: int| 0 <= j < 8 * byte_index ==> bitmap_bit_at(c0, bmoff, j),
                    b == bitmap@[byte_index as int],
                    forall|k: int|
                        0 <= k < bit_index ==> b & (1u8 << (#[trigger] (k as u8))) != 0,
                decreases 8 - bit_index,
            {
                if b & (1u8 << (bit_index as u8)) == 0 {
                    let found = byte_index * 8 + bit_index;
                    let newbyte = b | (1u8 << (bit_index as u8));
                    let ghost prebm = bitmap@;
                    bitmap.set(byte_index, newbyte);
                    proof {
                        crate::bytes::lemma_bit_mask_test(b, bit_index as u8);
                        vstd::arithmetic::div_mod::lemma_fundamental_div_mod_converse(
                            found as int,
                            8,
                            byte_index as int,
                            bit_index as int,
                        );
                        lemma_scan_found(c0, bmoff, prebm, bitmap@, byte_index as int, bit_index as int, b);
                    }
                    match self.write_block(bitmap_block, &bitmap) {
                        Ok(_) => {},
                        Err(_) => {
                            return Err(Error::DeviceWrite);
                        },
                    }
                    proof {
                        crate::bytes::lemma_splice_bytes_len(c0, bmoff, bitmap@);
                        assert forall|j: int| 0 <= j < 8 * bs implies #[trigger] bitmap_bit_at(
                            self.contents(),
                            bmoff,
                            j,
                        ) == bitmap_bit_at(bitmap@, 0, j) by {
                            vstd::arithmetic::div_mod::lemma_fundamental_div_mod(j, 8);
                            assert(0 <= j / 8 < bs);
                            assert(self.contents()[bmoff + j / 8] == bitmap@[j / 8]);
                        }
                        assert forall|j: int| 0 <= j < 8 * bs implies #[trigger] bitmap_bit_at(
                            c0,
                            bmoff,
                            j,
                        ) == bitmap_bit_at(prebm, 0, j) by {
                            vstd::arithmetic::div_mod::lemma_fundamental_div_mod(j, 8);
                            assert(0 <= j / 8 < bs);
                            assert(prebm[j / 8] == c0.subrange(bmoff, bmoff + bs)[j / 8]);
                            assert(prebm[j / 8] == c0[bmoff + j / 8]);
                        }
                    }
                    return Ok(Some(found));
                }
                bit_index = bit_index + 1;
            }
            proof {
                assert forall|j: int| 0 <= j < 8 * (byte_index + 1) implies bitmap_bit_at(
                    c0,
                    bmoff,
                    j,
                ) by {
                    if j >= 8 * byte_index as int {
                        let k = j - 8 * byte_index as int;
                        vstd::arithmetic::div_mod::lemma_fundamental_div_mod_converse(
                            j,
                            8,
                            byte_index as int,
                            k,
                        );
                        crate::bytes::lemma_bit_mask_test(b, k as u8);
                        assert(b & (1u8 << (k as u8)) != 0);
                        assert(0 <= j / 8 < bs);
                        assert(bitmap@[j / 8] == c0.subrange(bmoff, bmoff + bs)[j / 8]);
                        assert(bitmap@[j / 8] == c0[bmoff + j / 8]);
                    }
                }
            }
            byte_index = byte_index + 1;
        }
        Ok(None)
    }
}

/// After setting bit `bit` of byte `byte_index`, the found position's bit
/// was clear before and is set now, earlier positions were already set,
/// and every other position is unchanged.
proof fn lemma_scan_found(
    c0: Seq<u8>,
    bmoff: int,
    prebm: Seq<u8>,
    newbm: Seq<u8>,
    byte_index: int,
    bit_index: int,
    b: u8,
)
    requires
        prebm.len() == newbm.len(),
        0 <= byte_index < prebm.len(),
        0 <= bit_index < 8,
        b == prebm[byte_index],
        b & (1u8 << (bit_index as u8)) == 0,
        forall|k: int| 0 <= k < bit_index ==> b & (1u8 << (#[trigger] (k as u8))) != 0,
        newbm == prebm.update(byte_index, b | (1u8 << (bit_index as u8))),
    ensures
        !bitmap_bit_at(prebm, 0, 8 * byte_index + bit_index),
        bitmap_bit_at(newbm, 0, 8 * byte_index + bit_index),
        forall|j: int|
            8 * byte_index <= j < 8 * byte_index + bit_index ==> bitmap_bit_at(prebm, 0, j),
        forall|j: int|
            0 <= j < 8 * prebm.len() && j != 8 * byte_index + bit_index ==> bitmap_bit_at(
                newbm,
                0,
                j,
            ) == bitmap_bit_at(prebm, 0, j),
{
    let found = 8 * byte_index + bit_index;
    vstd::arithmetic::div_mod::lemma_fundamental_div_mod_converse(
        found,
        8,
        byte_index,
        bit_index,
    );
    crate::bytes::lemma_bit_mask_test(b, bit_index as u8);
    assert forall|j: int|
        8 * byte_index <= j < 8 * byte_index + bit_index implies bitmap_bit_at(prebm, 0, j) by {
        let k = j - 8 * byte_index;
        vstd::arithmetic::div_mod::lemma_fundamental_div_mod_converse(j, 8, byte_index, k);
        crate::bytes::lemma_bit_mask_test(b, k as u8);
    }
    assert forall|j: int|
        0 <= j < 8 * prebm.len() && j != found implies bitmap_bit_at(newbm, 0, j) == bitmap_bit_at(
        prebm,
        0,
        j,
    ) by {
        vstd::arithmetic::div_mod::lemma_fundamental_div_mod(j, 8);
        if j / 8 == byte_index {
            let k = j % 8;
            assert(k != bit_index);
            crate::bytes::lemma_bit_mask_test(b, bit_index as u8);
            assert((b | (1u8 << (bit_index as u8))) >> (k as u8) & 1u8 == b >> (k as u8) & 1u8);
        } else {
            assert(newbm[j / 8] == prebm[j / 8]);
        }
    }
}

/// A `u16` counter after one allocation.
fn dec16(x: u16) -> (r: u16)
    ensures
        r == spec_dec16(x),
{
    if x > 0 {
        x - 1
    } else {
        0
    }
}

/// A `u32` counter after one allocation.
fn dec32(x: u32) -> (r: u32)
    ensures
        r == spec_dec32(x),
{
    if x > 0 {
        x - 1
    } else {
        0
    }
}

} // verus!

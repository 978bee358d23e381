//! Byte-range writes into a regular file.

use vstd::prelude::*;

use crate::block_group::BlockGroupDescriptor;
use crate::bytes::zero_vec;
use crate::device::BlockDevice;
use crate::inode::InodeView;
use crate::error::Error;
use crate::inode::RegularFile;
use crate::read::spec_file_byte;
use crate::read::spec_resolve_block_index;
use crate::spec_block_byte_offset;
use crate::spec_inode_byte_offset;
use crate::superblock::Superblock;
use crate::Ext2Fs;

verus! {

/// Splitting a 64-bit size into its two 32-bit on-disk words loses
/// nothing.
pub proof fn lemma_size_words_split(x: u64)
    ensures
        ((x >> 32u64) as u32 as int) * 0x1_0000_0000 + (x as u32 as int) == x as int,
{
    assert(x >> 32u64 == x / 0x1_0000_0000u64) by (bit_vector);
    assert(x >> 32u64 <= 0xFFFF_FFFFu64) by (bit_vector);
    assert(x as u32 == (x % 0x1_0000_0000u64) as u32) by (bit_vector);
    vstd::arithmetic::div_mod::lemma_fundamental_div_mod(x as int, 0x1_0000_0000);
}

/// The covered logical blocks `start ..= end` all lie in the direct range
/// and resolve — without any device read — to pairwise distinct physical
/// blocks whose byte ranges do not collide with the file's own inode
/// record. Under this layout a write stays where it was put: no covered
/// block aliases another, and the size update cannot clobber data.
pub open spec fn spec_direct_layout_ok(
    sb: Superblock,
    bgdt: Seq<BlockGroupDescriptor>,
    ino: InodeView,
    file_addr: u32,
    start: int,
    end: int,
) -> bool {
    let bs = sb.spec_block_size() as int;
    let rec = spec_inode_byte_offset(sb, bgdt, file_addr);
    &&& 0 <= start <= end < 12
    &&& forall|l: int| start <= l <= end ==> (#[trigger] ino.direct_block_ptr[l]) != 0
    &&& forall|l1: int, l2: int|
        start <= l1 <= end && start <= l2 <= end && l1 != l2 ==> (#[trigger] ino.direct_block_ptr[
        l1]) != (#[trigger] ino.direct_block_ptr[l2])
    &&& forall|l: int|
        start <= l <= end ==> {
            let boff = #[trigger] spec_block_byte_offset(sb, ino.direct_block_ptr[l]);
            boff + bs <= rec || rec + 128 <= boff
        }
}

/// Byte position `j` lies within one of the file's direct blocks
/// `start ..= end`.
pub open spec fn spec_in_file_blocks(
    sb: Superblock,
    ino: InodeView,
    start: int,
    end: int,
    j: int,
) -> bool {
    exists|l: int|
        start <= l <= end && {
            let boff = #[trigger] spec_block_byte_offset(sb, ino.direct_block_ptr[l]);
            boff <= j < boff + sb.spec_block_size()
        }
}

/// Distinct blocks occupy disjoint byte ranges, both past the boot record.
proof fn lemma_distinct_blocks_disjoint(sb: Superblock, b1: u32, b2: u32)
    requires
        sb.wf(),
        b1 >= 1,
        b2 >= 1,
        b1 != b2,
    ensures
        spec_block_byte_offset(sb, b1) >= 1024,
        spec_block_byte_offset(sb, b2) >= 1024,
        spec_block_byte_offset(sb, b1) + sb.spec_block_size() <= spec_block_byte_offset(sb, b2)
            || spec_block_byte_offset(sb, b2) + sb.spec_block_size() <= spec_block_byte_offset(
            sb,
            b1,
        ),
{
    let bs = sb.spec_block_size() as int;
    crate::superblock::lemma_block_size_bounds(sb.log_block_size);
    vstd::arithmetic::mul::lemma_mul_nonnegative(b1 as int - 1, bs);
    vstd::arithmetic::mul::lemma_mul_nonnegative(b2 as int - 1, bs);
    if b1 < b2 {
        vstd::arithmetic::mul::lemma_mul_inequality(b1 as int, b2 as int - 1, bs);
        vstd::arithmetic::mul::lemma_mul_is_distributive_sub_other_way(bs, b1 as int, 1);
    } else {
        vstd::arithmetic::mul::lemma_mul_inequality(b2 as int, b1 as int - 1, bs);
        vstd::arithmetic::mul::lemma_mul_is_distributive_sub_other_way(bs, b2 as int, 1);
    }
}

/// The byte range of a block starts past the boot record.
proof fn lemma_block_offset_low_bound(sb: Superblock, b: u32)
    requires
        sb.wf(),
        b >= 1,
    ensures
        spec_block_byte_offset(sb, b) >= 1024,
{
    vstd::arithmetic::mul::lemma_mul_nonnegative(
        b as int - 1,
        sb.spec_block_size() as int,
    );
}

impl<T: BlockDevice> Ext2Fs<T> {
    /// Writes `buf` into the file at byte `offset`, allocating blocks for
    /// holes in the covered range, and growing the recorded file size when
    /// the write ends past it. Only the twelve direct pointers can take
    /// freshly allocated blocks; a hole beyond them surfaces
    /// `Unsupported`. Returns how many bytes were written, which on
    /// success is all of `buf`. A zero-sized write succeeds and changes
    /// nothing.
    ///
    /// When the covered range is laid out plainly — every covered block
    /// already resolved through a direct pointer, no two covered blocks
    /// aliased, none colliding with the file's inode record — a successful
    /// write leaves the file holding exactly `buf` at `offset`, and when
    /// the size grew, the grown inode record is on the device.
    #[verifier::rlimit(100)]
    pub fn write_to_file(&mut self, file: &mut RegularFile, offset: usize, buf: &Vec<u8>) -> (r:
        Result<usize, Error>)
        requires
            old(self).wf(),
            old(file).wf(),
            offset + buf@.len() <= usize::MAX - 0x20_0000,
        ensures
            final(self).wf(),
            final(file).wf(),
            final(file).spec_address() == old(file).spec_address(),
            final(self).contents().len() == old(self).contents().len(),
            final(self).block_device.spec_sector_size() == old(self).block_device.spec_sector_size(),
            r matches Ok(n) ==> {
                &&& n == buf@.len()
                &&& buf@.len() > 0 ==> final(file).spec_inode().spec_len() as int == if old(
                    file,
                ).spec_inode().spec_len() as int >= offset + buf@.len() {
                    old(file).spec_inode().spec_len() as int
                } else {
                    offset + buf@.len()
                }
                &&& buf@.len() == 0 ==> *final(file) == *old(file) && final(self).contents()
                    == old(self).contents()
            },
            buf@.len() == 0 ==> r is Ok,
            (r is Ok && buf@.len() > 0 && spec_direct_layout_ok(
                old(self).superblock,
                old(self).bgdt@,
                old(file).spec_inode()@,
                old(file).spec_address().spec_get(),
                (offset as int) / (old(self).superblock.spec_block_size() as int),
                (offset + buf@.len() - 1) / (old(self).superblock.spec_block_size() as int),
            )) ==> forall|j: int|
                0 <= j < buf@.len() ==> spec_file_byte(
                    final(self).contents(),
                    final(self).superblock,
                    final(file).spec_inode()@,
                    offset + j,
                ) == buf@[j],
            (r is Ok && buf@.len() > 0 && spec_direct_layout_ok(
                old(self).superblock,
                old(self).bgdt@,
                old(file).spec_inode()@,
                old(file).spec_address().spec_get(),
                (offset as int) / (old(self).superblock.spec_block_size() as int),
                (offset + buf@.len() - 1) / (old(self).superblock.spec_block_size() as int),
            )) ==> forall|j: int|
                0 <= j < old(self).contents().len() && !spec_in_file_blocks(
                    old(self).superblock,
                    old(file).spec_inode()@,
                    (offset as int) / (old(self).superblock.spec_block_size() as int),
                    (offset + buf@.len() - 1) / (old(self).superblock.spec_block_size() as int),
                    j,
                ) && !(spec_inode_byte_offset(
                    old(self).superblock,
                    old(self).bgdt@,
                    old(file).spec_address().spec_get(),
                ) <= j < spec_inode_byte_offset(
                    old(self).superblock,
                    old(self).bgdt@,
                    old(file).spec_address().spec_get(),
                ) + 128) ==> #[trigger] final(self).contents()[j] == old(self).contents()[j],
            (r is Ok && buf@.len() > 0 && spec_direct_layout_ok(
                old(self).superblock,
                old(self).bgdt@,
                old(file).spec_inode()@,
                old(file).spec_address().spec_get(),
                (offset as int) / (old(self).superblock.spec_block_size() as int),
                (offset + buf@.len() - 1) / (old(self).superblock.spec_block_size() as int),
            )) ==> forall|p: int|
                ((offset as int) / (old(self).superblock.spec_block_size() as int)) * (old(
                    self,
                ).superblock.spec_block_size() as int) <= p < ((offset + buf@.len() - 1) / (old(
                    self,
                ).superblock.spec_block_size() as int) + 1) * (old(
                    self,
                ).superblock.spec_block_size() as int) && !(offset <= p < offset + buf@.len())
                    ==> #[trigger] spec_file_byte(
                    final(self).contents(),
                    final(self).superblock,
                    final(file).spec_inode()@,
                    p,
                ) == spec_file_byte(
                    old(self).contents(),
                    old(self).superblock,
                    old(file).spec_inode()@,
                    p,
                ),
            (r is Ok && buf@.len() > 0 && (old(file).spec_inode().spec_len() as int) < offset
                + buf@.len()) ==> {
                let rec = spec_inode_byte_offset(
                    final(self).superblock,
                    final(self).bgdt@,
                    final(file).spec_address().spec_get(),
                );
                &&& rec + 128 <= final(self).contents().len()
                &&& crate::inode::spec_decode_inode(
                    final(self).contents().subrange(rec, rec + 128),
                ) == final(file).spec_inode()@
            },
    {
        let buf_len = buf.len();
        if buf_len == 0 {
            return Ok(0);
        }
        let block_size = self.superblock.block_size() as u64;
        let ghost bs = self.superblock.spec_block_size() as int;
        let ghost pre = *old(self);
        let ghost old_ino = old(file).spec_inode()@;
        let off64 = offset as u64;
        let start_block = off64 / block_size;
        let end_block = (off64 + (buf_len as u64) - 1) / block_size;
        let relative_offset = (off64 % block_size) as usize;
        let ghost layout_ok = spec_direct_layout_ok(
            pre.superblock,
            pre.bgdt@,
            old_ino,
            old(file).spec_address().spec_get(),
            start_block as int,
            end_block as int,
        );
        proof {
            vstd::arithmetic::div_mod::lemma_fundamental_div_mod(off64 as int, bs);
            vstd::arithmetic::div_mod::lemma_fundamental_div_mod(
                off64 as int + buf_len as int - 1,
                bs,
            );
            vstd::arithmetic::div_mod::lemma_div_is_ordered(
                off64 as int,
                off64 as int + buf_len as int - 1,
                bs,
            );
        }
        let block_count = end_block - start_block + 1;
        proof {
            vstd::arithmetic::mul::lemma_mul_is_distributive_sub_other_way(
                bs,
                end_block as int + 1,
                start_block as int,
            );
            vstd::arithmetic::mul::lemma_mul_is_distributive_add_other_way(
                bs,
                end_block as int,
                1,
            );
            vstd::arithmetic::mul::lemma_mul_nonnegative(start_block as int, bs);
            vstd::arithmetic::mul::lemma_mul_is_commutative(bs, end_block as int);
            vstd::arithmetic::mul::lemma_mul_is_commutative(bs, start_block as int);
            assert((end_block as int + 1) * bs <= off64 as int + buf_len as int - 1 + bs);
            assert(block_count as int * bs == (end_block as int + 1) * bs - start_block as int
                * bs);
            assert(block_count as int * bs <= off64 as int + buf_len as int - 1 + bs);
        }
        let need64 = block_count * block_size;
        assert(need64 as int == block_count as int * bs);
        assert(start_block as int * bs + relative_offset as int == off64 as int);
        let need = match crate::offset_to_usize(need64) {
            Some(n) => n,
            None => {
                proof {
                    assert(false);
                }
                return Err(Error::DeviceRead);
            },
        };

        // stage the covered range: existing data padded to block bounds,
        // then overlay the new bytes
        let mut data = zero_vec(need);
        match self.read_blocks_from_inode(file.inode(), start_block, end_block, &mut data) {
            Ok(_) => {},
            Err(e) => {
                return Err(e);
            },
        }
        assert(relative_offset + buf_len <= need);
        let ghost staged = data@;
        crate::bytes::write_bytes(&mut data, relative_offset, buf);
        proof {
            crate::bytes::lemma_splice_bytes_len(staged, relative_offset as int, buf@);
            assert(forall|i: int|
                0 <= i < need && !(relative_offset <= i < relative_offset + buf_len)
                    ==> data@[i] == staged[i]);
        }

        // write every covered block, allocating for holes
        let block_size_usize = block_size as usize;
        let mut k: u64 = 0;
        while k < block_count
            invariant
                self.wf(),
                file.wf(),
                old(self).wf(),
                old(file).wf(),
                pre == *old(self),
                old_ino == old(file).spec_inode()@,
                layout_ok == spec_direct_layout_ok(
                    pre.superblock,
                    pre.bgdt@,
                    old_ino,
                    old(file).spec_address().spec_get(),
                    start_block as int,
                    end_block as int,
                ),
                file.spec_address() == old(file).spec_address(),
                file.spec_inode().spec_len() == old(file).spec_inode().spec_len(),
                self.contents().len() == old(self).contents().len(),
                self.block_device.spec_sector_size() == old(self).block_device.spec_sector_size(),
                self.superblock.spec_block_size() == old(self).superblock.spec_block_size(),
                k <= block_count,
                block_count == end_block - start_block + 1,
                start_block <= end_block,
                end_block < u64::MAX,
                bs == self.superblock.spec_block_size() as int,
                block_size as int == bs,
                block_size_usize as int == bs,
                1024 <= bs <= 0x10_0000,
                data@.len() == need,
                need as int == block_count as int * bs,
                forall|i: int| 0 <= i < buf_len ==> buf@[i] == data@[relative_offset + i],
                forall|i: int|
                    0 <= i < need && !(relative_offset <= i < relative_offset + buf_len)
                        ==> data@[i] == staged[i],
                forall|i: int|
                    0 <= i < need ==> #[trigger] staged[i] == crate::read::spec_block_content_byte(
                        pre.contents(),
                        pre.superblock,
                        old_ino,
                        start_block as int + i / bs,
                        i % bs,
                    ),
                buf_len == buf@.len(),
                buf_len > 0,
                relative_offset + buf_len <= need,
                start_block as int * bs + relative_offset as int == offset as int,
                layout_ok ==> {
                    &&& *file == *old(file)
                    &&& self.superblock == pre.superblock
                    &&& self.bgdt@ == pre.bgdt@
                    &&& forall|j: int|
                        0 <= j < self.contents().len() && !spec_in_file_blocks(
                            pre.superblock,
                            old_ino,
                            start_block as int,
                            start_block as int + k - 1,
                            j,
                        ) ==> #[trigger] self.contents()[j] == pre.contents()[j]
                    &&& forall|l: int|
                        start_block as int <= l < start_block as int + k ==> {
                            let boff = #[trigger] spec_block_byte_offset(
                                pre.superblock,
                                old_ino.direct_block_ptr[l],
                            );
                            &&& boff + bs <= self.contents().len()
                            &&& self.contents().subrange(boff, boff + bs) == data@.subrange(
                                (l - start_block as int) * bs,
                                (l - start_block as int) * bs + bs,
                            )
                        }
                },
            decreases block_count - k,
        {
            let l = start_block + k;
            let resolved = match self.resolve_block_index(file.inode(), l) {
                Ok(v) => v,
                Err(e) => {
                    return Err(e);
                },
            };
            let block_address = match resolved {
                Some(a) => a,
                None => {
                    proof {
                        if layout_ok {
                            assert(old_ino.direct_block_ptr[l as int] != 0);
                            assert(spec_resolve_block_index(
                                self.contents(),
                                self.superblock,
                                file.spec_inode()@,
                                l as int,
                            ) != 0);
                            assert(false);
                        }
                    }
                    let free = match self.allocate_block() {
                        Ok(Some(b)) => b,
                        Ok(None) => {
                            return Err(Error::NoSpace);
                        },
                        Err(e) => {
                            return Err(e);
                        },
                    };
                    // install the fresh block in the first empty direct slot
                    let mut slot: usize = 0;
                    while slot < 12
                        invariant
                            slot <= 12,
                            file.wf(),
                        decreases 12 - slot,
                    {
                        if file.inode().direct_ptr(slot).is_none() {
                            break ;
                        }
                        slot = slot + 1;
                    }
                    if slot == 12 {
                        // growth through indirect blocks is not implemented
                        return Err(Error::Unsupported);
                    }
                    file.inode_mut().set_direct_ptr(slot, Some(free));
                    let file_address = file.inode_address();
                    match self.write_inode(file_address, file.inode()) {
                        Ok(_) => {},
                        Err(e) => {
                            return Err(e);
                        },
                    }
                    free
                },
            };
            proof {
                vstd::arithmetic::mul::lemma_mul_inequality(k as int + 1, block_count as int, bs);
                vstd::arithmetic::mul::lemma_mul_is_distributive_add_other_way(bs, k as int, 1);
                vstd::arithmetic::mul::lemma_mul_nonnegative(k as int, bs);
                vstd::arithmetic::mul::lemma_mul_inequality(1, bs, block_count as int);
                vstd::arithmetic::mul::lemma_mul_is_commutative(bs, block_count as int);
                assert((k as int) * bs + bs <= need as int);
            }
            let base = (k as usize) * block_size_usize;
            let chunk = crate::bytes::read_bytes(&data, base, block_size_usize);
            let ghost c_before = self.contents();
            match self.write_block(block_address, &chunk) {
                Ok(_) => {},
                Err(e) => {
                    return Err(e);
                },
            }
            proof {
                if layout_ok {
                    let b = old_ino.direct_block_ptr[l as int];
                    assert(block_address.spec_get() == b);
                    let boff = spec_block_byte_offset(pre.superblock, b);
                    lemma_block_offset_low_bound(pre.superblock, b);
                    crate::bytes::lemma_splice_bytes_len(c_before, boff, chunk@);
                    assert(self.contents().subrange(boff, boff + bs) =~= data@.subrange(
                        (k as int) * bs,
                        (k as int) * bs + bs,
                    ));
                    assert((l as int - start_block as int) * bs == (k as int) * bs);
                    assert forall|j: int|
                        0 <= j < self.contents().len() && !spec_in_file_blocks(
                            pre.superblock,
                            old_ino,
                            start_block as int,
                            start_block as int + k as int,
                            j,
                        ) implies #[trigger] self.contents()[j] == pre.contents()[j] by {
                        assert(!(boff <= j < boff + bs));
                        assert(self.contents()[j] == c_before[j]);
                        assert(!spec_in_file_blocks(
                            pre.superblock,
                            old_ino,
                            start_block as int,
                            start_block as int + k as int - 1,
                            j,
                        ));
                    }
                    assert forall|l2: int|
                        start_block as int <= l2 < start_block as int + k implies {
                            let boff2 = #[trigger] spec_block_byte_offset(
                                pre.superblock,
                                old_ino.direct_block_ptr[l2],
                            );
                            &&& boff2 + bs <= self.contents().len()
                            &&& self.contents().subrange(boff2, boff2 + bs) == data@.subrange(
                                (l2 - start_block as int) * bs,
                                (l2 - start_block as int) * bs + bs,
                            )
                        } by {
                        let b2 = old_ino.direct_block_ptr[l2];
                        lemma_distinct_blocks_disjoint(pre.superblock, b2, b);
                        let boff2 = spec_block_byte_offset(pre.superblock, b2);
                        assert(c_before.subrange(boff2, boff2 + bs) == data@.subrange(
                            (l2 - start_block as int) * bs,
                            (l2 - start_block as int) * bs + bs,
                        ));
                        assert(self.contents().subrange(boff2, boff2 + bs) =~= c_before.subrange(
                            boff2,
                            boff2 + bs,
                        ));
                    }
                }
            }
            k = k + 1;
        }

        // grow the recorded size when the write ends past it
        let ghost c_after_loop = self.contents();
        let file_len = file.len();
        let new_size = off64 + (buf_len as u64);
        let grew = file_len < new_size;
        if grew {
            let lower = new_size as u32;
            let upper = (new_size >> 32u64) as u32;
            {
                let ino = file.inode_mut();
                ino.set_file_size_lower(lower);
                ino.set_file_size_upper(upper);
            }
            proof {
                lemma_size_words_split(new_size);
            }
            let file_address = file.inode_address();
            match self.write_inode(file_address, file.inode()) {
                Ok(_) => {},
                Err(e) => {
                    return Err(e);
                },
            }
            proof {
                if layout_ok {
                    let rec = spec_inode_byte_offset(
                        pre.superblock,
                        pre.bgdt@,
                        old(file).spec_address().spec_get(),
                    );
                    assert forall|j: int|
                        0 <= j < self.contents().len() && !spec_in_file_blocks(
                            pre.superblock,
                            old_ino,
                            start_block as int,
                            end_block as int,
                            j,
                        ) && !(rec <= j < rec + 128) implies #[trigger] self.contents()[j]
                        == pre.contents()[j] by {
                        assert(self.contents()[j] == c_after_loop[j]);
                        assert(c_after_loop[j] == pre.contents()[j]);
                    }
                    assert forall|l: int|
                        start_block as int <= l <= end_block as int implies {
                            let boff = #[trigger] spec_block_byte_offset(
                                pre.superblock,
                                old_ino.direct_block_ptr[l],
                            );
                            &&& boff + bs <= self.contents().len()
                            &&& self.contents().subrange(boff, boff + bs) == data@.subrange(
                                (l - start_block as int) * bs,
                                (l - start_block as int) * bs + bs,
                            )
                        } by {
                        let b = old_ino.direct_block_ptr[l];
                        let boff = spec_block_byte_offset(pre.superblock, b);
                        lemma_block_offset_low_bound(pre.superblock, b);
                        assert(boff + bs <= rec || rec + 128 <= boff);
                        assert(c_after_loop.subrange(boff, boff + bs) == data@.subrange(
                            (l - start_block as int) * bs,
                            (l - start_block as int) * bs + bs,
                        ));
                        assert(self.contents().subrange(boff, boff + bs) =~= c_after_loop.subrange(
                            boff,
                            boff + bs,
                        ));
                    }
                }
            }
        }
        proof {
            if layout_ok {
                assert(file.spec_inode()@.direct_block_ptr == old_ino.direct_block_ptr);
                assert(self.superblock == pre.superblock);
                assert forall|j: int| 0 <= j < buf_len implies spec_file_byte(
                    self.contents(),
                    self.superblock,
                    file.spec_inode()@,
                    offset + j,
                ) == buf@[j] by {
                    let l = (offset + j) / bs;
                    let m = (offset + j) % bs;
                    vstd::arithmetic::div_mod::lemma_fundamental_div_mod(offset + j, bs);
                    vstd::arithmetic::div_mod::lemma_div_is_ordered(
                        offset as int,
                        offset + j,
                        bs,
                    );
                    vstd::arithmetic::div_mod::lemma_div_is_ordered(
                        offset + j,
                        offset as int + buf_len - 1,
                        bs,
                    );
                    assert(start_block as int <= l <= end_block as int);
                    let b = old_ino.direct_block_ptr[l];
                    assert(b != 0);
                    assert(spec_resolve_block_index(
                        self.contents(),
                        self.superblock,
                        file.spec_inode()@,
                        l,
                    ) == b);
                    let boff = spec_block_byte_offset(pre.superblock, b);
                    lemma_block_offset_low_bound(pre.superblock, b);
                    assert(self.contents().subrange(boff, boff + bs) == data@.subrange(
                        (l - start_block as int) * bs,
                        (l - start_block as int) * bs + bs,
                    ));
                    assert(self.contents()[boff + m] == self.contents().subrange(
                        boff,
                        boff + bs,
                    )[m]);
                    vstd::arithmetic::mul::lemma_mul_nonnegative(l - start_block as int, bs);
                    vstd::arithmetic::mul::lemma_mul_inequality(
                        l - start_block as int + 1,
                        block_count as int,
                        bs,
                    );
                    vstd::arithmetic::mul::lemma_mul_is_distributive_add_other_way(
                        bs,
                        l - start_block as int,
                        1,
                    );
                    assert((l - start_block as int) * bs + bs <= need as int);
                    assert(data@.subrange(
                        (l - start_block as int) * bs,
                        (l - start_block as int) * bs + bs,
                    )[m] == data@[(l - start_block as int) * bs + m]);
                    assert(self.contents()[boff + m] == data@[(l - start_block as int) * bs + m]);
                    vstd::arithmetic::mul::lemma_mul_is_distributive_sub_other_way(
                        bs,
                        l,
                        start_block as int,
                    );
                    vstd::arithmetic::mul::lemma_mul_is_commutative(bs, l);
                    assert((l - start_block as int) * bs + m == relative_offset + j);
                    assert(data@[relative_offset + j] == buf@[j]);
                }
                // the staged head and tail of the covered blocks read back
                // as they were
                assert forall|p: int|
                    start_block as int * bs <= p < (end_block as int + 1) * bs && !(offset <= p
                        < offset + buf_len) implies #[trigger] spec_file_byte(
                    self.contents(),
                    self.superblock,
                    file.spec_inode()@,
                    p,
                ) == spec_file_byte(pre.contents(), pre.superblock, old_ino, p) by {
                    let l = p / bs;
                    let m = p % bs;
                    let i = p - start_block as int * bs;
                    vstd::arithmetic::div_mod::lemma_fundamental_div_mod(p, bs);
                    vstd::arithmetic::mul::lemma_mul_is_distributive_add_other_way(
                        bs,
                        end_block as int,
                        1,
                    );
                    vstd::arithmetic::mul::lemma_mul_is_commutative(bs, end_block as int);
                    vstd::arithmetic::mul::lemma_mul_is_commutative(bs, start_block as int);
                    vstd::arithmetic::mul::lemma_mul_is_commutative(bs, l);
                    vstd::arithmetic::div_mod::lemma_fundamental_div_mod_converse(
                        p,
                        bs,
                        l,
                        m,
                    );
                    vstd::arithmetic::div_mod::lemma_div_by_multiple(start_block as int, bs);
                    vstd::arithmetic::div_mod::lemma_div_is_ordered(
                        start_block as int * bs,
                        p,
                        bs,
                    );
                    vstd::arithmetic::div_mod::lemma_fundamental_div_mod_converse(
                        end_block as int * bs + (bs - 1),
                        bs,
                        end_block as int,
                        bs - 1,
                    );
                    vstd::arithmetic::div_mod::lemma_div_is_ordered(
                        p,
                        end_block as int * bs + (bs - 1),
                        bs,
                    );
                    assert(start_block as int <= l <= end_block as int);
                    let b = old_ino.direct_block_ptr[l];
                    assert(b != 0);
                    assert(spec_resolve_block_index(
                        self.contents(),
                        self.superblock,
                        file.spec_inode()@,
                        l,
                    ) == b);
                    let boff = spec_block_byte_offset(pre.superblock, b);
                    lemma_block_offset_low_bound(pre.superblock, b);
                    assert(self.contents().subrange(boff, boff + bs) == data@.subrange(
                        (l - start_block as int) * bs,
                        (l - start_block as int) * bs + bs,
                    ));
                    assert(self.contents()[boff + m] == self.contents().subrange(
                        boff,
                        boff + bs,
                    )[m]);
                    vstd::arithmetic::mul::lemma_mul_nonnegative(l - start_block as int, bs);
                    vstd::arithmetic::mul::lemma_mul_inequality(
                        l - start_block as int + 1,
                        block_count as int,
                        bs,
                    );
                    vstd::arithmetic::mul::lemma_mul_is_distributive_add_other_way(
                        bs,
                        l - start_block as int,
                        1,
                    );
                    assert((l - start_block as int) * bs + bs <= need as int);
                    assert(data@.subrange(
                        (l - start_block as int) * bs,
                        (l - start_block as int) * bs + bs,
                    )[m] == data@[(l - start_block as int) * bs + m]);
                    vstd::arithmetic::mul::lemma_mul_is_distributive_sub_other_way(
                        bs,
                        l,
                        start_block as int,
                    );
                    assert((l - start_block as int) * bs + m == i);
                    assert(0 <= i < need);
                    assert(!(relative_offset <= i < relative_offset + buf_len));
                    assert(data@[i] == staged[i]);
                    assert(staged[i] == crate::read::spec_block_content_byte(
                        pre.contents(),
                        pre.superblock,
                        old_ino,
                        start_block as int + i / bs,
                        i % bs,
                    ));
                    vstd::arithmetic::div_mod::lemma_fundamental_div_mod_converse(
                        i,
                        bs,
                        l - start_block as int,
                        m,
                    );
                    assert(start_block as int + i / bs == l);
                    assert(i % bs == m);
                }
            }
        }
        Ok(buf_len)
    }
}

} // verus!

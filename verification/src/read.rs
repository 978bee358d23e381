//! Logical-to-physical block resolution and byte-range reads.
//!
//! A file's logical block `L` is mapped to a physical block through the
//! inode's twelve direct pointers and its single, double and triple
//! indirect trees. A zero pointer at any level short-circuits to "absent":
//! that is the sparse-file representation, and an absent block reads as
//! zeros.

use vstd::prelude::*;

use crate::address::BlockAddress;
use crate::bytes::le32_at;
use crate::bytes::read_u32_le;
use crate::bytes::zero_vec;
use crate::device::BlockDevice;
use crate::error::Error;
use crate::inode::Inode;
use crate::inode::InodeView;
use crate::inode::RegularFile;
use crate::spec_block_byte_offset;
use crate::superblock::Superblock;
use crate::Ext2Fs;

verus! {

/// How many block pointers one block holds: `block_size / 4`.
pub open spec fn spec_ptrs_per_block(sb: Superblock) -> int {
    sb.spec_block_size() as int / 4
}

/// The pointer at index `i` of pointer block `b` (0 standing for "absent"
/// when `b` itself is 0).
pub open spec fn spec_child_ptr(contents: Seq<u8>, sb: Superblock, b: u32, i: int) -> u32 {
    if b == 0 {
        0
    } else {
        le32_at(contents, spec_block_byte_offset(sb, b) + 4 * i)
    }
}

/// A valid superblock's pointer count per block: between 256 and 2^18,
/// with `4 * ptrs_per_block == block_size` exactly.
pub proof fn lemma_ptrs_per_block_bounds(sb: Superblock)
    requires
        sb.wf(),
    ensures
        256 <= spec_ptrs_per_block(sb) <= 0x40000,
        4 * spec_ptrs_per_block(sb) == sb.spec_block_size() as int,
{
    crate::superblock::lemma_block_size_bounds(sb.log_block_size);
    let bs = sb.spec_block_size() as int;
    vstd::arithmetic::div_mod::lemma_fundamental_div_mod(bs, 4);
}

/// One level of indirection below `ptr`.
pub open spec fn spec_resolve_single(contents: Seq<u8>, sb: Superblock, ptr: u32, idx: int) -> u32 {
    spec_child_ptr(contents, sb, ptr, idx)
}

/// Two levels of indirection below `ptr`.
pub open spec fn spec_resolve_double(contents: Seq<u8>, sb: Superblock, ptr: u32, idx: int) -> u32 {
    let p = spec_ptrs_per_block(sb);
    spec_child_ptr(contents, sb, spec_child_ptr(contents, sb, ptr, idx / p), idx % p)
}

/// Three levels of indirection below `ptr`.
pub open spec fn spec_resolve_triple(contents: Seq<u8>, sb: Superblock, ptr: u32, idx: int) -> u32 {
    let p = spec_ptrs_per_block(sb);
    spec_resolve_double(contents, sb, spec_child_ptr(contents, sb, ptr, idx / (p * p)), idx % (p
        * p))
}

/// The physical block holding logical block `l` of the inode, or 0 when
/// the block is absent (sparse, unallocated, or beyond the pointer tree).
pub open spec fn spec_resolve_block_index(
    contents: Seq<u8>,
    sb: Superblock,
    ino: InodeView,
    l: int,
) -> u32 {
    let p = spec_ptrs_per_block(sb);
    if l < 12 {
        ino.direct_block_ptr[l]
    } else if l < 12 + p {
        spec_resolve_single(contents, sb, ino.singly_indirect_block_ptr, l - 12)
    } else if l < 12 + p + p * p {
        spec_resolve_double(contents, sb, ino.doubly_indirect_block_ptr, l - 12 - p)
    } else if l < 12 + p + p * p + p * p * p {
        spec_resolve_triple(contents, sb, ino.triply_indirect_block_ptr, l - 12 - p - p * p)
    } else {
        0
    }
}

/// Byte `off` of logical block `l` of the inode: the byte on disk when the
/// block is present, 0 when it is absent.
pub open spec fn spec_block_content_byte(
    contents: Seq<u8>,
    sb: Superblock,
    ino: InodeView,
    l: int,
    off: int,
) -> u8 {
    let b = spec_resolve_block_index(contents, sb, ino, l);
    if b == 0 {
        0
    } else {
        contents[spec_block_byte_offset(sb, b) + off]
    }
}

/// Byte `i` of the inode's data, blocks concatenated, holes as zeros.
pub open spec fn spec_file_byte(contents: Seq<u8>, sb: Superblock, ino: InodeView, i: int) -> u8 {
    let bs = sb.spec_block_size() as int;
    spec_block_content_byte(contents, sb, ino, i / bs, i % bs)
}

/// How many bytes a read at `offset` into a buffer of `buf_len` bytes
/// returns: nothing past the end of the file, and no more than the buffer
/// holds.
pub open spec fn spec_read_count(file_len: int, offset: int, buf_len: int) -> int {
    if offset >= file_len || buf_len == 0 {
        0
    } else if buf_len <= file_len - offset {
        buf_len
    } else {
        file_len - offset
    }
}

impl<T: BlockDevice> Ext2Fs<T> {
    /// The first logical block index beyond the direct pointers, beyond the
    /// single-indirect tree, and beyond the double-indirect tree.
    pub fn indirect_pointer_limits(&self) -> (r: (u64, u64, u64))
        requires
            self.wf(),
        ensures
            ({
                let p = spec_ptrs_per_block(self.superblock);
                r.0 == 12 && r.1 == 12 + p && r.2 == 12 + p + p * p
            }),
    {
        let p = (self.superblock.block_size() / 4) as u64;
        proof {
            lemma_ptrs_per_block_bounds(self.superblock);
            vstd::arithmetic::mul::lemma_mul_upper_bound(p as int, 0x40000, p as int, 0x40000);
            vstd::arithmetic::mul::lemma_mul_nonnegative(p as int, p as int);
        }
        (12, 12 + p, 12 + p + p * p)
    }

    /// Whether logical block `block_index` of the inode is backed by a
    /// physical block.
    pub fn is_block_allocated(&self, inode: &Inode, block_index: u64) -> (r: Result<bool, Error>)
        requires
            self.wf(),
            inode.wf(),
        ensures
            r matches Ok(b) ==> b == (spec_resolve_block_index(
                self.contents(),
                self.superblock,
                inode@,
                block_index as int,
            ) != 0),
            r matches Err(e) ==> e == Error::DeviceRead,
    {
        match self.resolve_block_index(inode, block_index) {
            Ok(b) => Ok(b.is_some()),
            Err(e) => Err(e),
        }
    }

    /// Maps logical block `block_index` of the inode to its physical block:
    /// `None` for a hole. Walks the direct pointers or the matching
    /// indirect tree; an index beyond the triple-indirect range is a hole.
    pub fn resolve_block_index(&self, inode: &Inode, block_index: u64) -> (r: Result<
        Option<BlockAddress>,
        Error,
    >)
        requires
            self.wf(),
            inode.wf(),
        ensures
            r matches Ok(opt) ==> {
                let b = spec_resolve_block_index(
                    self.contents(),
                    self.superblock,
                    inode@,
                    block_index as int,
                );
                &&& opt matches Some(a) ==> a.spec_get() == b && b != 0
                &&& opt is None <==> b == 0
            },
            r matches Err(e) ==> e == Error::DeviceRead,
    {
        let (direct_limit, indirect_limit, double_indirect_limit) = self.indirect_pointer_limits();
        let p = (self.superblock.block_size() / 4) as u64;
        proof {
            lemma_ptrs_per_block_bounds(self.superblock);
            vstd::arithmetic::mul::lemma_mul_upper_bound(p as int, 0x40000, p as int, 0x40000);
            vstd::arithmetic::mul::lemma_mul_nonnegative(p as int, p as int);
            vstd::arithmetic::mul::lemma_mul_upper_bound(
                (p * p) as int,
                0x10_0000_0000,
                p as int,
                0x40000,
            );
            vstd::arithmetic::mul::lemma_mul_nonnegative((p * p) as int, p as int);
            vstd::arithmetic::mul::lemma_mul_is_associative(p as int, p as int, p as int);
        }
        let triple_limit = double_indirect_limit + (p * p) * p;

        if block_index < direct_limit {
            Ok(self.direct_ptr_of(inode, block_index as usize))
        } else if block_index < indirect_limit {
            self.resolve_indirect_ptr(inode.single_indirect_ptr(), block_index - 12)
        } else if block_index < double_indirect_limit {
            self.resolve_double_indirect_ptr(inode.double_indirect_ptr(), block_index - 12 - p)
        } else if block_index < triple_limit {
            self.resolve_triple_indirect_ptr(
                inode.triple_indirect_ptr(),
                block_index - 12 - p - p * p,
            )
        } else {
            Ok(None)
        }
    }

    /// Reads one direct pointer as an optional block address.
    fn direct_ptr_of(&self, inode: &Inode, index: usize) -> (r: Option<BlockAddress>)
        requires
            inode.wf(),
            index < 12,
        ensures
            r matches Some(a) ==> a.spec_get() == inode@.direct_block_ptr[index as int]
                && inode@.direct_block_ptr[index as int] != 0,
            r is None <==> inode@.direct_block_ptr[index as int] == 0,
    {
        inode.direct_ptr(index)
    }

    /// Follows one level of indirection: reads the pointer block behind
    /// `indirect_ptr` and picks entry `block_index`.
    pub fn resolve_indirect_ptr(
        &self,
        indirect_ptr: Option<BlockAddress>,
        block_index: u64,
    ) -> (r: Result<Option<BlockAddress>, Error>)
        requires
            self.wf(),
            (block_index as int) < spec_ptrs_per_block(self.superblock),
        ensures
            r matches Ok(opt) ==> {
                let b = spec_resolve_single(
                    self.contents(),
                    self.superblock,
                    spec_opt_addr(indirect_ptr),
                    block_index as int,
                );
                &&& opt matches Some(a) ==> a.spec_get() == b && b != 0
                &&& opt is None <==> b == 0
            },
            r matches Err(e) ==> e == Error::DeviceRead,
            indirect_ptr is None ==> r == Ok::<Option<BlockAddress>, Error>(None),
    {
        let ptr = match indirect_ptr {
            Some(a) => a,
            None => {
                return Ok(None);
            },
        };
        proof {
            lemma_ptrs_per_block_bounds(self.superblock);
        }
        let block_size = self.superblock.block_size();
        let mut data = zero_vec(block_size as usize);
        self.read_block(ptr, &mut data)?;
        let b = ptr.get();
        let value = read_u32_le(&data, 4 * (block_index as usize));
        proof {
            vstd::arithmetic::mul::lemma_mul_nonnegative(
                b as int - 1,
                self.superblock.spec_block_size() as int,
            );
            crate::bytes::lemma_le32_at_subrange(
                self.contents(),
                spec_block_byte_offset(self.superblock, b),
                spec_block_byte_offset(self.superblock, b) + block_size as int,
                4 * block_index as int,
            );
        }
        Ok(BlockAddress::new(value))
    }

    /// Follows two levels of indirection below `double_indirect_block`.
    pub fn resolve_double_indirect_ptr(
        &self,
        double_indirect_block: Option<BlockAddress>,
        block_index: u64,
    ) -> (r: Result<Option<BlockAddress>, Error>)
        requires
            self.wf(),
            (block_index as int) < spec_ptrs_per_block(self.superblock) * spec_ptrs_per_block(
                self.superblock,
            ),
        ensures
            r matches Ok(opt) ==> {
                let b = spec_resolve_double(
                    self.contents(),
                    self.superblock,
                    spec_opt_addr(double_indirect_block),
                    block_index as int,
                );
                &&& opt matches Some(a) ==> a.spec_get() == b && b != 0
                &&& opt is None <==> b == 0
            },
            r matches Err(e) ==> e == Error::DeviceRead,
    {
        proof {
            lemma_ptrs_per_block_bounds(self.superblock);
        }
        let p = (self.superblock.block_size() / 4) as u64;
        let single_indirect_index = block_index / p;
        let rest = block_index % p;
        proof {
            vstd::arithmetic::div_mod::lemma_fundamental_div_mod(block_index as int, p as int);
            if block_index as int / (p as int) >= p as int {
                vstd::arithmetic::mul::lemma_mul_inequality(
                    p as int,
                    block_index as int / (p as int),
                    p as int,
                );
                vstd::arithmetic::div_mod::lemma_remainder_lower(block_index as int, p as int);
                assert(false);
            }
        }
        let upper = self.resolve_indirect_ptr(double_indirect_block, single_indirect_index)?;
        self.resolve_indirect_ptr(upper, rest)
    }

    /// Follows three levels of indirection below `triple_indirect_block`.
    pub fn resolve_triple_indirect_ptr(
        &self,
        triple_indirect_block: Option<BlockAddress>,
        block_index: u64,
    ) -> (r: Result<Option<BlockAddress>, Error>)
        requires
            self.wf(),
            (block_index as int) < spec_ptrs_per_block(self.superblock) * spec_ptrs_per_block(
                self.superblock,
            ) * spec_ptrs_per_block(self.superblock),
        ensures
            r matches Ok(opt) ==> {
                let b = spec_resolve_triple(
                    self.contents(),
                    self.superblock,
                    spec_opt_addr(triple_indirect_block),
                    block_index as int,
                );
                &&& opt matches Some(a) ==> a.spec_get() == b && b != 0
                &&& opt is None <==> b == 0
            },
            r matches Err(e) ==> e == Error::DeviceRead,
    {
        proof {
            lemma_ptrs_per_block_bounds(self.superblock);
        }
        let p = (self.superblock.block_size() / 4) as u64;
        proof {
            vstd::arithmetic::mul::lemma_mul_upper_bound(p as int, 0x40000, p as int, 0x40000);
            vstd::arithmetic::mul::lemma_mul_strictly_positive(p as int, p as int);
        }
        let pp = p * p;
        let double_indirect_index = block_index / pp;
        let rest = block_index % pp;
        proof {
            vstd::arithmetic::div_mod::lemma_fundamental_div_mod(block_index as int, pp as int);
            vstd::arithmetic::mul::lemma_mul_is_associative(p as int, p as int, p as int);
            if block_index as int / (pp as int) >= p as int {
                vstd::arithmetic::mul::lemma_mul_inequality(
                    p as int,
                    block_index as int / (pp as int),
                    pp as int,
                );
                vstd::arithmetic::div_mod::lemma_remainder_lower(block_index as int, pp as int);
                assert(false);
            }
        }
        let upper = self.resolve_indirect_ptr(triple_indirect_block, double_indirect_index)?;
        self.resolve_double_indirect_ptr(upper, rest)
    }
}

impl<T: BlockDevice> Ext2Fs<T> {
    /// Reads logical blocks `start_block ..= end_block` of the inode into
    /// `buf`, one block-sized chunk each, absent blocks as zeros.
    pub(crate) fn read_blocks_from_inode(
        &self,
        inode: &Inode,
        start_block: u64,
        end_block: u64,
        buf: &mut Vec<u8>,
    ) -> (r: Result<usize, Error>)
        requires
            self.wf(),
            inode.wf(),
            start_block <= end_block,
            end_block < u64::MAX,
            old(buf)@.len() == (end_block - start_block + 1) * (
            self.superblock.spec_block_size() as int),
        ensures
            final(buf)@.len() == old(buf)@.len(),
            r matches Ok(n) ==> {
                let bs = self.superblock.spec_block_size() as int;
                &&& n == old(buf)@.len()
                &&& forall|j: int|
                    0 <= j < old(buf)@.len() ==> final(buf)@[j] == spec_block_content_byte(
                        self.contents(),
                        self.superblock,
                        inode@,
                        start_block + j / bs,
                        j % bs,
                    )
            },
            r matches Err(e) ==> e == Error::DeviceRead,
    {
        let block_size = self.superblock.block_size() as usize;
        let ghost bs = self.superblock.spec_block_size() as int;
        let len = buf.len();
        let count: u64 = end_block - start_block + 1;
        proof {
            vstd::arithmetic::mul::lemma_mul_strictly_positive(count as int, bs);
        }
        let mut tmp = zero_vec(block_size);
        let mut k: u64 = 0;
        while k < count
            invariant
                self.wf(),
                inode.wf(),
                bs == self.superblock.spec_block_size() as int,
                block_size as int == bs,
                1024 <= bs,
                k <= count,
                count == end_block - start_block + 1,
                end_block < u64::MAX,
                tmp@.len() == bs,
                buf@.len() == len,
                buf@.len() == old(buf)@.len(),
                len as int == count * bs,
                forall|j: int|
                    0 <= j < k * bs ==> buf@[j] == spec_block_content_byte(
                        self.contents(),
                        self.superblock,
                        inode@,
                        start_block + j / bs,
                        j % bs,
                    ),
            decreases count - k,
        {
            let l = start_block + k;
            let resolved = self.resolve_block_index(inode, l)?;
            proof {
                vstd::arithmetic::mul::lemma_mul_inequality(k as int + 1, count as int, bs);
                vstd::arithmetic::mul::lemma_mul_is_distributive_add_other_way(bs, k as int, 1);
                vstd::arithmetic::mul::lemma_mul_nonnegative(k as int, bs);
                vstd::arithmetic::mul::lemma_mul_inequality(1, bs, count as int);
                vstd::arithmetic::mul::lemma_mul_is_commutative(bs, count as int);
                assert(count as int <= len as int);
                assert((k as int) * bs + bs <= len as int);
            }
            let base = (k as usize) * block_size;
            let ghost pre = buf@;
            match resolved {
                Some(addr) => {
                    self.read_block(addr, &mut tmp)?;
                    crate::bytes::write_bytes(buf, base, &tmp);
                    proof {
                        crate::bytes::lemma_splice_bytes_len(pre, base as int, tmp@);
                    }
                },
                None => {
                    let mut i: usize = 0;
                    while i < block_size
                        invariant
                            i <= block_size,
                            base + block_size <= buf@.len(),
                            buf@.len() <= usize::MAX,
                            buf@.len() == pre.len(),
                            forall|j: int|
                                0 <= j < buf@.len() && !(base <= j < base + i) ==> buf@[j]
                                    == pre[j],
                            forall|j: int| base <= j < base + i ==> buf@[j] == 0u8,
                        decreases block_size - i,
                    {
                        buf.set(base + i, 0);
                        i = i + 1;
                    }
                },
            }
            proof {
                let c = self.contents();
                let sb = self.superblock;
                assert forall|j: int| 0 <= j < (k + 1) * bs implies buf@[j]
                    == spec_block_content_byte(c, sb, inode@, start_block + j / bs, j % bs) by {
                    if j < k as int * bs {
                        assert(buf@[j] == pre[j]);
                    } else {
                        let d = j - base as int;
                        vstd::arithmetic::div_mod::lemma_fundamental_div_mod_converse(
                            j,
                            bs,
                            k as int,
                            d,
                        );
                        assert(start_block + j / bs == l);
                        assert(j % bs == d);
                        let b = spec_resolve_block_index(c, sb, inode@, l as int);
                        if b == 0 {
                            assert(buf@[j] == 0u8);
                        } else {
                            assert(buf@[j] == tmp@[d]);
                            assert(tmp@[d] == c[spec_block_byte_offset(sb, b) + d]);
                        }
                    }
                }
            }
            k = k + 1;
        }
        Ok(len)
    }

    /// Reads up to `buf.len()` bytes of the file starting at byte `offset`.
    /// Returns how many bytes were read: nothing past the end of the file,
    /// holes as zeros; bytes of `buf` past the returned count are left
    /// untouched. A read at or past the end of the file reads nothing, as
    /// does an empty buffer.
    pub fn read_from_file(&self, file: &RegularFile, offset: usize, buf: &mut Vec<u8>) -> (r:
        Result<usize, Error>)
        requires
            self.wf(),
            file.wf(),
            offset + old(buf)@.len() <= usize::MAX - 0x20_0000,
        ensures
            final(buf)@.len() == old(buf)@.len(),
            r matches Ok(n) ==> {
                let flen = file.spec_inode().spec_len() as int;
                &&& n == spec_read_count(flen, offset as int, old(buf)@.len() as int)
                &&& forall|j: int|
                    0 <= j < n ==> final(buf)@[j] == spec_file_byte(
                        self.contents(),
                        self.superblock,
                        file.spec_inode()@,
                        offset + j,
                    )
                &&& forall|j: int| n <= j < old(buf)@.len() ==> final(buf)@[j] == old(buf)@[j]
            },
            r matches Err(e) ==> e == Error::DeviceRead,
            (old(buf)@.len() == 0 || offset as int >= file.spec_inode().spec_len() as int) ==> r
                is Ok,
    {
        let file_size = file.len();
        if (offset as u64) >= file_size {
            return Ok(0);
        }
        let buf_len = buf.len();
        if buf_len == 0 {
            return Ok(0);
        }

        let block_size = self.superblock.block_size() as u64;
        let ghost bs = self.superblock.spec_block_size() as int;
        let off64 = offset as u64;
        let start_block = off64 / block_size;
        let end_block = (off64 + (buf_len as u64) - 1) / block_size;
        let relative_offset = (off64 % block_size) as usize;
        proof {
            vstd::arithmetic::div_mod::lemma_fundamental_div_mod(off64 as int, bs);
            vstd::arithmetic::div_mod::lemma_fundamental_div_mod(
                off64 as int + buf_len as int - 1,
                bs,
            );
            vstd::arithmetic::div_mod::lemma_div_is_ordered(
                off64 as int,
                off64 as int + buf_len as int - 1,
                bs,
            );
        }
        let block_count = end_block - start_block + 1;
        proof {
            vstd::arithmetic::mul::lemma_mul_is_distributive_sub_other_way(
                bs,
                end_block as int + 1,
                start_block as int,
            );
            vstd::arithmetic::mul::lemma_mul_is_distributive_add_other_way(
                bs,
                end_block as int,
                1,
            );
            vstd::arithmetic::mul::lemma_mul_nonnegative(start_block as int, bs);
            vstd::arithmetic::mul::lemma_mul_is_commutative(bs, end_block as int);
            vstd::arithmetic::mul::lemma_mul_is_commutative(bs, start_block as int);
            assert((end_block as int + 1) * bs <= off64 as int + buf_len as int - 1 + bs);
            assert(block_count as int * bs == (end_block as int + 1) * bs - start_block as int
                * bs);
            assert(block_count as int * bs <= off64 as int + buf_len as int - 1 + bs);
        }
        let need64 = block_count * block_size;
        assert(need64 as int == block_count as int * bs);
        assert(start_block as int * bs + relative_offset as int == off64 as int);
        let need = match crate::offset_to_usize(need64) {
            Some(n) => n,
            None => {
                proof {
                    assert(false);
                }
                return Err(Error::DeviceRead);
            },
        };
        let mut data = zero_vec(need);
        let res = self.read_blocks_from_inode(file.inode(), start_block, end_block, &mut data);
        if let Err(e) = res {
            return Err(e);
        }

        let remaining = file_size - off64;
        let total_read: usize = if (buf_len as u64) <= remaining {
            buf_len
        } else {
            remaining as usize
        };
        assert(relative_offset + total_read <= need);

        let ghost c = self.contents();
        let ghost sb = self.superblock;
        let ghost ino = file.spec_inode()@;
        let mut j: usize = 0;
        while j < total_read
            invariant
                j <= total_read,
                total_read <= buf_len,
                buf@.len() == buf_len,
                data@.len() == need,
                relative_offset + total_read <= need,
                forall|i: int|
                    0 <= i < need ==> data@[i] == spec_block_content_byte(
                        c,
                        sb,
                        ino,
                        start_block + i / bs,
                        i % bs,
                    ),
                forall|i: int| 0 <= i < j ==> buf@[i] == data@[relative_offset + i],
                forall|i: int| j <= i < buf_len ==> buf@[i] == old(buf)@[i],
            decreases total_read - j,
        {
            let b = data[relative_offset + j];
            buf.set(j, b);
            j = j + 1;
        }
        proof {
            assert forall|i: int| 0 <= i < total_read implies buf@[i] == spec_file_byte(
                c,
                sb,
                ino,
                offset + i,
            ) by {
                let x = relative_offset + i;
                vstd::arithmetic::div_mod::lemma_fundamental_div_mod(x, bs);
                vstd::arithmetic::mul::lemma_mul_is_distributive_add_other_way(
                    bs,
                    start_block as int,
                    x / bs,
                );
                vstd::arithmetic::mul::lemma_mul_is_commutative(bs, x / bs);
                vstd::arithmetic::mul::lemma_mul_is_commutative(bs, start_block as int);
                assert(offset + i == (start_block as int + x / bs) * bs + (x % bs));
                vstd::arithmetic::div_mod::lemma_fundamental_div_mod_converse(
                    offset + i,
                    bs,
                    start_block as int + x / bs,
                    x % bs,
                );
            }
        }
        Ok(total_read)
    }
}

/// The raw pointer value behind an optional block address.
pub open spec fn spec_opt_addr(a: Option<BlockAddress>) -> u32 {
    match a {
        Some(b) => b.spec_get(),
        None => 0,
    }
}

} // verus!

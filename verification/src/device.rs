//! The block-device interface that the filesystem is built on.
//!
//! A device exposes sector-sized reads and writes; `read_at` and `write_at`
//! lift them to byte-granular access at arbitrary offsets. The device is
//! modelled by its byte contents (`contents()`) together with its fixed
//! sector size; every operation's contract is stated against that model, so
//! whatever sector geometry a device has, a successful byte-range access
//! returns or stores the same bytes.

use vstd::prelude::*;

use crate::bytes::splice_bytes;
use crate::bytes::zero_vec;

verus! {

pub trait BlockDevice: Sized {
    type Error;

    /// The sector size of this device, in bytes. It never changes.
    spec fn spec_sector_size(&self) -> int;

    /// The bytes currently stored on the device.
    spec fn contents(&self) -> Seq<u8>;

    /// The device's basic well-formedness: a positive sector size that
    /// divides the device length.
    spec fn wf(&self) -> bool;

    /// Whether this device promises that in-bounds sector access always
    /// succeeds; an in-memory device does, a fallible one need not.
    spec fn spec_reliable(&self) -> bool;

    fn sector_size(&self) -> (r: usize)
        requires
            self.wf(),
        ensures
            r as int == self.spec_sector_size(),
            r > 0,
            self.contents().len() as int % (r as int) == 0,
    ;

    /// The number of sectors this device has available.
    fn sector_count(&self) -> (r: usize)
        requires
            self.wf(),
        ensures
            r as int * self.spec_sector_size() == self.contents().len(),
    ;

    /// Reads the sector `sector_index` into `buf`, whose length must equal
    /// the sector size. An out-of-bounds read returns an error; on success
    /// `buf` holds exactly that sector's bytes.
    fn read_sector(&self, sector_index: usize, buf: &mut Vec<u8>) -> (r: Result<
        usize,
        Self::Error,
    >)
        requires
            self.wf(),
            old(buf)@.len() == self.spec_sector_size(),
        ensures
            final(buf)@.len() == old(buf)@.len(),
            r matches Ok(n) ==> {
                &&& n as int == self.spec_sector_size()
                &&& (sector_index as int + 1) * self.spec_sector_size() <= self.contents().len()
                &&& final(buf)@ == self.contents().subrange(
                    sector_index as int * self.spec_sector_size(),
                    (sector_index as int + 1) * self.spec_sector_size(),
                )
            },
            (self.spec_reliable() && (sector_index as int + 1) * self.spec_sector_size()
                <= self.contents().len()) ==> r is Ok,
    ;

    /// Writes `buf`, whose length must equal the sector size, over the sector
    /// `sector_index`. An out-of-bounds write returns an error and leaves the
    /// contents unchanged; on success exactly that sector is replaced.
    fn write_sector(&mut self, sector_index: usize, buf: &Vec<u8>) -> (r: Result<
        usize,
        Self::Error,
    >)
        requires
            old(self).wf(),
            buf@.len() == old(self).spec_sector_size(),
        ensures
            final(self).wf(),
            final(self).spec_sector_size() == old(self).spec_sector_size(),
            final(self).contents().len() == old(self).contents().len(),
            r matches Ok(n) ==> {
                &&& n as int == old(self).spec_sector_size()
                &&& (sector_index as int + 1) * old(self).spec_sector_size() <= old(
                    self,
                ).contents().len()
                &&& final(self).contents() == splice_bytes(
                    old(self).contents(),
                    sector_index as int * old(self).spec_sector_size(),
                    buf@,
                )
            },
            r is Err ==> final(self).contents() == old(self).contents(),
            final(self).spec_reliable() == old(self).spec_reliable(),
            (old(self).spec_reliable() && (sector_index as int + 1) * old(self).spec_sector_size()
                <= old(self).contents().len()) ==> r is Ok,
    ;

    /// Reads `buf.len()` bytes starting at the given byte offset. On success
    /// the buffer holds `contents()[offset .. offset + buf.len()]`; the
    /// device's sector geometry is invisible in the result.
    ///
    /// Zero-sized reads succeed and read nothing.
    fn read_at(&self, offset: usize, buf: &mut Vec<u8>) -> (r: Result<usize, Self::Error>)
        requires
            self.wf(),
            offset + old(buf)@.len() <= usize::MAX,
        ensures
            final(buf)@.len() == old(buf)@.len(),
            r matches Ok(n) ==> {
                &&& n == old(buf)@.len()
                &&& old(buf)@.len() > 0 ==> {
                    &&& offset + old(buf)@.len() <= self.contents().len()
                    &&& final(buf)@ == self.contents().subrange(
                        offset as int,
                        offset + old(buf)@.len(),
                    )
                }
                &&& old(buf)@.len() == 0 ==> final(buf)@ == old(buf)@
            },
            old(buf)@.len() == 0 ==> r is Ok,
            (self.spec_reliable() && offset + old(buf)@.len() <= self.contents().len()) ==> r
                is Ok,
    {
        let len = buf.len();
        if len == 0 {
            return Ok(0);
        }
        let ss = self.sector_size();
        let mut tmp = zero_vec(ss);
        let mut written: usize = 0;
        while written < len
            invariant
                self.wf(),
                ss as int == self.spec_sector_size(),
                ss > 0,
                self.contents().len() as int % (ss as int) == 0,
                len == buf@.len(),
                buf@.len() == old(buf)@.len(),
                offset + len <= usize::MAX,
                written <= len,
                tmp@.len() == ss,
                forall|j: int| 0 <= j < written ==> buf@[j] == self.contents()[offset + j],
                written > 0 ==> offset + written <= self.contents().len(),
            decreases len - written,
        {
            let pos = offset + written;
            let sector = pos / ss;
            let sector_off = pos % ss;
            proof {
                if self.spec_reliable() && offset + len <= self.contents().len() {
                    lemma_covered_sector_in_bounds(
                        self.contents().len() as int,
                        ss as int,
                        pos as int,
                    );
                }
            }
            match self.read_sector(sector, &mut tmp) {
                Ok(_) => {},
                Err(e) => {
                    return Err(e);
                },
            }
            proof {
                vstd::arithmetic::div_mod::lemma_fundamental_div_mod(pos as int, ss as int);
                vstd::arithmetic::mul::lemma_mul_is_commutative(ss as int, sector as int);
                assert(sector as int * ss as int + sector_off as int == pos as int);
                vstd::arithmetic::mul::lemma_mul_is_distributive_add_other_way(
                    ss as int,
                    sector as int,
                    1,
                );
                assert((sector as int + 1) * ss as int == sector as int * ss as int + ss as int);
                vstd::arithmetic::mul::lemma_mul_nonnegative(ss as int, sector as int);
                assert(sector as int * ss as int >= 0);
            }
            let avail = ss - sector_off;
            let need = len - written;
            let take = if avail < need {
                avail
            } else {
                need
            };
            let mut k: usize = 0;
            while k < take
                invariant
                    k <= take,
                    take <= ss - sector_off,
                    take <= len - written,
                    written + take <= len,
                    len == buf@.len(),
                    buf@.len() == old(buf)@.len(),
                    tmp@.len() == ss,
                    sector_off < ss,
                    pos == offset + written,
                    sector as int * ss as int >= 0,
                    sector as int * ss as int + sector_off as int == pos as int,
                    (sector as int + 1) * ss as int == sector as int * ss as int + ss as int,
                    tmp@ == self.contents().subrange(
                        sector as int * ss as int,
                        (sector as int + 1) * ss as int,
                    ),
                    (sector as int + 1) * (ss as int) <= self.contents().len(),
                    forall|j: int| 0 <= j < written ==> buf@[j] == self.contents()[offset + j],
                    forall|j: int|
                        written <= j < written + k ==> buf@[j] == self.contents()[offset + j],
                decreases take - k,
            {
                let b = tmp[sector_off + k];
                proof {
                    assert(0 <= sector_off + k < ss);
                    assert(tmp@[(sector_off + k) as int] == self.contents().subrange(
                        sector as int * ss as int,
                        (sector as int + 1) * ss as int,
                    )[(sector_off + k) as int]);
                    assert(self.contents()[sector as int * ss as int + (sector_off + k)] == tmp@[(
                    sector_off + k) as int]);
                    assert(sector as int * ss as int + (sector_off + k) == pos + k);
                }
                buf.set(written + k, b);
                k = k + 1;
            }
            written = written + take;
            proof {
                assert(offset + written <= (sector as int + 1) * (ss as int));
            }
        }
        proof {
            assert(buf@ =~= self.contents().subrange(offset as int, offset + len));
        }
        Ok(len)
    }

    /// Writes `buf.len()` bytes starting at the given byte offset,
    /// read-modify-writing partially covered sectors. On success the device
    /// holds its old contents with `buf` spliced in at `offset`.
    ///
    /// Zero-sized writes succeed and change nothing.
    fn write_at(&mut self, offset: usize, buf: &Vec<u8>) -> (r: Result<usize, Self::Error>)
        requires
            old(self).wf(),
            offset + buf@.len() <= usize::MAX,
        ensures
            final(self).wf(),
            final(self).spec_sector_size() == old(self).spec_sector_size(),
            final(self).contents().len() == old(self).contents().len(),
            r matches Ok(n) ==> {
                &&& n == buf@.len()
                &&& buf@.len() > 0 ==> {
                    &&& offset + buf@.len() <= old(self).contents().len()
                    &&& final(self).contents() == splice_bytes(
                        old(self).contents(),
                        offset as int,
                        buf@,
                    )
                }
                &&& buf@.len() == 0 ==> final(self).contents() == old(self).contents()
            },
            buf@.len() == 0 ==> r is Ok,
            final(self).spec_reliable() == old(self).spec_reliable(),
            (old(self).spec_reliable() && offset + buf@.len() <= old(self).contents().len()) ==> r
                is Ok,
    {
        let len = buf.len();
        if len == 0 {
            return Ok(0);
        }
        let ss = self.sector_size();
        let mut tmp = zero_vec(ss);
        let mut done: usize = 0;
        while done < len
            invariant
                self.wf(),
                ss as int == self.spec_sector_size(),
                self.spec_sector_size() == old(self).spec_sector_size(),
                self.spec_reliable() == old(self).spec_reliable(),
                self.contents().len() == old(self).contents().len(),
                self.contents().len() as int % (ss as int) == 0,
                ss > 0,
                len == buf@.len(),
                offset + len <= usize::MAX,
                done <= len,
                tmp@.len() == ss,
                done > 0 ==> offset + done <= self.contents().len(),
                forall|j: int|
                    0 <= j < self.contents().len() && !(offset <= j < offset + done)
                        ==> self.contents()[j] == old(self).contents()[j],
                forall|j: int| 0 <= j < done ==> self.contents()[offset + j] == buf@[j],
            decreases len - done,
        {
            let pos = offset + done;
            let sector = pos / ss;
            let sector_off = pos % ss;
            proof {
                if self.spec_reliable() && offset + len <= self.contents().len() {
                    lemma_covered_sector_in_bounds(
                        self.contents().len() as int,
                        ss as int,
                        pos as int,
                    );
                }
            }
            match self.read_sector(sector, &mut tmp) {
                Ok(_) => {},
                Err(e) => {
                    return Err(e);
                },
            }
            proof {
                vstd::arithmetic::div_mod::lemma_fundamental_div_mod(pos as int, ss as int);
                vstd::arithmetic::mul::lemma_mul_is_commutative(ss as int, sector as int);
                assert(sector as int * ss as int + sector_off as int == pos as int);
                vstd::arithmetic::mul::lemma_mul_is_distributive_add_other_way(
                    ss as int,
                    sector as int,
                    1,
                );
                assert((sector as int + 1) * ss as int == sector as int * ss as int + ss as int);
                vstd::arithmetic::mul::lemma_mul_nonnegative(ss as int, sector as int);
                assert(sector as int * ss as int >= 0);
            }
            let avail = ss - sector_off;
            let need = len - done;
            let take = if avail < need {
                avail
            } else {
                need
            };
            let ghost pre_loop_tmp = tmp@;
            let mut k: usize = 0;
            while k < take
                invariant
                    k <= take,
                    take <= ss - sector_off,
                    take <= len - done,
                    done + take <= len,
                    len == buf@.len(),
                    tmp@.len() == ss,
                    sector_off < ss,
                    forall|j: int|
                        0 <= j < ss && !(sector_off <= j < sector_off + k) ==> tmp@[j]
                            == pre_loop_tmp[j],
                    forall|j: int| 0 <= j < k ==> #[trigger] tmp@[sector_off + j] == buf@[done + j],
                decreases take - k,
            {
                tmp.set(sector_off + k, buf[done + k]);
                k = k + 1;
            }
            let ghost pre_write = self.contents();
            match self.write_sector(sector, &tmp) {
                Ok(_) => {},
                Err(e) => {
                    return Err(e);
                },
            }
            proof {
                crate::bytes::lemma_splice_bytes_len(pre_write, sector as int * ss as int, tmp@);
                assert forall|j: int|
                    0 <= j < self.contents().len() && !(offset <= j < offset + done
                        + take) implies self.contents()[j] == old(self).contents()[j] by {
                    if sector as int * ss as int <= j < (sector as int + 1) * ss as int {
                        let d = j - sector as int * ss as int;
                        assert(self.contents()[j] == tmp@[d]);
                        assert(tmp@[d] == pre_loop_tmp[d]);
                        assert(pre_loop_tmp[d] == pre_write[j]);
                    } else {
                        assert(self.contents()[j] == pre_write[j]);
                    }
                }
                assert forall|j: int| 0 <= j < done + take implies self.contents()[offset + j]
                    == buf@[j] by {
                    let a = offset + j;
                    if sector as int * ss as int <= a < (sector as int + 1) * ss as int {
                        let d = a - sector as int * ss as int;
                        assert(self.contents()[a] == tmp@[d]);
                        if j < done {
                            assert(tmp@[d] == pre_loop_tmp[d]);
                            assert(pre_loop_tmp[d] == pre_write[a]);
                        } else {
                            assert(d == sector_off + (j - done));
                            assert(tmp@[d] == buf@[done + (j - done)]);
                        }
                    } else {
                        assert(self.contents()[a] == pre_write[a]);
                        assert(j < done);
                    }
                }
            }
            done = done + take;
            proof {
                assert(offset + done <= (sector as int + 1) * (ss as int));
            }
        }
        proof {
            crate::bytes::lemma_splice_bytes_len(old(self).contents(), offset as int, buf@);
            assert(self.contents() =~= splice_bytes(old(self).contents(), offset as int, buf@));
        }
        Ok(len)
    }
}

/// A byte position inside a device whose length is a whole number of
/// sectors lies in an in-bounds sector.
proof fn lemma_covered_sector_in_bounds(len: int, ss: int, pos: int)
    requires
        ss > 0,
        len % ss == 0,
        0 <= pos < len,
    ensures
        (pos / ss + 1) * ss <= len,
{
    let q = len / ss;
    vstd::arithmetic::div_mod::lemma_fundamental_div_mod(len, ss);
    vstd::arithmetic::div_mod::lemma_fundamental_div_mod(pos, ss);
    let sector = pos / ss;
    if sector >= q {
        vstd::arithmetic::mul::lemma_mul_inequality(q, sector, ss);
        vstd::arithmetic::mul::lemma_mul_is_commutative(ss, sector);
        vstd::arithmetic::mul::lemma_mul_is_commutative(ss, q);
        assert(pos >= sector * ss);
        assert(false);
    }
    vstd::arithmetic::mul::lemma_mul_inequality(sector + 1, q, ss);
    vstd::arithmetic::mul::lemma_mul_is_commutative(ss, q);
}

/// Geometry obliviousness of the read path: a successful `read_at` returns
/// `contents()[offset .. offset + n]`, so two devices that hold the same
/// bytes — whatever their sector sizes — yield identical data for every
/// byte range.
pub proof fn lemma_read_at_oblivious_to_sector_size<D1: BlockDevice, D2: BlockDevice>(
    d1: D1,
    d2: D2,
    offset: int,
    n: int,
)
    requires
        d1.contents() == d2.contents(),
    ensures
        d1.contents().subrange(offset, offset + n) == d2.contents().subrange(offset, offset + n),
{
}

/// An in-memory block device over a byte vector, with a configurable sector
/// size. Reads and writes never fail while they stay within the vector.
pub struct MemoryBlockDevice {
    sector_size: usize,
    data: Vec<u8>,
}

impl MemoryBlockDevice {
    /// Wraps `data` as a device with the given sector size; refuses a zero
    /// sector size and a length that is not a whole number of sectors.
    pub fn try_new(sector_size: usize, data: Vec<u8>) -> (r: Option<Self>)
        ensures
            r matches Some(d) ==> {
                &&& d.wf()
                &&& d.spec_sector_size() == sector_size
                &&& d.contents() == data@
            },
            r is None <==> (sector_size == 0 || data@.len() as int % (sector_size as int) != 0),
    {
        if sector_size == 0 {
            return None;
        }
        if data.len() % sector_size != 0 {
            return None;
        }
        Some(MemoryBlockDevice { sector_size, data })
    }

    /// The backing bytes.
    pub fn data(&self) -> (r: &Vec<u8>)
        ensures
            r@ == self.contents(),
    {
        &self.data
    }
}

impl BlockDevice for MemoryBlockDevice {
    type Error = ();

    closed spec fn spec_sector_size(&self) -> int {
        self.sector_size as int
    }

    closed spec fn contents(&self) -> Seq<u8> {
        self.data@
    }

    closed spec fn wf(&self) -> bool {
        self.sector_size > 0 && self.data@.len() as int % (self.sector_size as int) == 0
    }

    closed spec fn spec_reliable(&self) -> bool {
        true
    }

    fn sector_size(&self) -> (r: usize) {
        proof {
            assert(self.spec_sector_size() == self.sector_size as int);
            assert(self.contents() == self.data@);
            assert(self.data@.len() as int % (self.sector_size as int) == 0);
            assert(self.contents().len() as int % (self.sector_size as int) == 0);
        }
        self.sector_size
    }

    fn sector_count(&self) -> (r: usize) {
        let len = self.data.len();
        let ss = self.sector_size;
        let r = len / ss;
        proof {
            vstd::arithmetic::div_mod::lemma_fundamental_div_mod(len as int, ss as int);
            assert(len as int == ss as int * (r as int));
            vstd::arithmetic::mul::lemma_mul_is_commutative(ss as int, r as int);
        }
        r
    }

    fn read_sector(&self, sector_index: usize, buf: &mut Vec<u8>) -> (r: Result<
        usize,
        Self::Error,
    >)
        ensures
            (sector_index as int + 1) * self.spec_sector_size() <= self.contents().len() ==> r
                is Ok,
    {
        let ss = self.sector_size;
        let len = self.data.len();
        let count = len / ss;
        proof {
            assert(self.contents() == self.data@);
            assert(self.spec_sector_size() == self.sector_size as int);
            assert(self.data@.len() as int % (self.sector_size as int) == 0);
        }
        if sector_index >= count {
            proof {
                vstd::arithmetic::div_mod::lemma_fundamental_div_mod(len as int, ss as int);
                assert(len as int == ss as int * (count as int));
                vstd::arithmetic::mul::lemma_mul_is_commutative(ss as int, count as int);
                vstd::arithmetic::mul::lemma_mul_inequality(
                    count as int + 1,
                    sector_index as int + 1,
                    ss as int,
                );
                vstd::arithmetic::mul::lemma_mul_is_distributive_add_other_way(
                    ss as int,
                    count as int,
                    1,
                );
                assert((sector_index as int + 1) * (ss as int) > len as int);
            }
            return Err(());
        }
        proof {
            vstd::arithmetic::div_mod::lemma_fundamental_div_mod(len as int, ss as int);
            assert(len as int == ss as int * (count as int));
            vstd::arithmetic::mul::lemma_mul_is_commutative(ss as int, count as int);
            vstd::arithmetic::mul::lemma_mul_inequality(
                sector_index as int + 1,
                count as int,
                ss as int,
            );
            vstd::arithmetic::mul::lemma_mul_is_distributive_add_other_way(
                ss as int,
                sector_index as int,
                1,
            );
            assert((sector_index as int + 1) * ss as int == sector_index as int * ss as int
                + ss as int);
            assert(sector_index as int * ss as int + ss as int <= len as int);
        }
        let start = sector_index * ss;
        let mut k: usize = 0;
        while k < ss
            invariant
                k <= ss,
                ss > 0,
                buf@.len() == ss,
                start as int == sector_index as int * ss as int,
                start + ss <= self.data@.len(),
                self.data@.len() <= usize::MAX,
                forall|j: int| 0 <= j < k ==> buf@[j] == self.data@[start + j],
            decreases ss - k,
        {
            let b = self.data[start + k];
            buf.set(k, b);
            k = k + 1;
        }
        proof {
            assert(buf@ =~= self.contents().subrange(
                sector_index as int * ss as int,
                (sector_index as int + 1) * ss as int,
            ));
        }
        Ok(ss)
    }

    fn write_sector(&mut self, sector_index: usize, buf: &Vec<u8>) -> (r: Result<
        usize,
        Self::Error,
    >)
        ensures
            (sector_index as int + 1) * old(self).spec_sector_size() <= old(
                self,
            ).contents().len() ==> r is Ok,
    {
        let ss = self.sector_size;
        let len = self.data.len();
        let count = len / ss;
        proof {
            assert(self.contents() == self.data@);
            assert(self.spec_sector_size() == self.sector_size as int);
            assert(self.data@.len() as int % (self.sector_size as int) == 0);
        }
        if sector_index >= count {
            proof {
                vstd::arithmetic::div_mod::lemma_fundamental_div_mod(len as int, ss as int);
                assert(len as int == ss as int * (count as int));
                vstd::arithmetic::mul::lemma_mul_is_commutative(ss as int, count as int);
                vstd::arithmetic::mul::lemma_mul_inequality(
                    count as int + 1,
                    sector_index as int + 1,
                    ss as int,
                );
                vstd::arithmetic::mul::lemma_mul_is_distributive_add_other_way(
                    ss as int,
                    count as int,
                    1,
                );
                assert((sector_index as int + 1) * (ss as int) > len as int);
            }
            return Err(());
        }
        proof {
            vstd::arithmetic::div_mod::lemma_fundamental_div_mod(len as int, ss as int);
            assert(len as int == ss as int * (count as int));
            vstd::arithmetic::mul::lemma_mul_is_commutative(ss as int, count as int);
            vstd::arithmetic::mul::lemma_mul_inequality(
                sector_index as int + 1,
                count as int,
                ss as int,
            );
            vstd::arithmetic::mul::lemma_mul_is_distributive_add_other_way(
                ss as int,
                sector_index as int,
                1,
            );
            assert((sector_index as int + 1) * ss as int == sector_index as int * ss as int
                + ss as int);
            assert(sector_index as int * ss as int + ss as int <= len as int);
        }
        let start = sector_index * ss;
        let mut k: usize = 0;
        while k < ss
            invariant
                k <= ss,
                ss > 0,
                ss == self.sector_size,
                buf@.len() == ss,
                start as int == sector_index as int * ss as int,
                start + ss <= self.data@.len(),
                self.data@.len() == old(self).data@.len(),
                self.sector_size == old(self).sector_size,
                self.data@.len() <= usize::MAX,
                forall|j: int| 0 <= j < k ==> self.data@[start + j] == buf@[j],
                forall|j: int|
                    0 <= j < self.data@.len() && !(start <= j < start + k) ==> self.data@[j] == old(
                        self,
                    ).data@[j],
            decreases ss - k,
        {
            let b = buf[k];
            self.data.set(start + k, b);
            k = k + 1;
        }
        proof {
            crate::bytes::lemma_splice_bytes_len(
                old(self).contents(),
                sector_index as int * ss as int,
                buf@,
            );
            assert(self.contents() =~= splice_bytes(
                old(self).contents(),
                sector_index as int * ss as int,
                buf@,
            ));
        }
        Ok(ss)
    }
}

} // verus!

//! Directory entries and the directory engine.
//!
//! A directory's data blocks hold variable-length entries packed back to
//! back: `{inode, total_size, name_length, type?, name}`. `total_size` is
//! the slot stride, always at least the 8-byte header and 4-byte aligned;
//! the slots of a well-formed block tile `[0, block_size)` exactly, the
//! last slot stretching to the block end. An entry with inode 0 is a
//! tombstone: its stride still counts, but enumeration skips it.

use vstd::prelude::*;

use crate::address::InodeAddress;
use crate::bytes::le16_at;
use crate::bytes::le32_at;
use crate::bytes::read_u16_le;
use crate::bytes::read_u32_le;
use crate::bytes::write_u16_le;
use crate::bytes::write_u32_le;
use crate::bytes::zero_vec;
use crate::device::BlockDevice;
use crate::error::Error;
use crate::inode::Directory;
use crate::inode::Inode;
use crate::inode::InodeView;
use crate::inode::Type;
use crate::spec_block_byte_offset;
use crate::spec_inode_byte_offset;
use crate::superblock::Superblock;
use crate::Ext2Fs;

verus! {

/// The type indicator a directory entry carries when the volume's
/// required features say entries have types.
#[derive(Debug, Copy, Clone, PartialEq, Eq, Structural)]
pub enum DirType {
    RegularFile,
    Directory,
    CharacterDevice,
    BlockDevice,
    Fifo,
    UnixSocket,
    SymLink,
}

/// The on-disk byte of a type indicator.
pub open spec fn spec_dir_type_byte(t: DirType) -> u8 {
    match t {
        DirType::RegularFile => 1,
        DirType::Directory => 2,
        DirType::CharacterDevice => 3,
        DirType::BlockDevice => 4,
        DirType::Fifo => 5,
        DirType::UnixSocket => 6,
        DirType::SymLink => 7,
    }
}

/// The type indicator named by an on-disk byte, if any.
pub open spec fn spec_dir_type_of_byte(b: u8) -> Option<DirType> {
    if b == 1 {
        Some(DirType::RegularFile)
    } else if b == 2 {
        Some(DirType::Directory)
    } else if b == 3 {
        Some(DirType::CharacterDevice)
    } else if b == 4 {
        Some(DirType::BlockDevice)
    } else if b == 5 {
        Some(DirType::Fifo)
    } else if b == 6 {
        Some(DirType::UnixSocket)
    } else if b == 7 {
        Some(DirType::SymLink)
    } else {
        None
    }
}

pub fn dir_type_byte(t: DirType) -> (r: u8)
    ensures
        r == spec_dir_type_byte(t),
        spec_dir_type_of_byte(r) == Some(t),
{
    match t {
        DirType::RegularFile => 1,
        DirType::Directory => 2,
        DirType::CharacterDevice => 3,
        DirType::BlockDevice => 4,
        DirType::Fifo => 5,
        DirType::UnixSocket => 6,
        DirType::SymLink => 7,
    }
}

pub fn dir_type_of_byte(b: u8) -> (r: Option<DirType>)
    ensures
        r == spec_dir_type_of_byte(b),
{
    if b == 1 {
        Some(DirType::RegularFile)
    } else if b == 2 {
        Some(DirType::Directory)
    } else if b == 3 {
        Some(DirType::CharacterDevice)
    } else if b == 4 {
        Some(DirType::BlockDevice)
    } else if b == 5 {
        Some(DirType::Fifo)
    } else if b == 6 {
        Some(DirType::UnixSocket)
    } else if b == 7 {
        Some(DirType::SymLink)
    } else {
        None
    }
}

/// The directory-entry type that corresponds to an inode's type; an
/// unknown inode type has none.
pub open spec fn spec_dir_type_of_inode_type(t: Type) -> Option<DirType> {
    match t {
        Type::RegularFile => Some(DirType::RegularFile),
        Type::Directory => Some(DirType::Directory),
        Type::CharacterDevice => Some(DirType::CharacterDevice),
        Type::BlockDevice => Some(DirType::BlockDevice),
        Type::Fifo => Some(DirType::Fifo),
        Type::UnixSocket => Some(DirType::UnixSocket),
        Type::SymLink => Some(DirType::SymLink),
        Type::Unknown => None,
    }
}

pub fn dir_type_of_inode_type(t: Type) -> (r: Option<DirType>)
    ensures
        r == spec_dir_type_of_inode_type(t),
{
    match t {
        Type::RegularFile => Some(DirType::RegularFile),
        Type::Directory => Some(DirType::Directory),
        Type::CharacterDevice => Some(DirType::CharacterDevice),
        Type::BlockDevice => Some(DirType::BlockDevice),
        Type::Fifo => Some(DirType::Fifo),
        Type::UnixSocket => Some(DirType::UnixSocket),
        Type::SymLink => Some(DirType::SymLink),
        Type::Unknown => None,
    }
}

/// One directory entry, as decoded from a block.
#[derive(Debug, PartialEq, Eq)]
pub struct DirEntry {
    /// 0 marks a tombstone.
    pub inode: u32,
    /// The slot stride.
    pub total_size: u16,
    pub name_length: u16,
    /// The raw type byte; present exactly when the volume has entry types.
    pub type_indicator: Option<u8>,
    pub name_bytes: Vec<u8>,
}

/// The mathematical image of a directory entry.
#[verifier::ext_equal]
pub struct DirEntryView {
    pub inode: u32,
    pub total_size: u16,
    pub name_length: u16,
    pub type_indicator: Option<u8>,
    pub name_bytes: Seq<u8>,
}

impl View for DirEntry {
    type V = DirEntryView;

    open spec fn view(&self) -> DirEntryView {
        DirEntryView {
            inode: self.inode,
            total_size: self.total_size,
            name_length: self.name_length,
            type_indicator: self.type_indicator,
            name_bytes: self.name_bytes@,
        }
    }
}

/// The entry encoded at byte offset `off` of `data`; the name is clamped
/// to the bytes the buffer actually holds.
pub open spec fn spec_decode_dir_entry(data: Seq<u8>, have_type: bool, off: int) -> DirEntryView {
    let nl_lsb = data[off + 6];
    let ind = data[off + 7];
    let name_length: u16 = if have_type {
        nl_lsb as u16
    } else {
        ((nl_lsb as int) + 0x100 * (ind as int)) as u16
    };
    let take = if off + 8 + name_length <= data.len() {
        name_length as int
    } else {
        data.len() - off - 8
    };
    DirEntryView {
        inode: le32_at(data, off),
        total_size: le16_at(data, off + 4),
        name_length,
        type_indicator: if have_type {
            Some(ind)
        } else {
            None
        },
        name_bytes: data.subrange(off + 8, off + 8 + take),
    }
}

impl DirEntry {
    /// The entry is well formed for a volume when the name bytes match the
    /// declared length and the type byte is present exactly when the
    /// volume's entries carry types.
    pub open spec fn wf(&self, have_type: bool) -> bool {
        &&& self.name_bytes@.len() == self.name_length
        &&& (have_type ==> self.type_indicator is Some && self.name_length <= 255)
        &&& (!have_type ==> self.type_indicator is None)
    }

    /// The slot size an entry with a name of `name_length` bytes needs:
    /// the 8-byte header plus the name, rounded up to 4 bytes.
    pub fn size(name_length: u16) -> (r: u16)
        requires
            name_length <= 0xFF00,
        ensures
            r as int == spec_align4(8 + name_length as int),
            r >= 8,
            r as int % 4 == 0,
            8 + name_length as int <= r as int <= 8 + name_length as int + 3,
    {
        let unaligned: u32 = 8 + (name_length as u32);
        let aligned: u32 = ((unaligned + 3) / 4) * 4;
        aligned as u16
    }

    /// Parses the entry at byte offset `offset` of `data`.
    pub fn from(dir_entries_have_type: bool, data: &Vec<u8>, offset: usize) -> (r: DirEntry)
        requires
            offset + 8 <= data@.len(),
        ensures
            r@ == spec_decode_dir_entry(data@, dir_entries_have_type, offset as int),
    {
        let n = data.len();
        assert(offset + 8 <= n);
        let inode = read_u32_le(data, offset);
        let total_size = read_u16_le(data, offset + 4);
        let nl_lsb = data[offset + 6];
        let ind = data[offset + 7];
        let name_length: u16 = if dir_entries_have_type {
            nl_lsb as u16
        } else {
            (nl_lsb as u16) + 0x100 * (ind as u16)
        };
        let type_indicator = if dir_entries_have_type {
            Some(ind)
        } else {
            None
        };
        let avail = n - offset - 8;
        let take: usize = if (name_length as usize) <= avail {
            name_length as usize
        } else {
            avail
        };
        let name_bytes = crate::bytes::read_bytes(data, offset + 8, take);
        DirEntry { inode, total_size, name_length, type_indicator, name_bytes }
    }

    /// Serializes the entry: the 8-byte header followed by the name bytes,
    /// with no padding. Parsing the result gives back exactly this entry.
    pub fn serialize(&self, dir_entries_have_type: bool) -> (r: Vec<u8>)
        requires
            self.wf(dir_entries_have_type),
        ensures
            r@.len() == 8 + self.name_bytes@.len(),
            spec_decode_dir_entry(r@, dir_entries_have_type, 0) == self@,
    {
        let mut r = crate::bytes::zero_vec(8 + self.name_bytes.len());
        write_u32_le(&mut r, 0, self.inode);
        write_u16_le(&mut r, 4, self.total_size);
        let nl_lsb = (self.name_length % 0x100) as u8;
        let msb_or_type: u8 = match self.type_indicator {
            Some(t) => t,
            None => (self.name_length / 0x100) as u8,
        };
        r.set(6, nl_lsb);
        r.set(7, msb_or_type);
        crate::bytes::write_bytes(&mut r, 8, &self.name_bytes);
        proof {
            crate::bytes::lemma_splice_bytes_len(r@, 8, self.name_bytes@);
            let d = spec_decode_dir_entry(r@, dir_entries_have_type, 0);
            assert(d.name_bytes =~= self.name_bytes@);
            assert(d =~= self@);
        }
        r
    }

    /// The name as raw bytes.
    pub fn name(&self) -> (r: &Vec<u8>)
        ensures
            r@ == self@.name_bytes,
    {
        &self.name_bytes
    }

    /// The entry's type indicator, when the volume carries one and the
    /// byte names a known type.
    pub fn typ(&self) -> (r: Option<DirType>)
        ensures
            r == match self@.type_indicator {
                Some(b) => spec_dir_type_of_byte(b),
                None => None::<DirType>,
            },
    {
        match self.type_indicator {
            Some(b) => dir_type_of_byte(b),
            None => None,
        }
    }

    /// The entry's inode address; a tombstone has none.
    pub fn inode(&self) -> (r: Option<InodeAddress>)
        ensures
            r matches Some(a) ==> a.spec_get() == self@.inode && self@.inode != 0,
            r is None <==> self@.inode == 0,
    {
        InodeAddress::new(self.inode)
    }
}

/// What a successful slot split at offset `o` does to the parsed
/// entries: the found entry keeps every field but its stride shrinks to
/// the space its own record occupies, the new entry follows it in the
/// freed slack, and every entry before and after is untouched.
pub open spec fn spec_split_insertion_at(
    d0: Seq<u8>,
    d1: Seq<u8>,
    have_type: bool,
    inode_address: u32,
    name: Seq<u8>,
    typ: DirType,
    o: int,
) -> bool {
    let eo = spec_decode_dir_entry(d0, have_type, o);
    let occ = spec_align4(8 + eo.name_length as int);
    let en = spec_decode_dir_entry(d1, have_type, o + occ);
    &&& 0 <= o
    &&& spec_dir_entries_from(d0, have_type, 0) == spec_entries_between(d0, have_type, 0, o)
        + seq![eo] + spec_dir_entries_from(d0, have_type, o + eo.total_size as int)
    &&& spec_dir_entries_from(d1, have_type, 0) == spec_entries_between(d0, have_type, 0, o)
        + seq![(DirEntryView { total_size: occ as u16, ..eo })] + seq![en]
        + spec_dir_entries_from(d0, have_type, o + eo.total_size as int)
    &&& en.inode == inode_address
    &&& en.name_bytes == name
    &&& en.name_length == name.len()
    &&& en.type_indicator == (if have_type {
        Some(spec_dir_type_byte(typ))
    } else {
        None::<u8>
    })
}

/// Some offset witnesses the slot split.
pub open spec fn spec_split_insertion(
    d0: Seq<u8>,
    d1: Seq<u8>,
    have_type: bool,
    inode_address: u32,
    name: Seq<u8>,
    typ: DirType,
) -> bool {
    exists|o: int|
        #[trigger] spec_split_insertion_at(d0, d1, have_type, inode_address, name, typ, o)
}

/// Builds the on-disk record of one entry: the 8-byte header carrying
/// `inode_address`, the stride `total_size`, the name length and the type
/// byte (0 when the volume has no entry types), followed by the name.
fn build_dir_entry_record(
    dir_entries_have_type: bool,
    name: &Vec<u8>,
    inode_address: InodeAddress,
    typ: DirType,
    total_size: u16,
) -> (r: Vec<u8>)
    requires
        1 <= name@.len() <= 255,
    ensures
        r@.len() == 8 + name@.len(),
        le32_at(r@, 0) == inode_address.spec_get(),
        inode_address.spec_get() != 0,
        le16_at(r@, 4) == total_size,
        r@[6] == name@.len() as u8,
        dir_entries_have_type ==> r@[7] == spec_dir_type_byte(typ),
        !dir_entries_have_type ==> r@[7] == 0,
        r@.subrange(8, 8 + name@.len() as int) == name@,
{
    let mut r = zero_vec(8 + name.len());
    write_u32_le(&mut r, 0, inode_address.get());
    write_u16_le(&mut r, 4, total_size);
    r.set(6, name.len() as u8);
    let type_byte: u8 = if dir_entries_have_type {
        dir_type_byte(typ)
    } else {
        0
    };
    r.set(7, type_byte);
    crate::bytes::write_bytes(&mut r, 8, name);
    proof {
        crate::bytes::lemma_splice_bytes_len(r@.subrange(0, 8 + name@.len() as int), 8, name@);
        assert(r@.subrange(8, 8 + name@.len() as int) =~= name@);
    }
    r
}

/// `x` rounded up to the next multiple of 4.
pub open spec fn spec_align4(x: int) -> int {
    ((x + 3) / 4) * 4
}

/// The declared name length of the entry at byte offset `off`.
pub open spec fn spec_entry_name_length(data: Seq<u8>, have_type: bool, off: int) -> int {
    if have_type {
        data[off + 6] as int
    } else {
        data[off + 6] as int + 0x100 * (data[off + 7] as int)
    }
}

/// One slot's header is sound: a stride of at least 8 bytes, 4-byte
/// aligned, no shorter than the space its own entry occupies, landing
/// within the block.
pub open spec fn spec_wf_dir_slot(data: Seq<u8>, have_type: bool, off: int) -> bool {
    let ts = le16_at(data, off + 4) as int;
    &&& ts >= 8
    &&& ts % 4 == 0
    &&& spec_align4(8 + spec_entry_name_length(data, have_type, off)) <= ts
}

/// The slots of `data` tile `[off, data.len())` exactly: each slot's
/// stride is at least 8 bytes, 4-byte aligned, at least the aligned space
/// its own entry occupies, and lands the walk on the next slot, with the
/// last slot ending at the block end.
pub open spec fn spec_wf_dir_block_from(data: Seq<u8>, have_type: bool, off: int) -> bool
    decreases data.len() - off
        when 0 <= off <= data.len()
{
    if off == data.len() {
        true
    } else if off + 8 > data.len() {
        false
    } else {
        let ts = le16_at(data, off + 4) as int;
        &&& spec_wf_dir_slot(data, have_type, off)
        &&& off + ts <= data.len()
        &&& spec_wf_dir_block_from(data, have_type, off + ts)
    }
}

/// The slot walk from `from` lands exactly on `to`.
pub open spec fn spec_dir_walk_reaches(data: Seq<u8>, have_type: bool, from: int, to: int) -> bool
    decreases to - from
        when 0 <= from <= to
{
    if from == to {
        true
    } else if from + 8 <= data.len() {
        let ts = le16_at(data, from + 4) as int;
        &&& spec_wf_dir_slot(data, have_type, from)
        &&& from + ts <= to
        &&& spec_dir_walk_reaches(data, have_type, from + ts, to)
    } else {
        false
    }
}

/// Slot tiling depends only on the bytes at and after `off`.
pub proof fn lemma_wf_dir_block_frame(d1: Seq<u8>, d2: Seq<u8>, have_type: bool, off: int)
    requires
        d1.len() == d2.len(),
        0 <= off <= d1.len(),
        forall|j: int| off <= j < d1.len() ==> d1[j] == d2[j],
        spec_wf_dir_block_from(d1, have_type, off),
    ensures
        spec_wf_dir_block_from(d2, have_type, off),
    decreases d1.len() - off,
{
    if off == d1.len() {
    } else {
        assert(le16_at(d2, off + 4) == le16_at(d1, off + 4));
        let ts = le16_at(d1, off + 4) as int;
        lemma_wf_dir_block_frame(d1, d2, have_type, off + ts);
    }
}

/// A walk that lands on `to` depends only on the bytes before `to`.
pub proof fn lemma_dir_walk_frame(d1: Seq<u8>, d2: Seq<u8>, have_type: bool, from: int, to: int)
    requires
        d1.len() == d2.len(),
        0 <= from <= to <= d1.len(),
        forall|j: int| 0 <= j < to ==> d1[j] == d2[j],
        spec_dir_walk_reaches(d1, have_type, from, to),
    ensures
        spec_dir_walk_reaches(d2, have_type, from, to),
    decreases to - from,
{
    if from == to {
    } else {
        let ts = le16_at(d1, from + 4) as int;
        assert(le16_at(d2, from + 4) == le16_at(d1, from + 4));
        lemma_dir_walk_frame(d1, d2, have_type, from + ts, to);
    }
}

/// Extending a walk by the slot that starts where it landed.
pub proof fn lemma_dir_walk_extend(data: Seq<u8>, have_type: bool, from: int, to: int)
    requires
        0 <= from <= to,
        to + 8 <= data.len(),
        spec_dir_walk_reaches(data, have_type, from, to),
        spec_wf_dir_slot(data, have_type, to),
    ensures
        spec_dir_walk_reaches(data, have_type, from, to + le16_at(data, to + 4) as int),
    decreases to - from,
{
    let ts0 = le16_at(data, to + 4) as int;
    if from == to {
        assert(spec_dir_walk_reaches(data, have_type, to + ts0, to + ts0));
        assert(spec_dir_walk_reaches(data, have_type, to, to + ts0));
    } else {
        let ts = le16_at(data, from + 4) as int;
        lemma_dir_walk_extend(data, have_type, from + ts, to);
    }
}

/// A walk that lands on a tiled tail makes the whole range tiled.
pub proof fn lemma_dir_walk_wf(data: Seq<u8>, have_type: bool, from: int, to: int)
    requires
        0 <= from <= to <= data.len(),
        spec_dir_walk_reaches(data, have_type, from, to),
        spec_wf_dir_block_from(data, have_type, to),
    ensures
        spec_wf_dir_block_from(data, have_type, from),
    decreases to - from,
{
    if from == to {
    } else {
        let ts = le16_at(data, from + 4) as int;
        lemma_dir_walk_wf(data, have_type, from + ts, to);
    }
}

/// Checks at run time that a block's slots tile it exactly.
pub fn check_dir_block(data: &Vec<u8>, dir_entries_have_type: bool) -> (r: bool)
    requires
        data@.len() <= 0x10_0000,
    ensures
        r == spec_wf_dir_block_from(data@, dir_entries_have_type, 0),
{
    let len = data.len();
    let mut offset: usize = 0;
    while offset + 8 <= len
        invariant
            offset <= len,
            len == data@.len(),
            len <= 0x10_0000,
            spec_dir_walk_reaches(data@, dir_entries_have_type, 0, offset as int),
        decreases len - offset,
    {
        let ts = read_u16_le(data, offset + 4);
        let nl_lsb = data[offset + 6];
        let nl_msb = data[offset + 7];
        let name_length: u32 = if dir_entries_have_type {
            nl_lsb as u32
        } else {
            (nl_lsb as u32) + 0x100 * (nl_msb as u32)
        };
        let occupied: u32 = ((8 + name_length + 3) / 4) * 4;
        if ts < 8 || (ts as usize) % 4 != 0 || offset + (ts as usize) > len || (ts as u32)
            < occupied {
            proof {
                lemma_dir_walk_wf_negative(data@, dir_entries_have_type, offset as int);
            }
            return false;
        }
        proof {
            lemma_dir_walk_extend(data@, dir_entries_have_type, 0, offset as int);
        }
        offset = offset + ts as usize;
    }
    if offset == len {
        proof {
            lemma_dir_walk_wf(data@, dir_entries_have_type, 0, offset as int);
        }
        true
    } else {
        proof {
            lemma_dir_walk_wf_negative(data@, dir_entries_have_type, offset as int);
        }
        false
    }
}

/// When the walk lands on a slot that is itself invalid, the whole block
/// is not tiled.
proof fn lemma_dir_walk_wf_negative(data: Seq<u8>, have_type: bool, off: int)
    requires
        0 <= off <= data.len(),
        spec_dir_walk_reaches(data, have_type, 0, off),
        !spec_wf_dir_block_from(data, have_type, off),
    ensures
        !spec_wf_dir_block_from(data, have_type, 0),
{
    lemma_dir_walk_wf_negative_from(data, have_type, 0, off);
}

proof fn lemma_dir_walk_wf_negative_from(data: Seq<u8>, have_type: bool, from: int, off: int)
    requires
        0 <= from <= off <= data.len(),
        spec_dir_walk_reaches(data, have_type, from, off),
        !spec_wf_dir_block_from(data, have_type, off),
    ensures
        !spec_wf_dir_block_from(data, have_type, from),
    decreases off - from,
{
    if from == off {
    } else {
        let ts = le16_at(data, from + 4) as int;
        if spec_wf_dir_block_from(data, have_type, from) {
            lemma_dir_walk_wf_negative_from(data, have_type, from + ts, off);
        }
    }
}

/// The entries of a block parsed in slot order from `off`, tombstones
/// included; a stride that is shorter than a header or runs past the
/// block ends the walk.
pub open spec fn spec_dir_entries_from(data: Seq<u8>, have_type: bool, off: int) -> Seq<
    DirEntryView,
>
    decreases data.len() - off
        when 0 <= off <= data.len()
{
    if off + 8 > data.len() {
        Seq::empty()
    } else {
        let e = spec_decode_dir_entry(data, have_type, off);
        if e.total_size < 8 || off + e.total_size > data.len() {
            Seq::empty()
        } else {
            seq![e] + spec_dir_entries_from(data, have_type, off + e.total_size as int)
        }
    }
}

/// The entries that are not tombstones, in order.
pub open spec fn spec_live_entries(es: Seq<DirEntryView>) -> Seq<DirEntryView>
    decreases es.len(),
{
    if es.len() == 0 {
        Seq::empty()
    } else {
        let rest = spec_live_entries(es.drop_last());
        if es.last().inode != 0 {
            rest.push(es.last())
        } else {
            rest
        }
    }
}

/// Keeping only live entries distributes over appending one entry.
pub proof fn lemma_live_entries_push(es: Seq<DirEntryView>, e: DirEntryView)
    ensures
        spec_live_entries(es.push(e)) == if e.inode != 0 {
            spec_live_entries(es).push(e)
        } else {
            spec_live_entries(es)
        },
{
    assert(es.push(e).drop_last() =~= es);
}

/// The entries of the slots a walk passes between `from` and `to`, in
/// order.
pub open spec fn spec_entries_between(data: Seq<u8>, have_type: bool, from: int, to: int) -> Seq<
    DirEntryView,
>
    decreases to - from
        when 0 <= from <= to
{
    if from >= to {
        Seq::empty()
    } else if from + 8 > data.len() {
        Seq::empty()
    } else {
        let e = spec_decode_dir_entry(data, have_type, from);
        if e.total_size < 8 || from + e.total_size > to {
            Seq::empty()
        } else {
            seq![e] + spec_entries_between(data, have_type, from + e.total_size as int, to)
        }
    }
}

/// A parse splits at any offset the slot walk lands on: the entries
/// walked so far, then the parse of the rest.
pub proof fn lemma_parse_decompose(data: Seq<u8>, have_type: bool, from: int, o: int)
    requires
        0 <= from <= o <= data.len(),
        spec_dir_walk_reaches(data, have_type, from, o),
    ensures
        spec_dir_entries_from(data, have_type, from) == spec_entries_between(
            data,
            have_type,
            from,
            o,
        ) + spec_dir_entries_from(data, have_type, o),
    decreases o - from,
{
    if from == o {
        assert(spec_entries_between(data, have_type, from, o) =~= Seq::<DirEntryView>::empty());
        assert(Seq::<DirEntryView>::empty() + spec_dir_entries_from(data, have_type, o)
            =~= spec_dir_entries_from(data, have_type, o));
    } else {
        let ts = le16_at(data, from + 4) as int;
        let e = spec_decode_dir_entry(data, have_type, from);
        assert(e.total_size as int == ts);
        lemma_parse_decompose(data, have_type, from + ts, o);
        assert(spec_dir_entries_from(data, have_type, from) == seq![e]
            + spec_dir_entries_from(data, have_type, from + ts));
        assert(spec_entries_between(data, have_type, from, o) == seq![e] + spec_entries_between(
            data,
            have_type,
            from + ts,
            o,
        ));
        assert(seq![e] + (spec_entries_between(data, have_type, from + ts, o)
            + spec_dir_entries_from(data, have_type, o)) =~= (seq![e] + spec_entries_between(
            data,
            have_type,
            from + ts,
            o,
        )) + spec_dir_entries_from(data, have_type, o));
    }
}

/// The walked entries depend only on the bytes before the landing offset:
/// each passed slot declares a stride that covers its own name.
pub proof fn lemma_entries_between_frame(
    d0: Seq<u8>,
    d1: Seq<u8>,
    have_type: bool,
    from: int,
    to: int,
)
    requires
        d0.len() == d1.len(),
        0 <= from <= to <= d0.len(),
        forall|j: int| 0 <= j < to ==> d0[j] == d1[j],
        spec_dir_walk_reaches(d0, have_type, from, to),
    ensures
        spec_entries_between(d1, have_type, from, to) == spec_entries_between(
            d0,
            have_type,
            from,
            to,
        ),
    decreases to - from,
{
    if from == to {
    } else {
        let ts = le16_at(d0, from + 4) as int;
        assert(le16_at(d1, from + 4) == le16_at(d0, from + 4));
        let e0 = spec_decode_dir_entry(d0, have_type, from);
        let e1 = spec_decode_dir_entry(d1, have_type, from);
        assert(spec_entry_name_length(d1, have_type, from) == spec_entry_name_length(
            d0,
            have_type,
            from,
        ));
        let nl = spec_entry_name_length(d0, have_type, from);
        assert(8 + nl <= spec_align4(8 + nl));
        assert(from + 8 + nl <= from + ts <= to);
        assert(e0.name_bytes =~= e1.name_bytes);
        assert(e1 =~= e0);
        lemma_entries_between_frame(d0, d1, have_type, from + ts, to);
    }
}

/// A tiled tail parses the same in two blocks that agree from its start.
pub proof fn lemma_parse_frame_wf(d0: Seq<u8>, d1: Seq<u8>, have_type: bool, off: int)
    requires
        d0.len() == d1.len(),
        0 <= off <= d0.len(),
        forall|j: int| off <= j < d0.len() ==> d0[j] == d1[j],
        spec_wf_dir_block_from(d0, have_type, off),
    ensures
        spec_dir_entries_from(d1, have_type, off) == spec_dir_entries_from(d0, have_type, off),
    decreases d0.len() - off,
{
    if off == d0.len() {
    } else {
        let ts = le16_at(d0, off + 4) as int;
        assert(le16_at(d1, off + 4) == le16_at(d0, off + 4));
        let e0 = spec_decode_dir_entry(d0, have_type, off);
        let e1 = spec_decode_dir_entry(d1, have_type, off);
        assert(spec_entry_name_length(d1, have_type, off) == spec_entry_name_length(
            d0,
            have_type,
            off,
        ));
        let nl = spec_entry_name_length(d0, have_type, off);
        assert(8 + nl <= spec_align4(8 + nl));
        assert(off + 8 + nl <= off + ts <= d0.len());
        assert(e0.name_bytes =~= e1.name_bytes);
        assert(e1 =~= e0);
        lemma_parse_frame_wf(d0, d1, have_type, off + ts);
        assert(spec_dir_entries_from(d0, have_type, off) == seq![e0] + spec_dir_entries_from(
            d0,
            have_type,
            off + ts,
        ));
        assert(spec_dir_entries_from(d1, have_type, off) == seq![e1] + spec_dir_entries_from(
            d1,
            have_type,
            off + ts,
        ));
    }
}

/// A live entry of `es` is kept by the tombstone filter.
pub proof fn lemma_live_entries_contains(es: Seq<DirEntryView>, e: DirEntryView)
    requires
        es.contains(e),
        e.inode != 0,
    ensures
        spec_live_entries(es).contains(e),
    decreases es.len(),
{
    let i = choose|i: int| 0 <= i < es.len() && es[i] == e;
    if i == es.len() - 1 {
        assert(spec_live_entries(es) == spec_live_entries(es.drop_last()).push(e));
        assert(spec_live_entries(es)[spec_live_entries(es).len() - 1] == e);
    } else {
        assert(es.drop_last()[i] == e);
        assert(es.drop_last().contains(e));
        lemma_live_entries_contains(es.drop_last(), e);
        let j = choose|j: int|
            0 <= j < spec_live_entries(es.drop_last()).len() && spec_live_entries(
                es.drop_last(),
            )[j] == e;
        if es.last().inode != 0 {
            assert(spec_live_entries(es)[j] == e);
        } else {
            assert(spec_live_entries(es)[j] == e);
        }
    }
}

/// An offset the slot walk lands on carries one of the parsed entries,
/// when the block tiles from there on.
pub proof fn lemma_walk_entry_in_parse(data: Seq<u8>, have_type: bool, from: int, o: int)
    requires
        0 <= from <= o,
        o + 8 <= data.len(),
        spec_dir_walk_reaches(data, have_type, from, o),
        spec_wf_dir_block_from(data, have_type, o),
    ensures
        spec_dir_entries_from(data, have_type, from).contains(
            spec_decode_dir_entry(data, have_type, o),
        ),
    decreases o - from,
{
    let e = spec_decode_dir_entry(data, have_type, o);
    if from == o {
        let parsed = spec_dir_entries_from(data, have_type, o);
        assert(parsed == seq![e] + spec_dir_entries_from(data, have_type, o + e.total_size as int));
        assert(parsed[0] == e);
    } else {
        let ts = le16_at(data, from + 4) as int;
        lemma_walk_entry_in_parse(data, have_type, from + ts, o);
        let rest = spec_dir_entries_from(data, have_type, from + ts);
        let head = spec_decode_dir_entry(data, have_type, from);
        assert(spec_dir_entries_from(data, have_type, from) == seq![head] + rest);
        let i = choose|i: int| 0 <= i < rest.len() && rest[i] == e;
        assert((seq![head] + rest)[i + 1] == e);
    }
}

/// The bytes of block `b` within the device contents.
pub open spec fn spec_dir_block_bytes(contents: Seq<u8>, sb: Superblock, b: u32) -> Seq<u8> {
    contents.subrange(
        spec_block_byte_offset(sb, b),
        spec_block_byte_offset(sb, b) + sb.spec_block_size() as int,
    )
}

/// The live entries of the first `k` direct blocks of a directory inode,
/// concatenated in block order; an absent block contributes nothing.
pub open spec fn spec_list_dir_upto(
    contents: Seq<u8>,
    sb: Superblock,
    ino: InodeView,
    k: int,
) -> Seq<DirEntryView>
    decreases k,
{
    if k <= 0 {
        Seq::empty()
    } else {
        spec_list_dir_upto(contents, sb, ino, k - 1) + (if ino.direct_block_ptr[k - 1] == 0 {
            Seq::empty()
        } else {
            spec_live_entries(
                spec_dir_entries_from(
                    spec_dir_block_bytes(contents, sb, ino.direct_block_ptr[k - 1]),
                    sb.spec_has_dir_entry_types(),
                    0,
                ),
            )
        })
    }
}

/// The live entries of all twelve direct blocks of a directory inode.
pub open spec fn spec_list_dir(contents: Seq<u8>, sb: Superblock, ino: InodeView) -> Seq<
    DirEntryView,
> {
    spec_list_dir_upto(contents, sb, ino, 12)
}

/// The entry at index `i` of a parsed listing.
pub open spec fn spec_entry_at(es: Seq<DirEntryView>, i: int) -> DirEntryView {
    es[i]
}

/// Some entry of the sequence carries exactly these name bytes.
pub open spec fn spec_entries_contain_name(es: Seq<DirEntryView>, name: Seq<u8>) -> bool {
    exists|i: int| 0 <= i < es.len() && #[trigger] es[i].name_bytes == name
}

/// Whether two byte vectors hold the same bytes.
pub fn bytes_eq(a: &Vec<u8>, b: &Vec<u8>) -> (r: bool)
    ensures
        r == (a@ == b@),
{
    if a.len() != b.len() {
        proof {
            assert(a@.len() != b@.len());
        }
        return false;
    }
    let n = a.len();
    let mut i: usize = 0;
    while i < n
        invariant
            i <= n,
            n == a@.len(),
            n == b@.len(),
            forall|j: int| 0 <= j < i ==> a@[j] == b@[j],
        decreases n - i,
    {
        if a[i] != b[i] {
            return false;
        }
        i = i + 1;
    }
    proof {
        assert(a@ =~= b@);
    }
    true
}

impl<T: BlockDevice> Ext2Fs<T> {
    /// Enumerates a directory: walks each allocated direct block slot by
    /// slot and returns the entries that are not tombstones, in order.
    /// An inode of any other type is refused with `NotDirectory`.
    pub fn list_dir(&self, dir: &Inode) -> (r: Result<Vec<DirEntry>, Error>)
        requires
            self.wf(),
            dir.wf(),
        ensures
            r matches Ok(v) ==> {
                &&& dir.spec_typ() == Type::Directory
                &&& v@.map_values(|e: DirEntry| e@) == spec_list_dir(
                    self.contents(),
                    self.superblock,
                    dir@,
                )
            },
            r == Err::<Vec<DirEntry>, Error>(Error::NotDirectory) <==> dir.spec_typ()
                != Type::Directory,
            r matches Err(e) ==> (e == Error::NotDirectory || e == Error::DeviceRead),
            (dir.spec_typ() == Type::Directory && (forall|k: int|
                0 <= k < 12 ==> (#[trigger] dir@.direct_block_ptr[k]) == 0)) ==> r is Ok,
    {
        if dir.typ() != Type::Directory {
            return Err(Error::NotDirectory);
        }
        let block_size = self.superblock.block_size() as usize;
        let ghost bs = self.superblock.spec_block_size() as int;
        let have_type = self.superblock.has_dir_entry_types();
        let ghost c = self.contents();
        let ghost sb = self.superblock;

        let mut entries: Vec<DirEntry> = Vec::new();
        let mut k: usize = 0;
        while k < 12
            invariant
                self.wf(),
                dir.wf(),
                dir.spec_typ() == Type::Directory,
                k <= 12,
                c == self.contents(),
                sb == self.superblock,
                bs == sb.spec_block_size() as int,
                block_size as int == bs,
                1024 <= bs <= 0x10_0000,
                have_type == sb.spec_has_dir_entry_types(),
                entries@.map_values(|e: DirEntry| e@) == spec_list_dir_upto(c, sb, dir@, k as int),
            decreases 12 - k,
        {
            let ghost pre_entries = entries@;
            match dir.direct_ptr(k) {
                None => {
                    proof {
                        assert(spec_list_dir_upto(c, sb, dir@, k + 1) =~= spec_list_dir_upto(
                            c,
                            sb,
                            dir@,
                            k as int,
                        ));
                    }
                },
                Some(addr) => {
                    proof {
                        assert(dir@.direct_block_ptr[k as int] != 0);
                    }
                    let mut data = zero_vec(block_size);
                    match self.read_block(addr, &mut data) {
                        Ok(_) => {},
                        Err(_) => {
                            return Err(Error::DeviceRead);
                        },
                    }
                    let ghost bdata = data@;
                    proof {
                        assert(bdata == spec_dir_block_bytes(c, sb, dir@.direct_block_ptr[
                        k as int]));
                    }
                    let mut offset: usize = 0;
                    let ghost mut walked: Seq<DirEntryView> = Seq::empty();
                    while offset + 8 <= block_size
                        invariant_except_break
                            offset <= block_size,
                            data@ == bdata,
                            bdata.len() == block_size,
                            block_size <= 0x10_0000,
                            have_type == sb.spec_has_dir_entry_types(),
                            spec_dir_entries_from(bdata, have_type, 0) == walked
                                + spec_dir_entries_from(bdata, have_type, offset as int),
                            entries@.map_values(|e: DirEntry| e@) == pre_entries.map_values(
                                |e: DirEntry| e@,
                            ) + spec_live_entries(walked),
                        ensures
                            data@ == bdata,
                            entries@.map_values(|e: DirEntry| e@) == pre_entries.map_values(
                                |e: DirEntry| e@,
                            ) + spec_live_entries(spec_dir_entries_from(bdata, have_type, 0)),
                        decreases block_size - offset,
                    {
                        let entry = DirEntry::from(have_type, &data, offset);
                        let ts = entry.total_size;
                        if ts < 8 || offset + (ts as usize) > block_size {
                            proof {
                                assert(spec_dir_entries_from(bdata, have_type, offset as int)
                                    =~= Seq::<DirEntryView>::empty());
                                assert(walked + Seq::<DirEntryView>::empty() =~= walked);
                            }
                            break ;
                        }
                        proof {
                            assert(spec_dir_entries_from(bdata, have_type, offset as int)
                                == seq![entry@] + spec_dir_entries_from(
                                bdata,
                                have_type,
                                offset + ts as int,
                            ));
                            assert(walked + (seq![entry@] + spec_dir_entries_from(
                                bdata,
                                have_type,
                                offset + ts as int,
                            )) =~= walked.push(entry@) + spec_dir_entries_from(
                                bdata,
                                have_type,
                                offset + ts as int,
                            ));
                            lemma_live_entries_push(walked, entry@);
                        }
                        let live = entry.inode != 0;
                        if live {
                            let ghost pre = entries@;
                            entries.push(entry);
                            proof {
                                assert(entries@.map_values(|e: DirEntry| e@) =~= pre.map_values(
                                    |e: DirEntry| e@,
                                ).push(entry@));
                            }
                        }
                        proof {
                            walked = walked.push(entry@);
                        }
                        offset = offset + ts as usize;
                    }
                    proof {
                        if offset + 8 > block_size {
                        }
                        assert(spec_list_dir_upto(c, sb, dir@, k + 1) =~= spec_list_dir_upto(
                            c,
                            sb,
                            dir@,
                            k as int,
                        ) + spec_live_entries(spec_dir_entries_from(bdata, have_type, 0)));
                        assert(entries@.map_values(|e: DirEntry| e@) =~= spec_list_dir_upto(
                            c,
                            sb,
                            dir@,
                            k + 1,
                        ));
                    }
                },
            }
            k = k + 1;
        }
        Ok(entries)
    }

    /// Finds the first entry of the directory that carries exactly `name`
    /// and reads its inode; `None` when no entry has that name.
    pub fn lookup_dir_entry(&self, dir: &Directory, name: &Vec<u8>) -> (r: Result<
        Option<(InodeAddress, Inode)>,
        Error,
    >)
        requires
            self.wf(),
            dir.wf(),
        ensures
            r matches Ok(opt) ==> {
                &&& (opt is Some) == spec_entries_contain_name(
                    spec_list_dir(self.contents(), self.superblock, dir.spec_inode()@),
                    name@,
                )
                &&& opt matches Some((a, ino)) ==> {
                    &&& ino.wf()
                    &&& ino@ == crate::inode::spec_decode_inode(
                        self.contents().subrange(
                            spec_inode_byte_offset(self.superblock, self.bgdt@, a.spec_get()),
                            spec_inode_byte_offset(self.superblock, self.bgdt@, a.spec_get())
                                + 128,
                        ),
                    )
                    &&& exists|i: int|
                        0 <= i < spec_list_dir(
                            self.contents(),
                            self.superblock,
                            dir.spec_inode()@,
                        ).len() && #[trigger] spec_entry_at(
                            spec_list_dir(self.contents(), self.superblock, dir.spec_inode()@),
                            i,
                        ).name_bytes == name@ && a.spec_get() == spec_entry_at(
                            spec_list_dir(self.contents(), self.superblock, dir.spec_inode()@),
                            i,
                        ).inode && (forall|j: int|
                            0 <= j < i ==> spec_entry_at(
                                spec_list_dir(
                                    self.contents(),
                                    self.superblock,
                                    dir.spec_inode()@,
                                ),
                                j,
                            ).name_bytes != name@)
                }
            },
    {
        let entries = self.list_dir(dir.inode())?;
        let n = entries.len();
        let ghost es = spec_list_dir(self.contents(), self.superblock, dir.spec_inode()@);
        let mut i: usize = 0;
        while i < n
            invariant
                self.wf(),
                dir.wf(),
                i <= n,
                n == entries@.len(),
                entries@.map_values(|e: DirEntry| e@) == es,
                es == spec_list_dir(self.contents(), self.superblock, dir.spec_inode()@),
                forall|j: int| 0 <= j < i ==> #[trigger] spec_entry_at(es, j).name_bytes
                    != name@,
            decreases n - i,
        {
            if bytes_eq(entries[i].name(), name) {
                let e = &entries[i];
                proof {
                    assert(spec_entry_at(es, i as int).name_bytes == name@);
                }
                match self.resolve_dir_entry(e) {
                    Ok((a, ino)) => {
                        return Ok(Some((a, ino)));
                    },
                    Err(e) => {
                        return Err(e);
                    },
                }
            }
            i = i + 1;
        }
        proof {
            assert forall|j: int| 0 <= j < es.len() implies (#[trigger] es[j]).name_bytes
                != name@ by {
                assert(spec_entry_at(es, j).name_bytes != name@);
            }
            assert(!spec_entries_contain_name(es, name@));
        }
        Ok(None)
    }

    /// Reads the inode an entry points at; a tombstone has none and is
    /// refused as an invalid address.
    pub fn resolve_dir_entry(&self, entry: &DirEntry) -> (r: Result<(InodeAddress, Inode), Error>)
        requires
            self.wf(),
        ensures
            r matches Ok((a, ino)) ==> {
                &&& a.spec_get() == entry@.inode
                &&& ino.wf()
                &&& ino@ == crate::inode::spec_decode_inode(
                    self.contents().subrange(
                        spec_inode_byte_offset(self.superblock, self.bgdt@, entry@.inode),
                        spec_inode_byte_offset(self.superblock, self.bgdt@, entry@.inode) + 128,
                    ),
                )
            },
            entry@.inode == 0 ==> r == Err::<(InodeAddress, Inode), Error>(
                Error::InvalidInodeAddress(0),
            ),
    {
        match InodeAddress::new(entry.inode) {
            Some(a) => self.read_inode(a),
            None => Err(Error::InvalidInodeAddress(0)),
        }
    }
}

/// Inserts a new entry into a block whose slots tile it, splitting the
/// first slot whose slack can hold the entry: the found slot is shrunk to
/// the space its own entry occupies, and the new entry takes the rest of
/// the slot. Returns false, leaving the block unchanged, when no slot has
/// room. On success the block's slots still tile it exactly.
/// The block's live entries include one carrying exactly this inode
/// address and name.
pub open spec fn spec_block_has_entry(
    block: Seq<u8>,
    have_type: bool,
    inode_address: u32,
    name: Seq<u8>,
    typ: DirType,
) -> bool {
    exists|e: DirEntryView|
        {
            &&& #[trigger] spec_live_entries(
                spec_dir_entries_from(block, have_type, 0),
            ).contains(e)
            &&& e.inode == inode_address
            &&& e.name_bytes == name
            &&& have_type ==> e.type_indicator == Some(spec_dir_type_byte(typ))
        }
}

#[verifier::rlimit(100)]
pub fn insert_entry_in_block(
    block_data: &mut Vec<u8>,
    have_type: bool,
    name: &Vec<u8>,
    inode_address: InodeAddress,
    typ: DirType,
) -> (r: bool)
    requires
        8 <= old(block_data)@.len() <= 0x10_0000,
        spec_wf_dir_block_from(old(block_data)@, have_type, 0),
        1 <= name@.len() <= 255,
    ensures
        final(block_data)@.len() == old(block_data)@.len(),
        r ==> spec_wf_dir_block_from(final(block_data)@, have_type, 0),
        r ==> spec_block_has_entry(
            final(block_data)@,
            have_type,
            inode_address.spec_get(),
            name@,
            typ,
        ),
        r ==> spec_split_insertion(
            old(block_data)@,
            final(block_data)@,
            have_type,
            inode_address.spec_get(),
            name@,
            typ,
        ),
        !r ==> final(block_data)@ == old(block_data)@,
{
    let len = block_data.len();
    let required = DirEntry::size(name.len() as u16);
    let mut offset: usize = 0;
    while offset + 8 <= len
        invariant
            offset <= len,
            len == block_data@.len(),
            8 <= len <= 0x10_0000,
            1 <= name@.len() <= 255,
            required as int == spec_align4(8 + name@.len() as int),
            8 + name@.len() <= required as int <= 8 + name@.len() + 3,
            required as int % 4 == 0,
            block_data@ == old(block_data)@,
            spec_dir_walk_reaches(block_data@, have_type, 0, offset as int),
            spec_wf_dir_block_from(block_data@, have_type, offset as int),
        decreases len - offset,
    {
        let ts = read_u16_le(block_data, offset + 4);
        proof {
            assert(ts >= 8 && ts as int % 4 == 0 && offset + ts as int <= len);
        }
        let e_nl_lsb = block_data[offset + 6];
        let e_ind = block_data[offset + 7];
        let e_name_length: u32 = if have_type {
            e_nl_lsb as u32
        } else {
            (e_nl_lsb as u32) + 0x100 * (e_ind as u32)
        };
        proof {
            assert(e_name_length as int == spec_entry_name_length(
                block_data@,
                have_type,
                offset as int,
            ));
        }
        let occ32: u32 = ((8 + e_name_length + 3) / 4) * 4;
        if (ts as u32) >= (required as u32) + occ32 {
            let occupied = occ32 as u16;
            let ghost d0 = block_data@;
            write_u16_le(block_data, offset + 4, occupied);
            let ghost d_mid = block_data@;
            let new_off = offset + (occupied as usize);
            let new_total = ts - occupied;
            let record = build_dir_entry_record(have_type, name, inode_address, typ, new_total);
            crate::bytes::write_bytes(block_data, new_off, &record);
            proof {
                let d1 = block_data@;
                let nl = name@.len() as int;
                crate::bytes::lemma_splice_bytes_len(d_mid, new_off as int, record@);
                assert(d1.len() == len);
                assert forall|j: int| 0 <= j < offset + 4 implies d1[j] == d0[j] by {}
                assert forall|j: int| offset + ts <= j < len implies d1[j] == d0[j] by {}
                assert(le16_at(d1, offset + 4) == occupied);
                assert(d1.subrange(new_off as int, new_off + 8 + nl) =~= record@);
                crate::bytes::lemma_le32_at_subrange(d1, new_off as int, new_off + 8 + nl, 0);
                assert(le32_at(d1, new_off as int) == inode_address.spec_get());
                crate::bytes::lemma_le16_at_subrange(d1, new_off as int, new_off + 8 + nl, 4);
                assert(le16_at(d1, new_off as int + 4) == new_total);
                assert(d1[new_off + 6] == name@.len() as u8);
                assert(d1[new_off + 7] == record@[7]);
                assert(d1.subrange(new_off + 8, new_off + 8 + nl) =~= record@.subrange(8, 8 + nl));
                assert(d1[offset + 6] == d0[offset + 6] && d1[offset + 7] == d0[offset + 7]);
                assert forall|j: int|
                    offset + 6 <= j < offset + occupied implies d1[j] == d0[j] by {}
                lemma_split_slot_post(
                    d0,
                    d1,
                    have_type,
                    offset as int,
                    ts as int,
                    occupied as int,
                    inode_address.spec_get(),
                    name@,
                    typ,
                );
                assert(spec_split_insertion(
                    d0,
                    d1,
                    have_type,
                    inode_address.spec_get(),
                    name@,
                    typ,
                ));
            }
            return true;
        }
        proof {
            lemma_dir_walk_extend(block_data@, have_type, 0, offset as int);
        }
        offset = offset + ts as usize;
    }
    false
}


/// After splitting the slot at `offset` — its stride shrunk to
/// `occupied`, the rest made a new slot holding the entry for
/// `inode_address` under `name` — the block still tiles exactly and the
/// new entry is among its live entries.
#[verifier::rlimit(100)]
proof fn lemma_split_slot_post(
    d0: Seq<u8>,
    d1: Seq<u8>,
    have_type: bool,
    offset: int,
    ts: int,
    occupied: int,
    inode_address: u32,
    name: Seq<u8>,
    typ: DirType,
)
    requires
        d0.len() == d1.len(),
        8 <= d1.len() <= 0x10_0000,
        1 <= name.len() <= 255,
        inode_address != 0,
        0 <= offset,
        offset + 8 <= d0.len(),
        spec_dir_walk_reaches(d0, have_type, 0, offset),
        spec_wf_dir_block_from(d0, have_type, offset),
        ts == le16_at(d0, offset + 4),
        ts >= 8,
        ts % 4 == 0,
        offset + ts <= d0.len(),
        8 <= occupied,
        occupied % 4 == 0,
        occupied == spec_align4(8 + spec_entry_name_length(d0, have_type, offset)),
        occupied + spec_align4(8 + name.len() as int) <= ts,
        occupied + 8 + name.len() <= ts,
        forall|j: int| 0 <= j < offset + 4 ==> d1[j] == d0[j],
        forall|j: int| offset + ts <= j < d0.len() ==> d1[j] == d0[j],
        forall|j: int| offset + 6 <= j < offset + occupied ==> d1[j] == d0[j],
        d1[offset + 6] == d0[offset + 6],
        d1[offset + 7] == d0[offset + 7],
        le16_at(d1, offset + 4) == occupied,
        le32_at(d1, offset + occupied) == inode_address,
        le16_at(d1, offset + occupied + 4) == ts - occupied,
        d1[offset + occupied + 6] == name.len() as u8,
        have_type ==> le16_at(d1, offset + occupied + 6) as int % 0x100 == name.len(),
        have_type ==> d1[offset + occupied + 7] == spec_dir_type_byte(typ),
        !have_type ==> d1[offset + occupied + 7] == 0,
        d1.subrange(offset + occupied + 8, offset + occupied + 8 + name.len() as int) == name,
    ensures
        spec_wf_dir_block_from(d1, have_type, 0),
        spec_block_has_entry(d1, have_type, inode_address, name, typ),
        spec_split_insertion_at(d0, d1, have_type, inode_address, name, typ, offset),
{
    let len = d1.len() as int;
    let new_off = offset + occupied;
    let new_total = ts - occupied;
    // the suffix beyond the old slot is still tiled
    assert(spec_wf_dir_block_from(d0, have_type, offset + ts));
    lemma_wf_dir_block_frame(d0, d1, have_type, offset + ts);
    // the walk still reaches the found slot
    lemma_dir_walk_frame(d0, d1, have_type, 0, offset);
    // the two new slots chain onto the old tail
    assert(spec_wf_dir_block_from(d1, have_type, offset + ts));
    assert(new_off + new_total == offset + ts);
    // the shrunk slot still declares its own entry's name length
    assert(spec_entry_name_length(d1, have_type, offset) == spec_entry_name_length(
        d0,
        have_type,
        offset,
    ));
    // the fresh slot declares the new name's length
    assert(spec_entry_name_length(d1, have_type, new_off) == name.len());
    assert(spec_align4(8 + name.len() as int) <= new_total);
    assert(spec_wf_dir_slot(d1, have_type, new_off));
    assert(spec_wf_dir_block_from(d1, have_type, new_off));
    assert(spec_wf_dir_slot(d1, have_type, offset));
    assert(spec_wf_dir_block_from(d1, have_type, offset));
    lemma_dir_walk_wf(d1, have_type, 0, offset);
    // the walk reaches the new slot, whose entry is ours
    lemma_dir_walk_extend(d1, have_type, 0, offset);
    assert(spec_dir_walk_reaches(d1, have_type, 0, new_off));
    let e = spec_decode_dir_entry(d1, have_type, new_off);
    assert(e.name_length == name.len());
    assert(e.name_bytes =~= name);
    assert(e.inode == inode_address);
    assert(e.type_indicator == (if have_type {
        Some(spec_dir_type_byte(typ))
    } else {
        None::<u8>
    }));
    lemma_walk_entry_in_parse(d1, have_type, 0, new_off);
    lemma_live_entries_contains(spec_dir_entries_from(d1, have_type, 0), e);
    assert(spec_block_has_entry(d1, have_type, inode_address, name, typ));
    lemma_split_slot_parse(
        d0,
        d1,
        have_type,
        offset,
        ts,
        occupied,
        inode_address,
        name,
        typ,
    );
}

/// The parse half of the slot split: the new block's entries are the old
/// ones with the found slot's stride shrunk and the new entry inserted
/// after it.
#[verifier::rlimit(100)]
proof fn lemma_split_slot_parse(
    d0: Seq<u8>,
    d1: Seq<u8>,
    have_type: bool,
    offset: int,
    ts: int,
    occupied: int,
    inode_address: u32,
    name: Seq<u8>,
    typ: DirType,
)
    requires
        d0.len() == d1.len(),
        8 <= d1.len() <= 0x10_0000,
        1 <= name.len() <= 255,
        inode_address != 0,
        0 <= offset,
        offset + 8 <= d0.len(),
        spec_dir_walk_reaches(d0, have_type, 0, offset),
        spec_wf_dir_block_from(d0, have_type, offset),
        ts == le16_at(d0, offset + 4),
        ts >= 8,
        ts % 4 == 0,
        offset + ts <= d0.len(),
        8 <= occupied,
        occupied % 4 == 0,
        occupied == spec_align4(8 + spec_entry_name_length(d0, have_type, offset)),
        occupied + spec_align4(8 + name.len() as int) <= ts,
        occupied + 8 + name.len() <= ts,
        forall|j: int| 0 <= j < offset + 4 ==> d1[j] == d0[j],
        forall|j: int| offset + ts <= j < d0.len() ==> d1[j] == d0[j],
        forall|j: int| offset + 6 <= j < offset + occupied ==> d1[j] == d0[j],
        d1[offset + 6] == d0[offset + 6],
        d1[offset + 7] == d0[offset + 7],
        le16_at(d1, offset + 4) == occupied,
        le32_at(d1, offset + occupied) == inode_address,
        le16_at(d1, offset + occupied + 4) == ts - occupied,
        d1[offset + occupied + 6] == name.len() as u8,
        have_type ==> le16_at(d1, offset + occupied + 6) as int % 0x100 == name.len(),
        have_type ==> d1[offset + occupied + 7] == spec_dir_type_byte(typ),
        !have_type ==> d1[offset + occupied + 7] == 0,
        d1.subrange(offset + occupied + 8, offset + occupied + 8 + name.len() as int) == name,
    ensures
        spec_split_insertion_at(d0, d1, have_type, inode_address, name, typ, offset),
{
    let len = d1.len() as int;
    let new_off = offset + occupied;
    let new_total = ts - occupied;
    assert(spec_wf_dir_block_from(d0, have_type, offset + ts));
    lemma_wf_dir_block_frame(d0, d1, have_type, offset + ts);
    lemma_dir_walk_frame(d0, d1, have_type, 0, offset);
    assert(spec_wf_dir_block_from(d1, have_type, offset + ts));
    assert(new_off + new_total == offset + ts);
    assert(spec_entry_name_length(d1, have_type, offset) == spec_entry_name_length(
        d0,
        have_type,
        offset,
    ));
    assert(spec_entry_name_length(d1, have_type, new_off) == name.len());
    assert(spec_wf_dir_slot(d1, have_type, new_off));
    assert(spec_wf_dir_block_from(d1, have_type, new_off));
    assert(spec_wf_dir_slot(d1, have_type, offset));
    assert(spec_wf_dir_block_from(d1, have_type, offset));
    let e = spec_decode_dir_entry(d1, have_type, new_off);
    assert(e.name_length == name.len());
    assert(e.name_bytes =~= name);
    // the parse of the new block is the old parse with the found slot
    // shrunk and the new entry inserted after it
    let eo = spec_decode_dir_entry(d0, have_type, offset);
    assert(eo.total_size as int == ts);
    assert(eo.name_length as int == spec_entry_name_length(d0, have_type, offset));
    assert(occupied == spec_align4(8 + eo.name_length as int));
    lemma_parse_decompose(d0, have_type, 0, offset);
    assert(spec_dir_entries_from(d0, have_type, offset) == seq![eo] + spec_dir_entries_from(
        d0,
        have_type,
        offset + ts,
    ));
    assert(spec_entries_between(d0, have_type, 0, offset) + (seq![eo]
        + spec_dir_entries_from(d0, have_type, offset + ts)) =~= spec_entries_between(
        d0,
        have_type,
        0,
        offset,
    ) + seq![eo] + spec_dir_entries_from(d0, have_type, offset + ts));
    lemma_parse_decompose(d1, have_type, 0, offset);
    lemma_entries_between_frame(d0, d1, have_type, 0, offset);
    // the shrunk entry keeps every field but the stride
    let shrunk = spec_decode_dir_entry(d1, have_type, offset);
    assert(le32_at(d1, offset) == le32_at(d0, offset));
    assert(8 + eo.name_length <= occupied);
    assert(shrunk.name_bytes =~= eo.name_bytes);
    assert(shrunk =~= (DirEntryView { total_size: occupied as u16, ..eo }));
    assert(spec_dir_entries_from(d1, have_type, offset) == seq![shrunk]
        + spec_dir_entries_from(d1, have_type, new_off));
    assert(spec_dir_entries_from(d1, have_type, new_off) == seq![e] + spec_dir_entries_from(
        d1,
        have_type,
        offset + ts,
    ));
    lemma_parse_frame_wf(d0, d1, have_type, offset + ts);
    assert(spec_dir_entries_from(d1, have_type, 0) =~= spec_entries_between(
        d0,
        have_type,
        0,
        offset,
    ) + seq![shrunk] + seq![e] + spec_dir_entries_from(d0, have_type, offset + ts));
    assert(spec_split_insertion_at(d0, d1, have_type, inode_address, name, typ, offset));
}

/// Some direct block of the directory inode is exactly tiled and its
/// live entries include one carrying this inode address and name.
pub open spec fn spec_dir_has_added_entry(
    contents: Seq<u8>,
    sb: Superblock,
    dir_ino: InodeView,
    inode_address: u32,
    name: Seq<u8>,
    typ: DirType,
) -> bool {
    exists|k: int|
        {
            &&& 0 <= k < 12
            &&& (#[trigger] dir_ino.direct_block_ptr[k]) != 0
            &&& spec_wf_dir_block_from(
                spec_dir_block_bytes(contents, sb, dir_ino.direct_block_ptr[k]),
                sb.spec_has_dir_entry_types(),
                0,
            )
            &&& spec_block_has_entry(
                spec_dir_block_bytes(contents, sb, dir_ino.direct_block_ptr[k]),
                sb.spec_has_dir_entry_types(),
                inode_address,
                name,
                typ,
            )
        }
}

/// How block `k` of the directory witnesses the insertion. Either an
/// existing block was split — the directory inode untouched, that block's
/// old entries kept with the found slot's stride shrunk, exactly the one
/// new entry added after it, and every device byte outside that block
/// unchanged — or the pointer at `k` was free, now names a fresh block
/// that parses as exactly the new entry, and the inode changed in that
/// one pointer alone.
pub open spec fn spec_dir_block_insertion_at(
    pre_contents: Seq<u8>,
    post_contents: Seq<u8>,
    sb: Superblock,
    pre_ino: InodeView,
    post_ino: InodeView,
    inode_address: u32,
    name: Seq<u8>,
    typ: DirType,
    k: int,
) -> bool {
    let ht = sb.spec_has_dir_entry_types();
    let bs = sb.spec_block_size() as int;
    ||| (pre_ino.direct_block_ptr[k] != 0 && post_ino == pre_ino && {
        let b = pre_ino.direct_block_ptr[k];
        let boff = spec_block_byte_offset(sb, b);
        let oldb = spec_dir_block_bytes(pre_contents, sb, b);
        let newb = spec_dir_block_bytes(post_contents, sb, b);
        &&& spec_split_insertion(oldb, newb, ht, inode_address, name, typ)
        &&& forall|j: int|
            0 <= j < pre_contents.len() && !(boff <= j < boff + bs) ==> post_contents[j]
                == pre_contents[j]
    })
    ||| (pre_ino.direct_block_ptr[k] == 0 && post_ino.direct_block_ptr[k] != 0
        && post_ino.direct_block_ptr == pre_ino.direct_block_ptr.update(
        k,
        post_ino.direct_block_ptr[k],
    ) && post_ino == (InodeView { direct_block_ptr: post_ino.direct_block_ptr, ..pre_ino }) && {
        let b = post_ino.direct_block_ptr[k];
        let newb = spec_dir_block_bytes(post_contents, sb, b);
        let en = spec_decode_dir_entry(newb, ht, 0);
        &&& spec_dir_entries_from(newb, ht, 0) == seq![en]
        &&& en.inode == inode_address
        &&& en.name_bytes == name
        &&& en.type_indicator == (if ht {
            Some(spec_dir_type_byte(typ))
        } else {
            None::<u8>
        })
    })
}

/// Some direct pointer slot of the directory witnesses the insertion.
pub open spec fn spec_dir_block_insertion(
    pre_contents: Seq<u8>,
    post_contents: Seq<u8>,
    sb: Superblock,
    pre_ino: InodeView,
    post_ino: InodeView,
    inode_address: u32,
    name: Seq<u8>,
    typ: DirType,
) -> bool {
    exists|k: int|
        0 <= k < 12 && #[trigger] spec_dir_block_insertion_at(
            pre_contents,
            post_contents,
            sb,
            pre_ino,
            post_ino,
            inode_address,
            name,
            typ,
            k,
        )
}

/// The added-entry statement depends on the superblock only through the
/// block size and the entry-type feature bit.
pub proof fn lemma_dir_has_added_entry_superblock(
    contents: Seq<u8>,
    sb1: Superblock,
    sb2: Superblock,
    dir_ino: InodeView,
    inode_address: u32,
    name: Seq<u8>,
    typ: DirType,
)
    requires
        spec_dir_has_added_entry(contents, sb1, dir_ino, inode_address, name, typ),
        sb1.log_block_size == sb2.log_block_size,
        sb1.required_features == sb2.required_features,
    ensures
        spec_dir_has_added_entry(contents, sb2, dir_ino, inode_address, name, typ),
{
    let k = choose|k: int|
        {
            &&& 0 <= k < 12
            &&& (#[trigger] dir_ino.direct_block_ptr[k]) != 0
            &&& spec_wf_dir_block_from(
                spec_dir_block_bytes(contents, sb1, dir_ino.direct_block_ptr[k]),
                sb1.spec_has_dir_entry_types(),
                0,
            )
            &&& spec_block_has_entry(
                spec_dir_block_bytes(contents, sb1, dir_ino.direct_block_ptr[k]),
                sb1.spec_has_dir_entry_types(),
                inode_address,
                name,
                typ,
            )
        };
    let b = dir_ino.direct_block_ptr[k];
    assert(sb1.spec_block_size() == sb2.spec_block_size());
    assert(sb1.spec_has_dir_entry_types() == sb2.spec_has_dir_entry_types());
    assert(spec_dir_block_bytes(contents, sb1, b) == spec_dir_block_bytes(contents, sb2, b));
}

impl<T: BlockDevice> Ext2Fs<T> {
    /// Adds an entry for `inode_address` under `name` to the directory.
    /// A name that already exists is refused with `EntryExists`. The entry
    /// goes into the first direct block with a slot whose slack can hold
    /// it; when no block has room, a fresh block is allocated, linked into
    /// the inode's next free direct pointer, and initialized with this
    /// entry as its single slot. On success the affected block's slots
    /// tile it exactly.
    #[verifier::rlimit(100)]
    pub fn add_entry_to_dir(
        &mut self,
        dir: &mut Directory,
        name: &Vec<u8>,
        inode_address: InodeAddress,
        typ: DirType,
    ) -> (r: Result<(), Error>)
        requires
            old(self).wf(),
            old(dir).wf(),
            1 <= name@.len() <= 255,
        ensures
            final(self).wf(),
            final(dir).wf(),
            final(self).contents().len() == old(self).contents().len(),
            final(self).block_device.spec_sector_size() == old(self).block_device.spec_sector_size(),
            final(self).superblock.log_block_size == old(self).superblock.log_block_size,
            final(self).superblock.required_features == old(self).superblock.required_features,
            r is Ok ==> !spec_entries_contain_name(
                spec_list_dir(
                    old(self).contents(),
                    old(self).superblock,
                    old(dir).spec_inode()@,
                ),
                name@,
            ),
            r == Err::<(), Error>(Error::EntryExists) ==> final(self).contents() == old(
                self,
            ).contents() && final(self).superblock == old(self).superblock && final(self).bgdt@
                == old(self).bgdt@ && *final(dir) == *old(dir),
            r == Err::<(), Error>(Error::EntryExists) ==> spec_entries_contain_name(
                spec_list_dir(
                    old(self).contents(),
                    old(self).superblock,
                    old(dir).spec_inode()@,
                ),
                name@,
            ),
            r is Ok ==> spec_dir_has_added_entry(
                final(self).contents(),
                old(self).superblock,
                final(dir).spec_inode()@,
                inode_address.spec_get(),
                name@,
                typ,
            ),
            r is Ok ==> spec_dir_block_insertion(
                old(self).contents(),
                final(self).contents(),
                old(self).superblock,
                old(dir).spec_inode()@,
                final(dir).spec_inode()@,
                inode_address.spec_get(),
                name@,
                typ,
            ),
            r is Ok ==> final(dir).spec_address() == old(dir).spec_address(),
            spec_entries_contain_name(
                spec_list_dir(
                    old(self).contents(),
                    old(self).superblock,
                    old(dir).spec_inode()@,
                ),
                name@,
            ) ==> (r == Err::<(), Error>(Error::EntryExists) || r == Err::<(), Error>(
                Error::DeviceRead,
            )),
            r matches Err(e) ==> (e == Error::EntryExists || e == Error::DeviceRead || e
                == Error::DeviceWrite || e == Error::NoSpace || e == Error::Unsupported || e
                matches Error::InvalidInodeAddress(_) || e
                == Error::UnableToReadBlockGroupDescriptorTable || e
                == Error::UnableToWriteBlockGroupDescriptorTable || e
                == Error::UnableToWriteSuperblock),
    {
        let ghost pre = *old(self);
        // refuse a duplicate name
        let existing = match self.list_dir(dir.inode()) {
            Ok(v) => v,
            Err(e) => {
                return Err(e);
            },
        };
        let n = existing.len();
        let ghost es = spec_list_dir(pre.contents(), pre.superblock, old(dir).spec_inode()@);
        let mut i: usize = 0;
        while i < n
            invariant
                i <= n,
                self.wf(),
                dir.wf(),
                old(self).wf(),
                old(dir).wf(),
                *self == pre,
                pre == *old(self),
                *dir == *old(dir),
                n == existing@.len(),
                existing@.map_values(|e: DirEntry| e@) == es,
                es == spec_list_dir(pre.contents(), pre.superblock, old(dir).spec_inode()@),
                forall|j: int| 0 <= j < i ==> (#[trigger] es[j]).name_bytes != name@,
            decreases n - i,
        {
            if bytes_eq(existing[i].name(), name) {
                proof {
                    assert(es[i as int].name_bytes == name@);
                }
                return Err(Error::EntryExists);
            }
            i = i + 1;
        }
        proof {
            assert(!spec_entries_contain_name(es, name@));
        }

        let block_size = self.superblock.block_size() as usize;
        let have_type = self.superblock.has_dir_entry_types();

        // find a block with room and split a slot there
        let mut k: usize = 0;
        while k < 12
            invariant
                k <= 12,
                self.wf(),
                dir.wf(),
                old(self).wf(),
                old(dir).wf(),
                *self == pre,
                *dir == *old(dir),
                pre == *old(self),
                es == spec_list_dir(pre.contents(), pre.superblock, old(dir).spec_inode()@),
                !spec_entries_contain_name(es, name@),
                block_size as int == self.superblock.spec_block_size() as int,
                8 <= block_size <= 0x10_0000,
                1 <= name@.len() <= 255,
                have_type == self.superblock.spec_has_dir_entry_types(),
            decreases 12 - k,
        {
            let ptr = dir.inode().direct_ptr(k);
            if let Some(addr) = ptr {
                let mut data = zero_vec(block_size);
                match self.read_block(addr, &mut data) {
                    Ok(_) => {},
                    Err(e) => {
                        return Err(e);
                    },
                }
                let ghost oldblock = data@;
                if check_dir_block(&data, have_type) {
                    if insert_entry_in_block(&mut data, have_type, name, inode_address, typ) {
                        let ghost newblock = data@;
                        match self.write_block(addr, &data) {
                            Ok(_) => {},
                            Err(e) => {
                                return Err(e);
                            },
                        }
                        proof {
                            let b = addr.spec_get();
                            let off = spec_block_byte_offset(pre.superblock, b);
                            crate::bytes::lemma_splice_bytes_len(pre.contents(), off, newblock);
                            assert(spec_dir_block_bytes(self.contents(), pre.superblock, b)
                                =~= newblock);
                            assert(dir.spec_inode()@.direct_block_ptr[k as int] == b);
                            assert(spec_dir_has_added_entry(
                                self.contents(),
                                pre.superblock,
                                dir.spec_inode()@,
                                inode_address.spec_get(),
                                name@,
                                typ,
                            ));
                            assert(oldblock =~= spec_dir_block_bytes(
                                pre.contents(),
                                pre.superblock,
                                b,
                            ));
                            assert(spec_split_insertion(
                                spec_dir_block_bytes(pre.contents(), pre.superblock, b),
                                spec_dir_block_bytes(self.contents(), pre.superblock, b),
                                have_type,
                                inode_address.spec_get(),
                                name@,
                                typ,
                            ));
                            assert(spec_dir_block_insertion_at(
                                pre.contents(),
                                self.contents(),
                                pre.superblock,
                                old(dir).spec_inode()@,
                                dir.spec_inode()@,
                                inode_address.spec_get(),
                                name@,
                                typ,
                                k as int,
                            ));
                            assert(spec_dir_block_insertion(
                                pre.contents(),
                                self.contents(),
                                pre.superblock,
                                old(dir).spec_inode()@,
                                dir.spec_inode()@,
                                inode_address.spec_get(),
                                name@,
                                typ,
                            ));
                        }
                        return Ok(());
                    }
                }
            }
            k = k + 1;
        }

        // no block had room: start a fresh directory block
        let mut slot: usize = 0;
        while slot < 12
            invariant
                slot <= 12,
                self.wf(),
                dir.wf(),
                old(self).wf(),
                old(dir).wf(),
                *self == pre,
                pre == *old(self),
                *dir == *old(dir),
                es == spec_list_dir(pre.contents(), pre.superblock, old(dir).spec_inode()@),
                !spec_entries_contain_name(es, name@),
                block_size as int == self.superblock.spec_block_size() as int,
                8 <= block_size <= 0x10_0000,
                1 <= name@.len() <= 255,
                have_type == self.superblock.spec_has_dir_entry_types(),
            ensures
                slot <= 12,
                slot < 12 ==> old(dir).spec_inode()@.direct_block_ptr[slot as int] == 0,
            decreases 12 - slot,
        {
            if dir.inode().direct_ptr(slot).is_none() {
                break ;
            }
            slot = slot + 1;
        }
        if slot == 12 {
            // indirect directory growth is not implemented
            return Err(Error::Unsupported);
        }
        if block_size > 0xFFFF {
            // a single slot cannot stride a block this large
            return Err(Error::Unsupported);
        }

        let new_block = match self.allocate_block() {
            Ok(Some(b)) => b,
            Ok(None) => {
                return Err(Error::NoSpace);
            },
            Err(e) => {
                return Err(e);
            },
        };

        let mut data = zero_vec(block_size);
        write_u32_le(&mut data, 0, inode_address.get());
        write_u16_le(&mut data, 4, block_size as u16);
        data.set(6, name.len() as u8);
        let type_byte: u8 = if have_type {
            dir_type_byte(typ)
        } else {
            0
        };
        data.set(7, type_byte);
        crate::bytes::write_bytes(&mut data, 8, name);
        proof {
            crate::bytes::lemma_splice_bytes_len(
                data@.subrange(0, block_size as int),
                8,
                name@,
            );
            assert(le16_at(data@, 4) == block_size as u16);
            assert(spec_entry_name_length(data@, have_type, 0) == name@.len());
            assert(spec_align4(8 + name@.len() as int) <= 8 + name@.len() + 3);
            assert(spec_wf_dir_slot(data@, have_type, 0));
            assert(spec_wf_dir_block_from(data@, have_type, block_size as int));
            assert(spec_wf_dir_block_from(data@, have_type, 0));
        }

        let ghost post_alloc = *self;
        proof {
            let n0 = (new_block.spec_get() - 1) as u32;
            let (g, idx) = choose|g: int, idx: int|
                crate::allocator::spec_block_alloc_post(pre, post_alloc, n0, g, idx);
            assert(post_alloc.superblock.log_block_size == pre.superblock.log_block_size);
        }
        dir.inode_mut().set_direct_ptr(slot, Some(new_block));
        let dir_addr = dir.inode_address();
        match self.write_inode(dir_addr, dir.inode()) {
            Ok(_) => {},
            Err(e) => {
                return Err(e);
            },
        }
        let ghost newblock = data@;
        let ghost mid = *self;
        match self.write_block(new_block, &data) {
            Ok(_) => {},
            Err(e) => {
                return Err(e);
            },
        }
        proof {
            let b = new_block.spec_get();
            let off = spec_block_byte_offset(mid.superblock, b);
            crate::bytes::lemma_splice_bytes_len(mid.contents(), off, newblock);
            assert(mid.superblock.spec_block_size() == pre.superblock.spec_block_size());
            assert(spec_block_byte_offset(pre.superblock, b) == off);
            assert(spec_dir_block_bytes(self.contents(), old(self).superblock, b) =~= newblock);
            assert(spec_wf_dir_block_from(newblock, have_type, 0));
            // the single slot of the fresh block is the new entry
            let e = spec_decode_dir_entry(newblock, have_type, 0);
            assert(le32_at(newblock, 0) == inode_address.spec_get());
            assert(e.name_bytes =~= name@);
            let parsed = spec_dir_entries_from(newblock, have_type, 0);
            assert(parsed == seq![e] + spec_dir_entries_from(
                newblock,
                have_type,
                e.total_size as int,
            ));
            assert(parsed[0] == e);
            lemma_live_entries_contains(parsed, e);
            assert(spec_block_has_entry(
                newblock,
                have_type,
                inode_address.spec_get(),
                name@,
                typ,
            ));
            assert(e.type_indicator == (if have_type {
                Some(spec_dir_type_byte(typ))
            } else {
                None::<u8>
            }));
            assert(dir.spec_inode()@.direct_block_ptr[slot as int] == b);
            assert(spec_dir_has_added_entry(
                self.contents(),
                old(self).superblock,
                dir.spec_inode()@,
                inode_address.spec_get(),
                name@,
                typ,
            ));
            assert(spec_dir_entries_from(newblock, have_type, e.total_size as int)
                =~= Seq::<DirEntryView>::empty());
            assert(parsed =~= seq![e]);
            // the directory inode changed in this one pointer alone
            assert(dir.spec_inode()@.direct_block_ptr =~= old(
                dir,
            ).spec_inode()@.direct_block_ptr.update(slot as int, b));
            assert(dir.spec_inode()@ =~= (InodeView {
                direct_block_ptr: dir.spec_inode()@.direct_block_ptr,
                ..old(dir).spec_inode()@
            }));
            assert(spec_dir_block_insertion_at(
                pre.contents(),
                self.contents(),
                pre.superblock,
                old(dir).spec_inode()@,
                dir.spec_inode()@,
                inode_address.spec_get(),
                name@,
                typ,
                slot as int,
            ));
            assert(spec_dir_block_insertion(
                pre.contents(),
                self.contents(),
                pre.superblock,
                old(dir).spec_inode()@,
                dir.spec_inode()@,
                inode_address.spec_get(),
                name@,
                typ,
            ));
        }
        Ok(())
    }
}

} // verus!

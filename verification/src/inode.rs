//! The 128-byte inode record, its type nibble, and the typed wrappers.
//!
//! Only the 128-byte prefix of an on-disk inode is decoded, whatever the
//! volume's `inode_size`; the trailing bytes are not read by this core and
//! are left untouched on write-back.

use vstd::prelude::*;

use crate::address::BlockAddress;
use crate::address::InodeAddress;
use crate::bytes::le16_at;
use crate::bytes::le32_at;
use crate::bytes::read_u16_le;
use crate::bytes::read_u32_le;
use crate::bytes::write_u16_le;
use crate::bytes::write_u32_le;
use crate::bytes::zero_vec;

verus! {

/// An inode's type, from the high nibble of `type_and_perm`.
#[derive(Debug, Copy, Clone, PartialEq, Eq, Structural)]
pub enum Type {
    Fifo,
    CharacterDevice,
    Directory,
    BlockDevice,
    RegularFile,
    SymLink,
    UnixSocket,
    /// A nibble that names no known type.
    Unknown,
}

/// The type encoded by the high nibble of a `type_and_perm` word.
pub open spec fn spec_type_of(type_and_perm: u16) -> Type {
    let nibble = type_and_perm >> 12u16;
    if nibble == 0x1 {
        Type::Fifo
    } else if nibble == 0x2 {
        Type::CharacterDevice
    } else if nibble == 0x4 {
        Type::Directory
    } else if nibble == 0x6 {
        Type::BlockDevice
    } else if nibble == 0x8 {
        Type::RegularFile
    } else if nibble == 0xA {
        Type::SymLink
    } else if nibble == 0xC {
        Type::UnixSocket
    } else {
        Type::Unknown
    }
}

/// The `type_and_perm` high-nibble bits for a type (0 for `Unknown`).
pub open spec fn spec_type_bits(t: Type) -> u16 {
    match t {
        Type::Fifo => 0x1000,
        Type::CharacterDevice => 0x2000,
        Type::Directory => 0x4000,
        Type::BlockDevice => 0x6000,
        Type::RegularFile => 0x8000,
        Type::SymLink => 0xA000,
        Type::UnixSocket => 0xC000,
        Type::Unknown => 0x0000,
    }
}

/// Each known type's bits decode back to that type.
pub proof fn lemma_type_bits_roundtrip(t: Type)
    requires
        t != Type::Unknown,
    ensures
        spec_type_of(spec_type_bits(t)) == t,
{
    assert(0x1000u16 >> 12u16 == 0x1) by (bit_vector);
    assert(0x2000u16 >> 12u16 == 0x2) by (bit_vector);
    assert(0x4000u16 >> 12u16 == 0x4) by (bit_vector);
    assert(0x6000u16 >> 12u16 == 0x6) by (bit_vector);
    assert(0x8000u16 >> 12u16 == 0x8) by (bit_vector);
    assert(0xA000u16 >> 12u16 == 0xA) by (bit_vector);
    assert(0xC000u16 >> 12u16 == 0xC) by (bit_vector);
}

/// The permission bits: the low 12 bits of `type_and_perm`.
pub const PERM_MASK: u16 = 0x0FFF;

/// The inode flag bits this core knows about.
pub const FLAGS_MASK: u32 = 0x0007_00FF;

/// The 128-byte inode record, field by field.
#[derive(Debug, PartialEq, Eq)]
pub struct Inode {
    pub type_and_perm: u16,
    pub user_id: u16,
    pub byte_size_lower: u32,
    pub last_access_time: u32,
    pub creation_time: u32,
    pub last_modification_time: u32,
    pub deletion_time: u32,
    pub group_id: u16,
    pub num_hard_links: u16,
    pub num_disk_sectors: u32,
    pub flags: u32,
    /// Four OS-specific bytes, held verbatim as a little-endian word.
    pub os_val_1: u32,
    /// Always twelve pointers; 0 marks an absent block.
    pub direct_block_ptr: Vec<u32>,
    pub singly_indirect_block_ptr: u32,
    pub doubly_indirect_block_ptr: u32,
    pub triply_indirect_block_ptr: u32,
    pub generation: u32,
    pub extended_attribute_block: u32,
    pub byte_size_upper_or_dir_acl: u32,
    pub fragment_block_address: u32,
    /// Twelve OS-specific bytes, held verbatim.
    pub os_val_2: Vec<u8>,
}

/// The mathematical image of an inode record.
#[verifier::ext_equal]
pub struct InodeView {
    pub type_and_perm: u16,
    pub user_id: u16,
    pub byte_size_lower: u32,
    pub last_access_time: u32,
    pub creation_time: u32,
    pub last_modification_time: u32,
    pub deletion_time: u32,
    pub group_id: u16,
    pub num_hard_links: u16,
    pub num_disk_sectors: u32,
    pub flags: u32,
    pub os_val_1: u32,
    pub direct_block_ptr: Seq<u32>,
    pub singly_indirect_block_ptr: u32,
    pub doubly_indirect_block_ptr: u32,
    pub triply_indirect_block_ptr: u32,
    pub generation: u32,
    pub extended_attribute_block: u32,
    pub byte_size_upper_or_dir_acl: u32,
    pub fragment_block_address: u32,
    pub os_val_2: Seq<u8>,
}

impl View for Inode {
    type V = InodeView;

    open spec fn view(&self) -> InodeView {
        InodeView {
            type_and_perm: self.type_and_perm,
            user_id: self.user_id,
            byte_size_lower: self.byte_size_lower,
            last_access_time: self.last_access_time,
            creation_time: self.creation_time,
            last_modification_time: self.last_modification_time,
            deletion_time: self.deletion_time,
            group_id: self.group_id,
            num_hard_links: self.num_hard_links,
            num_disk_sectors: self.num_disk_sectors,
            flags: self.flags,
            os_val_1: self.os_val_1,
            direct_block_ptr: self.direct_block_ptr@,
            singly_indirect_block_ptr: self.singly_indirect_block_ptr,
            doubly_indirect_block_ptr: self.doubly_indirect_block_ptr,
            triply_indirect_block_ptr: self.triply_indirect_block_ptr,
            generation: self.generation,
            extended_attribute_block: self.extended_attribute_block,
            byte_size_upper_or_dir_acl: self.byte_size_upper_or_dir_acl,
            fragment_block_address: self.fragment_block_address,
            os_val_2: self.os_val_2@,
        }
    }
}

/// The inode fields as laid out in a 128-byte record.
pub open spec fn spec_decode_inode(s: Seq<u8>) -> InodeView {
    InodeView {
        type_and_perm: le16_at(s, 0),
        user_id: le16_at(s, 2),
        byte_size_lower: le32_at(s, 4),
        last_access_time: le32_at(s, 8),
        creation_time: le32_at(s, 12),
        last_modification_time: le32_at(s, 16),
        deletion_time: le32_at(s, 20),
        group_id: le16_at(s, 24),
        num_hard_links: le16_at(s, 26),
        num_disk_sectors: le32_at(s, 28),
        flags: le32_at(s, 32),
        os_val_1: le32_at(s, 36),
        direct_block_ptr: Seq::new(12, |k: int| le32_at(s, 40 + 4 * k)),
        singly_indirect_block_ptr: le32_at(s, 88),
        doubly_indirect_block_ptr: le32_at(s, 92),
        triply_indirect_block_ptr: le32_at(s, 96),
        generation: le32_at(s, 100),
        extended_attribute_block: le32_at(s, 104),
        byte_size_upper_or_dir_acl: le32_at(s, 108),
        fragment_block_address: le32_at(s, 112),
        os_val_2: s.subrange(116, 128),
    }
}

/// A raw 128-byte inode record.
#[derive(Debug)]
pub struct InodeRawArray {
    data: Vec<u8>,
}

impl View for InodeRawArray {
    type V = Seq<u8>;

    closed spec fn view(&self) -> Seq<u8> {
        self.data@
    }
}

impl InodeRawArray {
    #[verifier::type_invariant]
    pub closed spec fn inv(&self) -> bool {
        self.data@.len() == 128
    }

    /// Wraps a buffer; refuses one that is not exactly 128 bytes.
    pub fn new(data: Vec<u8>) -> (r: Option<Self>)
        ensures
            r matches Some(a) ==> a@ == data@,
            r is None <==> data@.len() != 128,
    {
        if data.len() == 128 {
            Some(InodeRawArray { data })
        } else {
            None
        }
    }

    pub fn as_slice(&self) -> (r: &Vec<u8>)
        ensures
            r@ == self@,
            r@.len() == 128,
    {
        proof {
            use_type_invariant(self);
        }
        &self.data
    }
}

impl Inode {
    /// The record is well formed when its two verbatim byte areas have
    /// their fixed lengths.
    pub open spec fn wf(&self) -> bool {
        self.direct_block_ptr@.len() == 12 && self.os_val_2@.len() == 12
    }

    /// A fresh inode of type `t`: the type nibble set, everything else 0.
    pub fn new(t: Type) -> (r: Inode)
        ensures
            r.wf(),
            r@.type_and_perm == spec_type_bits(t),
            r@.byte_size_lower == 0,
            r@.byte_size_upper_or_dir_acl == 0,
            forall|k: int| 0 <= k < 12 ==> r@.direct_block_ptr[k] == 0,
            r@.singly_indirect_block_ptr == 0,
            r@.doubly_indirect_block_ptr == 0,
            r@.triply_indirect_block_ptr == 0,
            t != Type::Unknown ==> r.spec_typ() == t,
    {
        let bits: u16 = match t {
            Type::Fifo => 0x1000,
            Type::CharacterDevice => 0x2000,
            Type::Directory => 0x4000,
            Type::BlockDevice => 0x6000,
            Type::RegularFile => 0x8000,
            Type::SymLink => 0xA000,
            Type::UnixSocket => 0xC000,
            Type::Unknown => 0x0000,
        };
        proof {
            if t != Type::Unknown {
                lemma_type_bits_roundtrip(t);
            }
        }
        let mut ptrs: Vec<u32> = Vec::new();
        let mut k: usize = 0;
        while k < 12
            invariant
                k <= 12,
                ptrs@.len() == k,
                forall|j: int| 0 <= j < k ==> ptrs@[j] == 0u32,
            decreases 12 - k,
        {
            ptrs.push(0);
            k = k + 1;
        }
        let osv2 = zero_vec(12);
        Inode {
            type_and_perm: bits,
            user_id: 0,
            byte_size_lower: 0,
            last_access_time: 0,
            creation_time: 0,
            last_modification_time: 0,
            deletion_time: 0,
            group_id: 0,
            num_hard_links: 0,
            num_disk_sectors: 0,
            flags: 0,
            os_val_1: 0,
            direct_block_ptr: ptrs,
            singly_indirect_block_ptr: 0,
            doubly_indirect_block_ptr: 0,
            triply_indirect_block_ptr: 0,
            generation: 0,
            extended_attribute_block: 0,
            byte_size_upper_or_dir_acl: 0,
            fragment_block_address: 0,
            os_val_2: osv2,
        }
    }

    /// Parses a raw 128-byte record.
    pub fn decode(raw: &InodeRawArray) -> (r: Inode)
        ensures
            r@ == spec_decode_inode(raw@),
            r.wf(),
    {
        let data = raw.as_slice();
        let mut ptrs: Vec<u32> = Vec::new();
        let mut k: usize = 0;
        while k < 12
            invariant
                k <= 12,
                data@.len() == 128,
                ptrs@.len() == k,
                forall|j: int| 0 <= j < k ==> ptrs@[j] == le32_at(data@, 40 + 4 * j),
            decreases 12 - k,
        {
            let p = read_u32_le(data, 40 + 4 * k);
            ptrs.push(p);
            k = k + 1;
        }
        let osv2 = crate::bytes::read_bytes(data, 116, 12);
        let r = Inode {
            type_and_perm: read_u16_le(data, 0),
            user_id: read_u16_le(data, 2),
            byte_size_lower: read_u32_le(data, 4),
            last_access_time: read_u32_le(data, 8),
            creation_time: read_u32_le(data, 12),
            last_modification_time: read_u32_le(data, 16),
            deletion_time: read_u32_le(data, 20),
            group_id: read_u16_le(data, 24),
            num_hard_links: read_u16_le(data, 26),
            num_disk_sectors: read_u32_le(data, 28),
            flags: read_u32_le(data, 32),
            os_val_1: read_u32_le(data, 36),
            direct_block_ptr: ptrs,
            singly_indirect_block_ptr: read_u32_le(data, 88),
            doubly_indirect_block_ptr: read_u32_le(data, 92),
            triply_indirect_block_ptr: read_u32_le(data, 96),
            generation: read_u32_le(data, 100),
            extended_attribute_block: read_u32_le(data, 104),
            byte_size_upper_or_dir_acl: read_u32_le(data, 108),
            fragment_block_address: read_u32_le(data, 112),
            os_val_2: osv2,
        };
        proof {
            assert(r@.direct_block_ptr =~= spec_decode_inode(raw@).direct_block_ptr);
            assert(r@.os_val_2 =~= spec_decode_inode(raw@).os_val_2);
            assert(r@ =~= spec_decode_inode(raw@));
        }
        r
    }

    /// Serializes the inode into a fresh 128-byte record; decoding the
    /// result gives back exactly this inode.
    pub fn encode(&self) -> (r: InodeRawArray)
        requires
            self.wf(),
        ensures
            r@.len() == 128,
            spec_decode_inode(r@) == self@,
    {
        let mut data = zero_vec(128);
        write_u16_le(&mut data, 0, self.type_and_perm);
        write_u16_le(&mut data, 2, self.user_id);
        write_u32_le(&mut data, 4, self.byte_size_lower);
        write_u32_le(&mut data, 8, self.last_access_time);
        write_u32_le(&mut data, 12, self.creation_time);
        write_u32_le(&mut data, 16, self.last_modification_time);
        write_u32_le(&mut data, 20, self.deletion_time);
        write_u16_le(&mut data, 24, self.group_id);
        write_u16_le(&mut data, 26, self.num_hard_links);
        write_u32_le(&mut data, 28, self.num_disk_sectors);
        write_u32_le(&mut data, 32, self.flags);
        write_u32_le(&mut data, 36, self.os_val_1);
        let ghost pre = data@;
        let mut k: usize = 0;
        while k < 12
            invariant
                k <= 12,
                data@.len() == 128,
                self.wf(),
                forall|j: int| 0 <= j < k ==> le32_at(data@, 40 + 4 * j) == self.direct_block_ptr@[j],
                forall|j: int| 0 <= j < 128 && !(40 <= j < 40 + 4 * k) ==> data@[j] == pre[j],
            decreases 12 - k,
        {
            let p = self.direct_block_ptr[k];
            write_u32_le(&mut data, 40 + 4 * k, p);
            k = k + 1;
        }
        write_u32_le(&mut data, 88, self.singly_indirect_block_ptr);
        write_u32_le(&mut data, 92, self.doubly_indirect_block_ptr);
        write_u32_le(&mut data, 96, self.triply_indirect_block_ptr);
        write_u32_le(&mut data, 100, self.generation);
        write_u32_le(&mut data, 104, self.extended_attribute_block);
        write_u32_le(&mut data, 108, self.byte_size_upper_or_dir_acl);
        write_u32_le(&mut data, 112, self.fragment_block_address);
        crate::bytes::write_bytes(&mut data, 116, &self.os_val_2);
        proof {
            assert(spec_decode_inode(data@).direct_block_ptr =~= self@.direct_block_ptr);
            assert(spec_decode_inode(data@).os_val_2 =~= self@.os_val_2);
            assert(spec_decode_inode(data@) =~= self@);
        }
        let r = InodeRawArray::new(data);
        match r {
            Some(raw) => raw,
            None => {
                proof {
                    assert(false);
                }
                InodeRawArray { data: Vec::new() }
            },
        }
    }

    /// The inode's type, from the high nibble of `type_and_perm`.
    pub open spec fn spec_typ(&self) -> Type {
        spec_type_of(self.type_and_perm)
    }

    pub fn typ(&self) -> (r: Type)
        ensures
            r == self.spec_typ(),
    {
        let nibble = self.type_and_perm >> 12u16;
        if nibble == 0x1 {
            Type::Fifo
        } else if nibble == 0x2 {
            Type::CharacterDevice
        } else if nibble == 0x4 {
            Type::Directory
        } else if nibble == 0x6 {
            Type::BlockDevice
        } else if nibble == 0x8 {
            Type::RegularFile
        } else if nibble == 0xA {
            Type::SymLink
        } else if nibble == 0xC {
            Type::UnixSocket
        } else {
            Type::Unknown
        }
    }

    /// The permission bits: the low 12 bits of `type_and_perm`.
    pub fn perm(&self) -> (r: u16)
        ensures
            r == self.type_and_perm & PERM_MASK,
    {
        self.type_and_perm & PERM_MASK
    }

    /// The known flag bits of the inode.
    pub fn flags(&self) -> (r: u32)
        ensures
            r == self.flags & FLAGS_MASK,
    {
        self.flags & FLAGS_MASK
    }

    pub fn set_file_size_lower(&mut self, size: u32)
        ensures
            *final(self) == (Inode { byte_size_lower: size, ..*old(self) }),
    {
        self.byte_size_lower = size;
    }

    pub fn set_file_size_upper(&mut self, size: u32)
        ensures
            *final(self) == (Inode { byte_size_upper_or_dir_acl: size, ..*old(self) }),
    {
        self.byte_size_upper_or_dir_acl = size;
    }

    pub fn direct_ptr(&self, index: usize) -> (r: Option<BlockAddress>)
        requires
            self.wf(),
            index < 12,
        ensures
            r matches Some(a) ==> a.spec_get() == self.direct_block_ptr@[index as int]
                && self.direct_block_ptr@[index as int] != 0,
            r is None <==> self.direct_block_ptr@[index as int] == 0,
    {
        BlockAddress::new(self.direct_block_ptr[index])
    }

    /// All twelve direct pointers, absent slots as `None`.
    pub fn direct_ptrs(&self) -> (r: Vec<Option<BlockAddress>>)
        requires
            self.wf(),
        ensures
            r@.len() == 12,
            forall|k: int|
                0 <= k < 12 ==> {
                    &&& (#[trigger] r@[k]) matches Some(a) ==> a.spec_get()
                        == self.direct_block_ptr@[k] && self.direct_block_ptr@[k] != 0
                    &&& r@[k] is None <==> self.direct_block_ptr@[k] == 0
                },
    {
        let mut r: Vec<Option<BlockAddress>> = Vec::new();
        let mut k: usize = 0;
        while k < 12
            invariant
                k <= 12,
                self.wf(),
                r@.len() == k,
                forall|j: int|
                    0 <= j < k ==> {
                        &&& (#[trigger] r@[j]) matches Some(a) ==> a.spec_get()
                            == self.direct_block_ptr@[j] && self.direct_block_ptr@[j] != 0
                        &&& r@[j] is None <==> self.direct_block_ptr@[j] == 0
                    },
            decreases 12 - k,
        {
            r.push(BlockAddress::new(self.direct_block_ptr[k]));
            k = k + 1;
        }
        r
    }

    pub fn set_direct_ptr(&mut self, index: usize, ptr: Option<BlockAddress>)
        requires
            old(self).wf(),
            index < 12,
        ensures
            final(self).wf(),
            final(self).direct_block_ptr@ == old(self).direct_block_ptr@.update(
                index as int,
                match ptr {
                    Some(a) => a.spec_get(),
                    None => 0u32,
                },
            ),
            *final(self) == (Inode {
                direct_block_ptr: final(self).direct_block_ptr,
                ..*old(self)
            }),
    {
        let v: u32 = match ptr {
            Some(a) => a.into_u32(),
            None => 0,
        };
        self.direct_block_ptr.set(index, v);
    }

    pub fn single_indirect_ptr(&self) -> (r: Option<BlockAddress>)
        ensures
            r matches Some(a) ==> a.spec_get() == self.singly_indirect_block_ptr
                && self.singly_indirect_block_ptr != 0,
            r is None <==> self.singly_indirect_block_ptr == 0,
    {
        BlockAddress::new(self.singly_indirect_block_ptr)
    }

    pub fn double_indirect_ptr(&self) -> (r: Option<BlockAddress>)
        ensures
            r matches Some(a) ==> a.spec_get() == self.doubly_indirect_block_ptr
                && self.doubly_indirect_block_ptr != 0,
            r is None <==> self.doubly_indirect_block_ptr == 0,
    {
        BlockAddress::new(self.doubly_indirect_block_ptr)
    }

    pub fn triple_indirect_ptr(&self) -> (r: Option<BlockAddress>)
        ensures
            r matches Some(a) ==> a.spec_get() == self.triply_indirect_block_ptr
                && self.triply_indirect_block_ptr != 0,
            r is None <==> self.triply_indirect_block_ptr == 0,
    {
        BlockAddress::new(self.triply_indirect_block_ptr)
    }

    /// The file length in bytes: directories use only the lower word, the
    /// upper word being `dir_acl`; other types use the full 64-bit size.
    pub open spec fn spec_len(&self) -> u64 {
        if self.spec_typ() == Type::Directory {
            self.byte_size_lower as u64
        } else {
            ((self.byte_size_upper_or_dir_acl as int) * 0x1_0000_0000 + self.byte_size_lower as int)
                as u64
        }
    }

    pub fn len(&self) -> (r: u64)
        ensures
            r == self.spec_len(),
    {
        if self.typ() == Type::Directory {
            self.byte_size_lower as u64
        } else {
            let upper = self.byte_size_upper_or_dir_acl as u64;
            let lower = self.byte_size_lower as u64;
            proof {
                lemma_size_words_join(self.byte_size_upper_or_dir_acl, self.byte_size_lower);
            }
            (upper << 32u64) | lower
        }
    }

    pub fn is_empty(&self) -> (r: bool)
        ensures
            r == (self.spec_len() == 0),
    {
        self.len() == 0
    }
}

/// Joining a 64-bit size from its two 32-bit on-disk words.
pub proof fn lemma_size_words_join(upper: u32, lower: u32)
    ensures
        ((upper as u64) << 32u64) | (lower as u64) == ((upper as int) * 0x1_0000_0000
            + lower as int) as u64,
{
    let u = upper as u64;
    let l = lower as u64;
    assert((u << 32u64) | l == u * 0x1_0000_0000 + l) by (bit_vector)
        requires
            u < 0x1_0000_0000,
            l < 0x1_0000_0000,
    ;
}

/// A directory: an inode whose type nibble says so, paired with its address.
#[derive(Debug)]
pub struct Directory {
    address: InodeAddress,
    inode: Inode,
}

impl Directory {
    pub closed spec fn spec_address(&self) -> InodeAddress {
        self.address
    }

    pub closed spec fn spec_inode(&self) -> Inode {
        self.inode
    }

    pub open spec fn wf(&self) -> bool {
        self.spec_inode().wf() && self.spec_inode().spec_typ() == Type::Directory
    }

    /// Binds an address and an inode as a directory; hands both back
    /// unchanged when the inode has another type.
    pub fn try_new(address: InodeAddress, inode: Inode) -> (r: Result<
        Directory,
        (InodeAddress, Inode),
    >)
        requires
            inode.wf(),
        ensures
            inode.spec_typ() == Type::Directory ==> (r matches Ok(d) && d.wf() && d.spec_address()
                == address && d.spec_inode() == inode),
            inode.spec_typ() != Type::Directory ==> r == Err::<Directory, _>((address, inode)),
    {
        if inode.typ() == Type::Directory {
            Ok(Directory { address, inode })
        } else {
            Err((address, inode))
        }
    }

    pub fn inode_address(&self) -> (r: InodeAddress)
        ensures
            r == self.spec_address(),
    {
        self.address
    }

    pub fn inode(&self) -> (r: &Inode)
        ensures
            *r == self.spec_inode(),
    {
        &self.inode
    }

    pub fn inode_mut(&mut self) -> (r: &mut Inode)
        ensures
            *r == old(self).spec_inode(),
            final(self).spec_inode() == *final(r),
            final(self).spec_address() == old(self).spec_address(),
    {
        &mut self.inode
    }

    pub fn into_inner(self) -> (r: (InodeAddress, Inode))
        ensures
            r.0 == self.spec_address(),
            r.1 == self.spec_inode(),
    {
        (self.address, self.inode)
    }
}

/// A regular file: an inode whose type nibble says so, with its address.
#[derive(Debug)]
pub struct RegularFile {
    address: InodeAddress,
    inode: Inode,
}

impl RegularFile {
    pub closed spec fn spec_address(&self) -> InodeAddress {
        self.address
    }

    pub closed spec fn spec_inode(&self) -> Inode {
        self.inode
    }

    pub open spec fn wf(&self) -> bool {
        self.spec_inode().wf() && self.spec_inode().spec_typ() == Type::RegularFile
    }

    /// Binds an address and an inode as a regular file; hands both back
    /// unchanged when the inode has another type.
    pub fn try_new(address: InodeAddress, inode: Inode) -> (r: Result<
        RegularFile,
        (InodeAddress, Inode),
    >)
        requires
            inode.wf(),
        ensures
            inode.spec_typ() == Type::RegularFile ==> (r matches Ok(f) && f.wf() && f.spec_address()
                == address && f.spec_inode() == inode),
            inode.spec_typ() != Type::RegularFile ==> r == Err::<RegularFile, _>((address, inode)),
    {
        if inode.typ() == Type::RegularFile {
            Ok(RegularFile { address, inode })
        } else {
            Err((address, inode))
        }
    }

    pub fn inode_address(&self) -> (r: InodeAddress)
        ensures
            r == self.spec_address(),
    {
        self.address
    }

    pub fn inode(&self) -> (r: &Inode)
        ensures
            *r == self.spec_inode(),
    {
        &self.inode
    }

    pub fn inode_mut(&mut self) -> (r: &mut Inode)
        ensures
            *r == old(self).spec_inode(),
            final(self).spec_inode() == *final(r),
            final(self).spec_address() == old(self).spec_address(),
    {
        &mut self.inode
    }

    pub fn into_inner(self) -> (r: (InodeAddress, Inode))
        ensures
            r.0 == self.spec_address(),
            r.1 == self.spec_inode(),
    {
        (self.address, self.inode)
    }

    pub fn len(&self) -> (r: u64)
        ensures
            r == self.spec_inode().spec_len(),
    {
        self.inode.len()
    }

    pub fn typ(&self) -> (r: Type)
        ensures
            r == self.spec_inode().spec_typ(),
    {
        self.inode.typ()
    }
}

} // verus!

//! Creating new inodes and entering them into a directory.

use vstd::prelude::*;

use crate::address::InodeAddress;
use crate::device::BlockDevice;
use crate::dir::dir_type_of_inode_type;
use crate::dir::spec_dir_type_of_inode_type;
use crate::dir::DirType;
use crate::dir::lemma_dir_has_added_entry_superblock;
use crate::dir::spec_dir_has_added_entry;
use crate::error::Error;
use crate::inode::Directory;
use crate::inode::Inode;
use crate::inode::RegularFile;
use crate::inode::Type;
use crate::Ext2Fs;

verus! {

impl<T: BlockDevice> Ext2Fs<T> {
    /// Creates an inode of type `typ` and enters it into `parent` under
    /// `name`: allocates an inode address, persists a fresh zeroed inode
    /// of that type, and adds the directory entry. A duplicate name is
    /// refused with `EntryExists`; an exhausted inode pool with `NoSpace`.
    pub fn create_inode(
        &mut self,
        parent: &mut Directory,
        name: &Vec<u8>,
        typ: Type,
    ) -> (r: Result<(InodeAddress, Inode), Error>)
        requires
            old(self).wf(),
            old(parent).wf(),
            1 <= name@.len() <= 255,
            typ != Type::Unknown,
        ensures
            final(self).wf(),
            final(parent).wf(),
            final(self).contents().len() == old(self).contents().len(),
            final(self).block_device.spec_sector_size() == old(self).block_device.spec_sector_size(),
            r matches Err(e) ==> (e == Error::NoSpace || e == Error::EntryExists || e
                == Error::DeviceRead || e == Error::DeviceWrite || e == Error::Unsupported || e
                matches Error::InvalidInodeAddress(_) || e
                == Error::UnableToReadBlockGroupDescriptorTable || e
                == Error::UnableToWriteBlockGroupDescriptorTable || e
                == Error::UnableToWriteSuperblock),
            (r == Err::<(InodeAddress, Inode), Error>(Error::NoSpace)
                && crate::allocator::spec_all_inode_bitmaps_full(*old(self))) ==> final(self).contents() == old(self).contents() && *final(parent) == *old(parent),
            r == Err::<(InodeAddress, Inode), Error>(Error::EntryExists) ==> *final(parent)
                == *old(parent),
            r matches Ok((a, ino)) ==> {
                &&& a.spec_get() >= 1
                &&& ino.wf()
                &&& ino.spec_typ() == typ
                &&& ino.spec_len() == 0
                &&& forall|p: int| 0 <= p < 12 ==> (#[trigger] ino@.direct_block_ptr[p]) == 0
                &&& ino@.singly_indirect_block_ptr == 0
                &&& ino@.doubly_indirect_block_ptr == 0
                &&& ino@.triply_indirect_block_ptr == 0
                &&& spec_dir_has_added_entry(
                    final(self).contents(),
                    final(self).superblock,
                    final(parent).spec_inode()@,
                    a.spec_get(),
                    name@,
                    spec_dir_type_of_inode_type(typ).unwrap(),
                )
            },
    {
        let ghost pre = *old(self);
        let inode_address = match self.allocate_inode() {
            Ok(Some(a)) => a,
            Ok(None) => {
                return Err(Error::NoSpace);
            },
            Err(e) => {
                return Err(e);
            },
        };
        proof {
            // an address came back, so some bitmap bit was still clear
            let n0 = (inode_address.spec_get() - 1) as u32;
            let (g, idx) = choose|g: int, idx: int|
                crate::allocator::spec_inode_alloc_post(pre, *self, n0, g, idx);
            assert(!crate::allocator::spec_group_bitmap_full(
                pre.contents(),
                pre.superblock,
                pre.bgdt@[g].inode_usage_bitmap_block,
            ));
            assert(!crate::allocator::spec_all_inode_bitmaps_full(pre));
        }
        let inode = Inode::new(typ);
        match self.write_inode(inode_address, &inode) {
            Ok(_) => {},
            Err(e) => {
                return Err(e);
            },
        }
        let dir_type = match dir_type_of_inode_type(inode.typ()) {
            Some(d) => d,
            None => {
                proof {
                    assert(false);
                }
                return Err(Error::Unsupported);
            },
        };
        let ghost mid = *self;
        match self.add_entry_to_dir(parent, name, inode_address, dir_type) {
            Ok(_) => {},
            Err(e) => {
                return Err(e);
            },
        }
        proof {
            lemma_dir_has_added_entry_superblock(
                self.contents(),
                mid.superblock,
                self.superblock,
                parent.spec_inode()@,
                inode_address.spec_get(),
                name@,
                dir_type,
            );
        }
        Ok((inode_address, inode))
    }

    /// Creates a regular file named `name` in `parent`, with length 0.
    pub fn create_regular_file(&mut self, parent: &mut Directory, name: &Vec<u8>) -> (r: Result<
        RegularFile,
        Error,
    >)
        requires
            old(self).wf(),
            old(parent).wf(),
            1 <= name@.len() <= 255,
        ensures
            final(self).wf(),
            final(parent).wf(),
            final(self).contents().len() == old(self).contents().len(),
            final(self).block_device.spec_sector_size() == old(self).block_device.spec_sector_size(),
            r matches Err(e) ==> (e == Error::NoSpace || e == Error::EntryExists || e
                == Error::DeviceRead || e == Error::DeviceWrite || e == Error::Unsupported || e
                matches Error::InvalidInodeAddress(_) || e
                == Error::UnableToReadBlockGroupDescriptorTable || e
                == Error::UnableToWriteBlockGroupDescriptorTable || e
                == Error::UnableToWriteSuperblock),
            (r == Err::<RegularFile, Error>(Error::NoSpace)
                && crate::allocator::spec_all_inode_bitmaps_full(*old(self))) ==> final(self).contents() == old(self).contents() && *final(parent) == *old(parent),
            r == Err::<RegularFile, Error>(Error::EntryExists) ==> *final(parent) == *old(parent),
            r matches Ok(f) ==> {
                &&& f.wf()
                &&& f.spec_inode().spec_typ() == Type::RegularFile
                &&& f.spec_inode().spec_len() == 0
                &&& spec_dir_has_added_entry(
                    final(self).contents(),
                    final(self).superblock,
                    final(parent).spec_inode()@,
                    f.spec_address().spec_get(),
                    name@,
                    DirType::RegularFile,
                )
            },
    {
        let (address, inode) = match self.create_inode(parent, name, Type::RegularFile) {
            Ok(v) => v,
            Err(e) => {
                return Err(e);
            },
        };
        match RegularFile::try_new(address, inode) {
            Ok(f) => Ok(f),
            Err(_) => {
                proof {
                    assert(false);
                }
                Err(Error::NotRegularFile)
            },
        }
    }
}

} // verus!

//! Non-zero inode and block addresses.
//!
//! Address 0 is reserved on disk: a zero block pointer marks a sparse or
//! unallocated block, and inode 0 marks a directory-entry tombstone. The
//! address types therefore hold a non-zero `u32` by construction.

use vstd::prelude::*;

verus! {

/// A 1-based inode address; inode 2 is the root directory.
#[derive(Debug, Copy, Clone, PartialEq, Eq, Structural)]
pub struct InodeAddress {
    value: u32,
}

impl InodeAddress {
    pub closed spec fn spec_get(&self) -> u32 {
        self.value
    }

    #[verifier::type_invariant]
    pub closed spec fn inv(&self) -> bool {
        self.value != 0
    }


    /// Wraps `n`; address 0 is reserved and refused.
    pub fn new(n: u32) -> (r: Option<Self>)
        ensures
            r matches Some(a) ==> a.spec_get() == n && n != 0,
            r is None <==> n == 0,
    {
        if n == 0 {
            None
        } else {
            Some(InodeAddress { value: n })
        }
    }

    pub fn get(&self) -> (r: u32)
        ensures
            r == self.spec_get(),
            r != 0,
    {
        proof {
            use_type_invariant(self);
        }
        self.value
    }
}

/// A 1-based block address; block 1 starts at byte 1024.
#[derive(Debug, Copy, Clone, PartialEq, Eq, Structural)]
pub struct BlockAddress {
    value: u32,
}

impl BlockAddress {
    pub closed spec fn spec_get(&self) -> u32 {
        self.value
    }

    #[verifier::type_invariant]
    pub closed spec fn inv(&self) -> bool {
        self.value != 0
    }


    /// Wraps `n`; the value 0 means "absent" and is refused.
    pub fn new(n: u32) -> (r: Option<Self>)
        ensures
            r matches Some(a) ==> a.spec_get() == n && n != 0,
            r is None <==> n == 0,
    {
        if n == 0 {
            None
        } else {
            Some(BlockAddress { value: n })
        }
    }

    pub fn get(&self) -> (r: u32)
        ensures
            r == self.spec_get(),
            r != 0,
    {
        proof {
            use_type_invariant(self);
        }
        self.value
    }

    pub fn into_u32(self) -> (r: u32)
        ensures
            r == self.spec_get(),
            r != 0,
    {
        proof {
            use_type_invariant(self);
        }
        self.value
    }
}

} // verus!

//! Boot ROM: a fixed 64 KiB byte array with read-only access.

use vstd::prelude::*;

verus! {

pub const ROM_SIZE: usize = 65536;

pub struct Rom {
    pub data: [u8; 65536],
}

impl Rom {
    pub fn read8(&self, offset: u32) -> (b: u8)
        requires
            offset < 65536,
        ensures
            b == self.data@[offset as int],
    {
        self.data[offset as usize]
    }
}

} // verus!

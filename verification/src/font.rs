//! Character font RAM: a fixed-size byte array with bounds-checked byte
//! access.

use vstd::prelude::*;
use vstd::pervasive::VecAdditionalExecFns;
use crate::bus::BusError;

verus! {

pub struct FontRam {
    pub data: Vec<u8>,
}

impl FontRam {
    /// A zero-filled block of `size` bytes.
    pub fn new(size: usize) -> (v: FontRam)
        ensures
            v.data@ == Seq::new(size as nat, |i: int| 0u8),
    {
        FontRam { data: vec![0u8; size] }
    }

    pub fn write8(&mut self, offset: u32, value: u8) -> (r: Result<(), BusError>)
        ensures
            offset < old(self).data@.len() ==> r == Ok::<(), BusError>(())
                && final(self).data@ == old(self).data@.update(offset as int, value),
            offset >= old(self).data@.len() ==> r == Err::<(), BusError>(BusError::OutOfBounds(offset))
                && *final(self) == *old(self),
    {
        let off = offset as usize;
        if off >= self.data.len() {
            return Err(BusError::OutOfBounds(offset));
        }
        self.data.set(off, value);
        Ok(())
    }

    pub fn read8(&self, offset: u32) -> (r: Result<u8, BusError>)
        ensures
            offset < self.data@.len() ==> r == Ok::<u8, BusError>(self.data@[offset as int]),
            offset >= self.data@.len() ==> r == Err::<u8, BusError>(BusError::OutOfBounds(offset)),
    {
        let off = offset as usize;
        if off >= self.data.len() {
            return Err(BusError::OutOfBounds(offset));
        }
        Ok(self.data[off])
    }
}

} // verus!

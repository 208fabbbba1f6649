//! General RAM: a fixed-size byte array with bounds-checked 8- and 32-bit
//! little-endian access. Holds the reset and exception vectors.

use vstd::prelude::*;
use vstd::pervasive::VecAdditionalExecFns;
use crate::bus::BusError;
use crate::vram::{spec_read32_at, spec_write32_at};

verus! {

pub struct Ram {
    pub data: Vec<u8>,
}

impl Ram {
    /// A zero-filled block of `size` bytes.
    pub fn new(size: usize) -> (v: Ram)
        ensures
            v.data@ == Seq::new(size as nat, |i: int| 0u8),
    {
        Ram { data: vec![0u8; size] }
    }

    /// Bounds check: `size` bytes starting at `offset` must lie inside the
    /// block.
    fn check_range(&self, offset: u32, size: usize) -> (r: Result<usize, BusError>)
        ensures
            r is Ok <==> offset + size <= self.data@.len(),
            r is Ok ==> r->Ok_0 == offset as usize,
            r is Err ==> r->Err_0 == BusError::OutOfBounds(offset),
    {
        let off = offset as usize;
        if size > self.data.len() || off > self.data.len() - size {
            return Err(BusError::OutOfBounds(offset));
        }
        Ok(off)
    }

    pub fn write8(&mut self, offset: u32, value: u8) -> (r: Result<(), BusError>)
        ensures
            offset < old(self).data@.len() ==> r == Ok::<(), BusError>(())
                && final(self).data@ == old(self).data@.update(offset as int, value),
            offset >= old(self).data@.len() ==> r == Err::<(), BusError>(BusError::OutOfBounds(offset))
                && *final(self) == *old(self),
    {
        let off = match self.check_range(offset, 1) {
            Ok(o) => o,
            Err(e) => { return Err(e); },
        };
        self.data.set(off, value);
        Ok(())
    }

    pub fn read8(&self, offset: u32) -> (r: Result<u8, BusError>)
        ensures
            offset < self.data@.len() ==> r == Ok::<u8, BusError>(self.data@[offset as int]),
            offset >= self.data@.len() ==> r == Err::<u8, BusError>(BusError::OutOfBounds(offset)),
    {
        let off = self.check_range(offset, 1)?;
        Ok(self.data[off])
    }

    pub fn write32(&mut self, offset: u32, value: u32) -> (r: Result<(), BusError>)
        ensures
            offset + 4 <= old(self).data@.len() ==> r == Ok::<(), BusError>(())
                && final(self).data@ == spec_write32_at(old(self).data@, offset as int, value),
            offset + 4 > old(self).data@.len() ==> r == Err::<(), BusError>(BusError::OutOfBounds(offset))
                && *final(self) == *old(self),
    {
        let off = match self.check_range(offset, 4) {
            Ok(o) => o,
            Err(e) => { return Err(e); },
        };
        let n = self.data.len();
        proof {
            assert(off + 4 <= n);
        }
        self.data.set(off, (value & 0xFF) as u8);
        self.data.set(off + 1, ((value >> 8) & 0xFF) as u8);
        self.data.set(off + 2, ((value >> 16) & 0xFF) as u8);
        self.data.set(off + 3, ((value >> 24) & 0xFF) as u8);
        Ok(())
    }

    pub fn read32(&self, offset: u32) -> (r: Result<u32, BusError>)
        ensures
            offset + 4 <= self.data@.len() ==> r == Ok::<u32, BusError>(
                spec_read32_at(self.data@, offset as int),
            ),
            offset + 4 > self.data@.len() ==> r == Err::<u32, BusError>(BusError::OutOfBounds(offset)),
    {
        let off = self.check_range(offset, 4)?;
        let n = self.data.len();
        proof {
            assert(off + 4 <= n);
        }
        let b0 = self.data[off];
        let b1 = self.data[off + 1];
        let b2 = self.data[off + 2];
        let b3 = self.data[off + 3];
        Ok((b0 as u32) | ((b1 as u32) << 8) | ((b2 as u32) << 16) | ((b3 as u32) << 24))
    }
}

} // verus!

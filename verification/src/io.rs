//! A memory backed by a buffer supplied from outside, such as a device's.
use vstd::prelude::*;

use crate::memory::Addressable;

verus! {

pub struct MappedMemoryBuffer(pub Vec<u8>);

impl MappedMemoryBuffer {
    pub fn new(buf: Vec<u8>) -> (m: MappedMemoryBuffer)
        ensures
            m.contents() == buf@,
    {
        MappedMemoryBuffer(buf)
    }

    /// Sets every byte to zero.
    pub fn zero_all(&mut self)
        ensures
            final(self).contents() == Seq::new(old(self).contents().len(), |i: int| 0u8),
    {
        let mut i: usize = 0;
        while i < self.0.len()
            invariant
                self.0@.len() == old(self).0@.len(),
                i <= self.0@.len(),
                forall|j: int| 0 <= j < i ==> self.0@[j] == 0u8,
            decreases self.0.len() - i,
        {
            self.0.set(i, 0);
            i = i + 1;
        }
        assert(self.0@ =~= Seq::new(old(self).contents().len(), |i: int| 0u8));
    }
}

impl Addressable for MappedMemoryBuffer {
    open spec fn contents(&self) -> Seq<u8> {
        self.0@
    }

    fn read(&self, addr: u16) -> (r: Option<u8>) {
        if (addr as usize) < self.0.len() {
            Some(self.0[addr as usize])
        } else {
            None
        }
    }

    fn write(&mut self, addr: u16, value: u8) -> (ok: bool) {
        if (addr as usize) < self.0.len() {
            self.0.set(addr as usize, value);
            true
        } else {
            false
        }
    }
}

} // verus!

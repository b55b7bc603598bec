//! DMA-safe buffers.
//!
//! A `DmaBuf` is the unit of data handed to a block device: a zero-
//! initialized byte buffer of a known length. On the bare-metal target the
//! backing store is a run of physically contiguous frames; here the buffer
//! carries its bytes directly, and the frame bookkeeping (physical address,
//! cache flush and invalidate) stays with the hardware driver.

use vstd::prelude::*;

use crate::bytes::overlay;
use crate::phys::AllocError;

verus! {

/// A byte buffer for block device I/O.
pub struct DmaBuf {
    data: Vec<u8>,
}

impl DmaBuf {
    pub closed spec fn view(self) -> Seq<u8> {
        self.data@
    }

    /// Allocate a zeroed buffer of `size` bytes.
    pub fn allocate(size: usize) -> (r: Result<Self, AllocError>)
        ensures
            match r {
                Ok(b) => {
                    &&& size > 0
                    &&& b@.len() == size
                    &&& forall|i: int| 0 <= i < size ==> b@[i] == 0u8
                },
                Err(e) => size == 0 && e == AllocError::InvalidSize,
            },
    {
        if size == 0 {
            return Err(AllocError::InvalidSize);
        }
        let mut data: Vec<u8> = Vec::new();
        let mut i: usize = 0;
        while i < size
            invariant
                i <= size,
                data@.len() == i,
                forall|k: int| 0 <= k < i ==> data@[k] == 0u8,
            decreases size - i,
        {
            data.push(0u8);
            i += 1;
        }
        Ok(DmaBuf { data })
    }

    /// Usable length in bytes.
    pub fn len(&self) -> (r: usize)
        ensures
            r == self@.len(),
    {
        self.data.len()
    }

    pub fn is_empty(&self) -> (r: bool)
        ensures
            r == (self@.len() == 0),
    {
        self.data.len() == 0
    }

    /// View as a byte slice.
    pub fn as_slice(&self) -> (r: &[u8])
        ensures
            r@ == self@,
    {
        self.data.as_slice()
    }

    /// The byte at `i`.
    pub fn byte(&self, i: usize) -> (r: u8)
        requires
            i < self@.len(),
        ensures
            r == self@[i as int],
    {
        self.data[i]
    }

    /// Overwrite the byte at `i`.
    pub fn set_byte(&mut self, i: usize, v: u8)
        requires
            i < old(self)@.len(),
        ensures
            final(self)@ == old(self)@.update(i as int, v),
    {
        self.data[i] = v;
    }

    /// Write `src` into the buffer starting at `offset`.
    pub fn write_at(&mut self, offset: usize, src: &[u8])
        requires
            offset + src@.len() <= old(self)@.len(),
        ensures
            final(self)@ == overlay(old(self)@, offset as int, src@),
    {
        let n = src.len();
        proof {
            vstd::std_specs::vec::axiom_spec_len(&self.data);
        }
        let mut i: usize = 0;
        while i < n
            invariant
                i <= n,
                n == src@.len(),
                offset + n <= self@.len(),
                self@.len() <= usize::MAX,
                self@.len() == old(self)@.len(),
                forall|k: int| 0 <= k < i ==> self@[offset + k] == src@[k],
                forall|k: int|
                    0 <= k < self@.len() && !(offset <= k < offset + i) ==> self@[k] == old(
                        self,
                    )@[k],
            decreases n - i,
        {
            self.data[offset + i] = src[i];
            i += 1;
        }
        proof {
            assert(self@ =~= overlay(old(self)@, offset as int, src@));
        }
    }

    /// Copy `data` into the buffer at offset 0; the tail keeps its bytes.
    pub fn copy_from_slice(&mut self, data: &[u8])
        requires
            data@.len() <= old(self)@.len(),
        ensures
            final(self)@ == overlay(old(self)@, 0, data@),
    {
        self.write_at(0, data);
    }

    /// Copy `len` bytes at `offset` out of the buffer into the front of
    /// `dest`.
    pub fn copy_to_slice(&self, dest: &mut Vec<u8>, offset: usize, len: usize)
        requires
            offset + len <= self@.len(),
            len <= old(dest)@.len(),
        ensures
            final(dest)@ == overlay(old(dest)@, 0, self@.subrange(offset as int, offset + len)),
    {
        proof {
            vstd::std_specs::vec::axiom_spec_len(&self.data);
        }
        let mut i: usize = 0;
        while i < len
            invariant
                i <= len,
                offset + len <= self@.len(),
                self@.len() <= usize::MAX,
                len <= dest@.len(),
                dest@.len() == old(dest)@.len(),
                forall|k: int| 0 <= k < i ==> dest@[k] == self@[offset + k],
                forall|k: int| i <= k < dest@.len() ==> dest@[k] == old(dest)@[k],
            decreases len - i,
        {
            let v = self.data[offset + i];
            dest[i] = v;
            i += 1;
        }
        proof {
            assert(dest@ =~= overlay(old(dest)@, 0, self@.subrange(offset as int, offset + len)));
        }
    }
}

} // verus!

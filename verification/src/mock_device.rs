//! RAM-backed block device for testing.
//!
//! Simulates a block device entirely in memory, so the block allocator,
//! the file table and the VFS adapter can be exercised without hardware.

use vstd::prelude::*;

use crate::block_device::BlockDevice;
use crate::bytes::overlay;
use crate::dma::DmaBuf;
use crate::nvme_command::NvmeError;

verus! {

/// RAM-backed block device.
pub struct RamDisk {
    data: Vec<u8>,
    block_size: u32,
    total_blocks: u64,
    flush_count: u64,
}

impl RamDisk {
    pub closed spec fn spec_flush_count(self) -> u64 {
        self.flush_count
    }

    /// Create a RAM disk with the given geometry, zero-filled.
    pub fn new(total_blocks: u64, block_size: u32) -> (r: Self)
        requires
            0 < block_size,
            total_blocks * block_size <= 0x1000_0000,
        ensures
            r.inv(),
            r.spec_total_blocks() == total_blocks,
            r.spec_block_size() == block_size,
            r.bytes().len() == total_blocks * block_size,
            forall|i: int| 0 <= i < r.bytes().len() ==> r.bytes()[i] == 0u8,
            r.spec_flush_count() == 0,
    {
        let total_bytes: usize = (total_blocks * (block_size as u64)) as usize;
        let mut data: Vec<u8> = Vec::new();
        let mut i: usize = 0;
        while i < total_bytes
            invariant
                i <= total_bytes,
                data@.len() == i,
                forall|k: int| 0 <= k < i ==> data@[k] == 0u8,
            decreases total_bytes - i,
        {
            data.push(0u8);
            i += 1;
        }
        RamDisk { data, block_size, total_blocks, flush_count: 0 }
    }

    /// How many times `flush` was called.
    pub fn flush_count(&self) -> (r: u64)
        ensures
            r == self.spec_flush_count(),
    {
        self.flush_count
    }

    /// Raw bytes at an offset, for test verification.
    pub fn read_raw(&self, offset: usize, len: usize) -> (r: &[u8])
        requires
            self.inv(),
            offset + len <= self.bytes().len(),
        ensures
            r@ == self.bytes().subrange(offset as int, offset + len),
    {
        vstd::slice::slice_subrange(self.data.as_slice(), offset, offset + len)
    }
}

impl BlockDevice for RamDisk {
    closed spec fn bytes(&self) -> Seq<u8> {
        self.data@
    }

    closed spec fn spec_block_size(&self) -> u32 {
        self.block_size
    }

    closed spec fn spec_total_blocks(&self) -> u64 {
        self.total_blocks
    }

    closed spec fn inv(&self) -> bool {
        &&& self.data@.len() == self.total_blocks * self.block_size
        &&& 0 < self.block_size
        &&& self.data@.len() <= 0x1000_0000
    }

    proof fn lemma_geometry(&self) {
    }

    fn read_blocks(&mut self, lba: u64, block_count: u16, buf: &mut DmaBuf) -> (r: Result<
        (),
        NvmeError,
    >) {
        let bs = self.block_size as u64;
        proof {
            let l = lba as int;
            let c = block_count as int;
            let t = self.total_blocks as int;
            let b = bs as int;
            assert(l * b + c * b == (l + c) * b) by (nonlinear_arith);
            assert((l + c) * b <= t * b) by (nonlinear_arith)
                requires
                    l + c <= t,
                    b >= 0,
            ;
            assert(l * b >= 0 && c * b >= 0) by (nonlinear_arith)
                requires
                    l >= 0 && c >= 0 && b >= 0,
            ;
        }
        proof {
            assert(lba * bs <= 0x1000_0000 && block_count * bs <= 0x1000_0000);
        }
        let start: usize = (lba * bs) as usize;
        let len: usize = (block_count as u64 * bs) as usize;
        let src = vstd::slice::slice_subrange(self.data.as_slice(), start, start + len);
        buf.write_at(0, src);
        proof {
            assert(buf@ =~= old(self).bytes().subrange(
                lba as int * old(self).spec_block_size(),
                (lba + block_count) * old(self).spec_block_size(),
            ));
        }
        Ok(())
    }

    fn write_blocks(&mut self, lba: u64, block_count: u16, buf: &DmaBuf) -> (r: Result<
        (),
        NvmeError,
    >) {
        let bs = self.block_size as u64;
        proof {
            let l = lba as int;
            let c = block_count as int;
            let t = self.total_blocks as int;
            let b = bs as int;
            assert(l * b + c * b == (l + c) * b) by (nonlinear_arith);
            assert((l + c) * b <= t * b) by (nonlinear_arith)
                requires
                    l + c <= t,
                    b >= 0,
            ;
            assert(l * b >= 0 && c * b >= 0) by (nonlinear_arith)
                requires
                    l >= 0 && c >= 0 && b >= 0,
            ;
        }
        proof {
            assert(lba * bs <= 0x1000_0000 && block_count * bs <= 0x1000_0000);
        }
        let start: usize = (lba * bs) as usize;
        let len: usize = (block_count as u64 * bs) as usize;
        let mut i: usize = 0;
        while i < len
            invariant
                i <= len,
                start + len <= self.data@.len(),
                self.data@.len() <= 0x1000_0000,
                len == buf@.len(),
                self.data@.len() == old(self).bytes().len(),
                self.block_size == old(self).spec_block_size(),
                self.total_blocks == old(self).spec_total_blocks(),
                self.flush_count == old(self).spec_flush_count(),
                forall|k: int| 0 <= k < i ==> self.data@[start + k] == buf@[k],
                forall|k: int|
                    0 <= k < self.data@.len() && !(start <= k < start + i) ==> self.data@[k]
                        == old(self).bytes()[k],
            decreases len - i,
        {
            let v = buf.byte(i);
            self.data[start + i] = v;
            i += 1;
        }
        proof {
            assert(self.bytes() =~= overlay(
                old(self).bytes(),
                lba as int * old(self).spec_block_size(),
                buf@,
            ));
        }
        Ok(())
    }

    fn flush(&mut self) -> (r: Result<(), NvmeError>) {
        self.flush_count = self.flush_count.wrapping_add(1);
        Ok(())
    }

    fn block_size(&self) -> (r: u32) {
        self.block_size
    }

    fn total_blocks(&self) -> (r: u64) {
        self.total_blocks
    }
}

} // verus!

//! The block-device abstraction behind all storage I/O.
//!
//! Both the NVMe hardware driver and the RAM-backed test device implement
//! this trait; the block allocator, the file table and the VFS adapter use
//! it instead of a concrete driver. A device is modeled as a flat byte
//! string of `total_blocks * block_size` bytes.

use vstd::prelude::*;

use crate::bytes::overlay;
use crate::dma::DmaBuf;
use crate::nvme_command::NvmeError;

verus! {

/// Abstract block device for storage operations.
pub trait BlockDevice: Sized {
    /// The device contents, one byte per addressable byte.
    spec fn bytes(&self) -> Seq<u8>;

    spec fn spec_block_size(&self) -> u32;

    spec fn spec_total_blocks(&self) -> u64;

    spec fn inv(&self) -> bool;

    /// Every device holds `total_blocks` blocks of `block_size` bytes.
    proof fn lemma_geometry(&self)
        requires
            self.inv(),
        ensures
            self.bytes().len() == self.spec_total_blocks() * self.spec_block_size(),
            0 < self.spec_block_size(),
    ;

    /// Read `block_count` blocks starting at `lba` into `buf`.
    fn read_blocks(&mut self, lba: u64, block_count: u16, buf: &mut DmaBuf) -> (r: Result<
        (),
        NvmeError,
    >)
        requires
            old(self).inv(),
            old(buf)@.len() == block_count as int * old(self).spec_block_size(),
            lba + block_count <= old(self).spec_total_blocks(),
        ensures
            final(self).inv(),
            final(self).bytes() == old(self).bytes(),
            final(self).spec_block_size() == old(self).spec_block_size(),
            final(self).spec_total_blocks() == old(self).spec_total_blocks(),
            final(buf)@.len() == old(buf)@.len(),
            r is Ok ==> final(buf)@ == old(self).bytes().subrange(
                lba as int * old(self).spec_block_size(),
                (lba + block_count) * old(self).spec_block_size(),
            ),
    ;

    /// Write `block_count` blocks starting at `lba` from `buf`.
    fn write_blocks(&mut self, lba: u64, block_count: u16, buf: &DmaBuf) -> (r: Result<
        (),
        NvmeError,
    >)
        requires
            old(self).inv(),
            buf@.len() == block_count as int * old(self).spec_block_size(),
            lba + block_count <= old(self).spec_total_blocks(),
        ensures
            final(self).inv(),
            final(self).spec_block_size() == old(self).spec_block_size(),
            final(self).spec_total_blocks() == old(self).spec_total_blocks(),
            r is Ok ==> final(self).bytes() == overlay(
                old(self).bytes(),
                lba as int * old(self).spec_block_size(),
                buf@,
            ),
            r is Err ==> final(self).bytes() == old(self).bytes(),
    ;

    /// Push all completed writes to stable media. A device may fail the
    /// barrier; its contents are unchanged either way.
    fn flush(&mut self) -> (r: Result<(), NvmeError>)
        requires
            old(self).inv(),
        ensures
            final(self).inv(),
            final(self).bytes() == old(self).bytes(),
            final(self).spec_block_size() == old(self).spec_block_size(),
            final(self).spec_total_blocks() == old(self).spec_total_blocks(),
    ;

    /// Block size in bytes.
    fn block_size(&self) -> (r: u32)
        requires
            self.inv(),
        ensures
            r == self.spec_block_size(),
    ;

    /// Total number of blocks on the device.
    fn total_blocks(&self) -> (r: u64)
        requires
            self.inv(),
        ensures
            r == self.spec_total_blocks(),
    ;
}

} // verus!

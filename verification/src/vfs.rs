//! SQLite VFS adapter: byte-granular reads and writes over the block
//! device, extent relocation on growth, and the sync barrier.
//!
//! Files are contiguous extents of data blocks recorded in the file table.
//! Reads and writes of arbitrary byte ranges become block I/O: full blocks
//! are read, the requested window copied, and partial-block writes are
//! read-modify-write. Growth relocates the whole extent (copy, flush, swap,
//! free) because extents stay contiguous.

use vstd::prelude::*;

use crate::block_alloc::BlockAllocator;
use crate::block_device::BlockDevice;
use crate::bytes::overlay;
use crate::dma::DmaBuf;
use crate::file_table::{FileEntry, FileTable, MAX_ENTRIES};

verus! {

pub const SQLITE_OK: i32 = 0;

pub const SQLITE_ERROR: i32 = 1;

pub const SQLITE_BUSY: i32 = 5;

pub const SQLITE_IOERR: i32 = 10;

pub const SQLITE_FULL: i32 = 13;

pub const SQLITE_CANTOPEN: i32 = 14;

pub const SQLITE_IOERR_READ: i32 = 266;

pub const SQLITE_IOERR_SHORT_READ: i32 = 522;

pub const SQLITE_IOERR_WRITE: i32 = 778;

pub const SQLITE_IOERR_FSYNC: i32 = 1034;

pub const SQLITE_IOERR_NOMEM: i32 = 3082;

pub const SQLITE_OPEN_CREATE: i32 = 4;

/// Default initial allocation for a new file, in blocks (64 KiB at a
/// 4096-byte block size).
pub const INITIAL_ALLOC_BLOCKS: u64 = 16;

/// Per-open-file state: a consistent snapshot of one file table entry.
pub struct HeavenFile {
    /// Index into the file table.
    pub file_table_index: usize,
    /// Cached start LBA (absolute, not a data-block index).
    pub start_lba: u64,
    /// Cached block count.
    pub block_count: u64,
    /// Cached byte length.
    pub byte_length: u64,
    /// Block size, from the device.
    pub block_size: u32,
}

/// The VFS state: the block allocator and the file table, which every
/// operation keeps consistent with each other.
pub struct HeavenVfs {
    allocator: BlockAllocator,
    file_table: FileTable,
}

/// Two extents do not overlap.
pub open spec fn extents_disjoint(e1: FileEntry, e2: FileEntry) -> bool {
    e1.start_block + e1.block_count <= e2.start_block || e2.start_block + e2.block_count
        <= e1.start_block
}

/// An in-use entry's extent lies in the data region, every one of its
/// blocks is marked used in the bitmap, and its byte length fits the
/// extent.
pub open spec fn extent_ok(a: BlockAllocator, e: FileEntry) -> bool {
    &&& 1 <= e.block_count
    &&& e.start_block + e.block_count <= a.spec_data_block_count()
    &&& forall|j: int|
        e.start_block <= j < e.start_block + e.block_count ==> #[trigger] a.bits()[j]
    &&& e.byte_length <= e.block_count * a.spec_block_size()
}

impl HeavenVfs {
    pub closed spec fn alloc_state(self) -> BlockAllocator {
        self.allocator
    }

    pub closed spec fn table(self) -> FileTable {
        self.file_table
    }

    pub open spec fn entries(self) -> Seq<FileEntry> {
        self.table().entries()
    }

    /// The cross-structure invariant: every in-use file entry's extent is
    /// contiguous, fully marked in the bitmap, inside the data region, and
    /// no two in-use extents overlap.
    pub open spec fn wf(self) -> bool {
        &&& self.alloc_state().wf()
        &&& self.table().wf()
        &&& self.alloc_state().spec_block_size() == self.table().spec_block_size()
        &&& forall|i: int|
            0 <= i < MAX_ENTRIES && (#[trigger] self.entries()[i]).spec_in_use() ==> extent_ok(
                self.alloc_state(),
                self.entries()[i],
            )
        &&& forall|i: int, j: int|
            0 <= i < j < MAX_ENTRIES && (#[trigger] self.entries()[i]).spec_in_use() && (
            #[trigger] self.entries()[j]).spec_in_use() ==> extents_disjoint(
                self.entries()[i],
                self.entries()[j],
            ) && self.entries()[i].spec_name() != self.entries()[j].spec_name()
    }

    /// A handle is a faithful snapshot of its file table entry.
    pub open spec fn handle_ok(self, f: HeavenFile) -> bool {
        &&& f.file_table_index < MAX_ENTRIES
        &&& self.entries()[f.file_table_index as int].spec_in_use()
        &&& f.start_lba == self.alloc_state().spec_data_start_lba() + self.entries()[
            f.file_table_index as int].start_block
        &&& f.block_count == self.entries()[f.file_table_index as int].block_count
        &&& f.block_size == self.alloc_state().spec_block_size()
        &&& 1 <= f.block_size
        &&& f.byte_length <= f.block_count * f.block_size
    }

    /// The on-device layout this VFS serves: superblock, bitmap, one file
    /// table block, then the data region, all within the device, with a
    /// moderate block size.
    pub open spec fn dev_ok(self, block_size: u32, total_blocks: u64) -> bool {
        &&& self.alloc_state().spec_block_size() == block_size
        &&& self.table().spec_block_size() == block_size
        &&& 4032 <= block_size <= 0x1_0000
        &&& block_size % 8 == 0
        &&& self.alloc_state().spec_bitmap_start_lba() == 1
        &&& self.table().spec_file_table_lba() == 1 + self.alloc_state().spec_bitmap_on_disk_blocks()
        &&& self.alloc_state().spec_data_start_lba() == self.table().spec_file_table_lba() + 1
        &&& self.alloc_state().spec_data_start_lba() + self.alloc_state().spec_data_block_count()
            <= total_blocks
        &&& self.alloc_state().words().len() * 8 <= self.alloc_state().spec_bitmap_on_disk_blocks()
            as int * block_size
    }

    /// Create a VFS over an allocator and file table.
    pub fn new(allocator: BlockAllocator, file_table: FileTable) -> (r: Self)
        ensures
            r.alloc_state() == allocator,
            r.table() == file_table,
    {
        HeavenVfs { allocator, file_table }
    }

    /// Open a file. With `SQLITE_OPEN_CREATE`, an absent name is created
    /// with a fresh extent of `INITIAL_ALLOC_BLOCKS` blocks; without it,
    /// an absent name fails with `SQLITE_CANTOPEN`. A full table or a full
    /// device fails with `SQLITE_FULL`.
    pub fn open(&mut self, name: &[u8], flags: i32) -> (r: Result<HeavenFile, i32>)
        requires
            old(self).wf(),
            old(self).alloc_state().spec_data_start_lba() + old(
                self,
            ).alloc_state().spec_data_block_count() <= u64::MAX,
            name@.len() < 64,
            forall|k: int| 0 <= k < name@.len() ==> name@[k] != 0,
            1 <= old(self).alloc_state().spec_block_size(),
        ensures
            final(self).wf(),
            final(self).alloc_state().same_geometry(old(self).alloc_state()),
            final(self).table().spec_block_size() == old(self).table().spec_block_size(),
            final(self).table().spec_file_table_lba() == old(self).table().spec_file_table_lba(),
            match r {
                Ok(f) => {
                    &&& final(self).handle_ok(f)
                    &&& f.block_size == old(self).alloc_state().spec_block_size()
                    &&& if old(self).table().has_name(name@) {
                        // Existing file: state untouched, handle mirrors the
                        // entry that carries the queried name.
                        &&& *final(self) == *old(self)
                        &&& final(self).entries()[f.file_table_index as int].spec_name() == name@
                        &&& f.byte_length == final(self).entries()[
                            f.file_table_index as int].byte_length
                    } else {
                        // Fresh file: a new in-use entry with a zero byte length
                        // and a previously-free extent of the initial size.
                        &&& flags & SQLITE_OPEN_CREATE != 0
                        &&& f.byte_length == 0
                        &&& f.block_count == INITIAL_ALLOC_BLOCKS
                        &&& !old(self).entries()[f.file_table_index as int].spec_in_use()
                        &&& final(self).entries() == old(self).entries().update(
                            f.file_table_index as int,
                            final(self).entries()[f.file_table_index as int],
                        )
                        &&& final(self).entries()[f.file_table_index as int].spec_name()
                            == name@
                        &&& final(self).alloc_state().spec_free_count() == old(
                            self,
                        ).alloc_state().spec_free_count() - INITIAL_ALLOC_BLOCKS
                    }
                },
                Err(code) => {
                    &&& *final(self) == *old(self)
                    &&& !old(self).table().has_name(name@)
                    // Without CREATE an absent name is exactly CantOpen;
                    // with it, failure is exactly Full, and only for a full
                    // table or an allocator without a free initial run.
                    &&& flags & SQLITE_OPEN_CREATE == 0 ==> code == SQLITE_CANTOPEN
                    &&& flags & SQLITE_OPEN_CREATE != 0 ==> code == SQLITE_FULL && ((forall|k: int|
                        0 <= k < MAX_ENTRIES ==> (#[trigger] old(self).entries()[
                        k]).spec_in_use()) || (forall|t: int|
                        0 <= t && t + INITIAL_ALLOC_BLOCKS <= old(
                            self,
                        ).alloc_state().spec_data_block_count() ==> !old(
                            self,
                        ).alloc_state().run_free(t, INITIAL_ALLOC_BLOCKS as int)))
                },
            },
    {
        let bs = self.allocator.block_size();

        match self.file_table.lookup(name) {
            Some((idx, entry)) => {
                proof {
                    assert(extent_ok(self.alloc_state(), self.entries()[idx as int]));
                }
                let start_lba = self.allocator.data_start_lba() + entry.start_block;
                return Ok(
                    HeavenFile {
                        file_table_index: idx,
                        start_lba,
                        block_count: entry.block_count,
                        byte_length: entry.byte_length,
                        block_size: bs,
                    },
                );
            },
            None => (),
        }

        if flags & SQLITE_OPEN_CREATE == 0 {
            return Err(SQLITE_CANTOPEN);
        }

        // A free slot must exist before the extent is reserved, so that a
        // full table cannot leak a fresh allocation.
        let mut has_slot = false;
        let mut si: usize = 0;
        while si < MAX_ENTRIES && !has_slot
            invariant
                self.table().wf(),
                *self == *old(self),
                si <= MAX_ENTRIES,
                has_slot ==> si < MAX_ENTRIES && !self.entries()[si as int].spec_in_use(),
                !has_slot ==> forall|k: int|
                    0 <= k < si ==> (#[trigger] self.entries()[k]).spec_in_use(),
            decreases MAX_ENTRIES - si, if has_slot { 0int } else { 1int },
        {
            match self.file_table.get(si) {
                Some(_) => {
                    si += 1;
                },
                None => {
                    has_slot = true;
                },
            }
        }
        if !has_slot {
            return Err(SQLITE_FULL);
        }

        let ghost pre = *self;
        let start_block = match self.allocator.allocate(INITIAL_ALLOC_BLOCKS) {
            Ok(s) => s,
            Err(_) => {
                return Err(SQLITE_FULL);
            },
        };

        let idx = match self.file_table.create(name, start_block, INITIAL_ALLOC_BLOCKS) {
            Some(i) => i,
            None => {
                // Unreachable: a free slot was checked above and the
                // allocator does not touch the table.
                proof {
                    assert(false);
                }
                return Err(SQLITE_FULL);
            },
        };

        proof {
            lemma_wf_after_create(pre, *self, start_block as int, INITIAL_ALLOC_BLOCKS as int,
                idx as int, name@);
        }

        let start_lba = self.allocator.data_start_lba() + start_block;
        Ok(
            HeavenFile {
                file_table_index: idx,
                start_lba,
                block_count: INITIAL_ALLOC_BLOCKS,
                byte_length: 0,
                block_size: bs,
            },
        )
    }

    /// Close a handle: write the cached byte length back to the file
    /// table entry.
    pub fn close(&mut self, file: &HeavenFile) -> (r: i32)
        requires
            old(self).wf(),
            old(self).handle_ok(*file),
        ensures
            final(self).wf(),
            final(self).handle_ok(*file),
            r == SQLITE_OK,
            final(self).alloc_state() == old(self).alloc_state(),
            final(self).entries()[file.file_table_index as int].byte_length == file.byte_length,
            forall|i: int|
                0 <= i < MAX_ENTRIES && i != file.file_table_index ==> final(self).entries()[i]
                    == #[trigger] old(self).entries()[i],
            final(self).entries()[file.file_table_index as int]
                == ({
                let e = old(self).entries()[file.file_table_index as int];
                FileEntry { byte_length: file.byte_length, ..e }
            }),
            final(self).table().spec_dirty(),
            final(self).table().spec_block_size() == old(self).table().spec_block_size(),
            final(self).table().spec_file_table_lba() == old(self).table().spec_file_table_lba(),
    {
        let ghost pre = *self;
        match self.file_table.get_mut(file.file_table_index) {
            Some(entry) => {
                entry.byte_length = file.byte_length;
            },
            None => (),
        }
        proof {
            lemma_wf_after_entry_resize(pre, *self, file.file_table_index as int);
        }
        SQLITE_OK
    }

    /// Free data blocks in the allocator.
    pub fn free_blocks(&self) -> (r: u64)
        ensures
            r == self.alloc_state().spec_free_count(),
    {
        self.allocator.free_count()
    }

    /// The file size visible through a handle.
    pub fn file_size(&self, file: &HeavenFile) -> (r: Result<u64, i32>)
        ensures
            r == Ok::<u64, i32>(file.byte_length),
    {
        Ok(file.byte_length)
    }

    /// Whether a file with this name exists.
    pub fn access(&self, name: &[u8]) -> (r: bool)
        requires
            self.wf(),
        ensures
            r == self.table().has_name(name@),
    {
        self.file_table.lookup(name).is_some()
    }

    /// Delete a file by name: remove its entry and free its extent.
    /// Deleting an absent name succeeds, as SQLite expects.
    pub fn delete(&mut self, name: &[u8]) -> (r: i32)
        requires
            old(self).wf(),
        ensures
            final(self).wf(),
            r == SQLITE_OK,
            !final(self).table().has_name(name@),
            final(self).alloc_state().same_geometry(old(self).alloc_state()),
            final(self).table().spec_block_size() == old(self).table().spec_block_size(),
            final(self).table().spec_file_table_lba() == old(self).table().spec_file_table_lba(),
            !old(self).table().has_name(name@) ==> *final(self) == *old(self),
            // Deleting a present name removes exactly its entry, clears
            // exactly its extent's bits, and returns exactly its blocks.
            old(self).table().has_name(name@) ==> exists|i: int|
                {
                    let e = #[trigger] old(self).entries()[i];
                    &&& 0 <= i < MAX_ENTRIES
                    &&& e.spec_in_use()
                    &&& e.spec_name() == name@
                    &&& final(self).entries() == old(self).entries().update(
                        i,
                        FileEntry::spec_empty(),
                    )
                    &&& final(self).alloc_state().bits() == crate::bits::with_run(
                        old(self).alloc_state().bits(),
                        e.start_block as int,
                        e.block_count as int,
                        false,
                    )
                    &&& final(self).alloc_state().spec_free_count() == old(
                        self,
                    ).alloc_state().spec_free_count() + e.block_count
                },
    {
        let ghost pre = *self;
        let found = match self.file_table.lookup(name) {
            Some((idx, entry)) => Some((idx, entry.start_block, entry.block_count)),
            None => None,
        };
        match found {
            Some((idx, start_block, block_count)) => {
                proof {
                    assert(extent_ok(pre.alloc_state(), pre.entries()[idx as int]));
                }
                self.file_table.delete(idx);
                self.allocator.free(start_block, block_count);
                proof {
                    lemma_wf_after_delete(pre, *self, idx as int);
                    pre.alloc_state().lemma_wf_bounds();
                    pre.alloc_state().lemma_free_count_is_clear_bits();
                    self.alloc_state().lemma_free_count_is_clear_bits();
                    crate::bits::lemma_count_free_clear(
                        pre.alloc_state().bits(),
                        start_block as int,
                        block_count as int,
                        pre.alloc_state().spec_data_block_count() as int,
                    );
                    assert forall|k: int|
                        0 <= k < MAX_ENTRIES && (#[trigger] self.entries()[k]).spec_in_use()
                            implies self.entries()[k].spec_name() != name@ by {
                        assert(k != idx);
                        assert(self.entries()[k] == pre.entries()[k]);
                        if k < idx {
                            assert(extents_disjoint(pre.entries()[k], pre.entries()[idx as int])
                                && pre.entries()[k].spec_name() != pre.entries()[
                                idx as int].spec_name());
                        } else {
                            assert(extents_disjoint(pre.entries()[idx as int], pre.entries()[k])
                                && pre.entries()[idx as int].spec_name() != pre.entries()[
                                k].spec_name());
                        }
                    }
                }
                SQLITE_OK
            },
            None => SQLITE_OK,
        }
    }

    /// Truncate to `size` bytes. Growing is a no-op (SQLite semantics);
    /// shrinking releases whole trailing blocks back to the allocator,
    /// always keeping at least one block.
    pub fn truncate(&mut self, file: &mut HeavenFile, size: u64) -> (r: i32)
        requires
            old(self).wf(),
            old(self).handle_ok(*old(file)),
            old(file).block_count >= 1,
        ensures
            final(self).wf(),
            final(self).handle_ok(*final(file)),
            r == SQLITE_OK,
            final(self).alloc_state().same_geometry(old(self).alloc_state()),
            final(self).table().spec_block_size() == old(self).table().spec_block_size(),
            final(self).table().spec_file_table_lba() == old(self).table().spec_file_table_lba(),
            size >= old(file).byte_length ==> *final(self) == *old(self) && *final(file) == *old(
                file,
            ),
            size < old(file).byte_length ==> final(file).byte_length == size
                && final(file).start_lba == old(file).start_lba && final(file).block_count == (
            {
                let bs = old(file).block_size as u64;
                let needed = if size == 0 {
                    1u64
                } else {
                    ((size + bs - 1) as u64 / bs) as u64
                };
                if needed < old(file).block_count {
                    needed
                } else {
                    old(file).block_count
                }
            }),
            final(file).block_count >= 1,
            final(file).file_table_index == old(file).file_table_index,
            // The freed tail goes back to the allocator, bit for bit;
            // a shrink that releases no whole block changes nothing else.
            ({
                let bs = old(file).block_size as u64;
                let needed = if size == 0 {
                    1int
                } else {
                    (size + bs - 1) as int / bs as int
                };
                let idx = old(file).file_table_index as int;
                let e = old(self).entries()[idx];
                let tail_start = e.start_block + needed;
                let tail_len = e.block_count - needed;
                &&& (size < old(file).byte_length && needed < old(file).block_count as int) ==> ({
                    &&& final(self).alloc_state().bits() == crate::bits::with_run(
                        old(self).alloc_state().bits(),
                        tail_start,
                        tail_len,
                        false,
                    )
                    &&& final(self).alloc_state().spec_free_count() == old(
                        self,
                    ).alloc_state().spec_free_count() + tail_len
                    &&& final(self).entries() == old(self).entries().update(
                        idx,
                        FileEntry { block_count: needed as u64, byte_length: size, ..e },
                    )
                })
                &&& (size < old(file).byte_length && needed >= old(file).block_count as int)
                    ==> *final(self) == *old(self)
            }),
    {
        if size >= file.byte_length {
            return SQLITE_OK;
        }
        proof {
            old(self).alloc_state().lemma_wf_bounds();
            assert(extent_ok(old(self).alloc_state(), old(self).entries()[
                old(file).file_table_index as int]));
            let bc = old(file).block_count;
            let bsz = old(file).block_size;
            assert(bc * bsz <= 0x1000_0000 * 0x1_0000_0000) by (nonlinear_arith)
                requires
                    bc <= 0x1000_0000,
                    bsz < 0x1_0000_0000,
            ;
        }
        file.byte_length = size;

        let bs = file.block_size as u64;
        let needed_blocks: u64 = if size == 0 {
            1
        } else {
            (size + bs - 1) / bs
        };
        proof {
            assert(size >= 1 && bs >= 1 ==> (size + bs - 1) as int / bs as int >= 1)
                by (nonlinear_arith);
        }

        if needed_blocks < file.block_count {
            let ghost pre = *self;
            let idx = file.file_table_index;
            let data_start = self.allocator.data_start_lba();
            let old_start_block = file.start_lba - data_start;
            let excess_start = old_start_block + needed_blocks;
            let excess_count = file.block_count - needed_blocks;
            proof {
                assert(extent_ok(pre.alloc_state(), pre.entries()[idx as int]));
                assert(pre.entries()[idx as int].start_block == old_start_block);
                assert(excess_start + excess_count <= pre.alloc_state().spec_data_block_count());
            }
            self.allocator.free(excess_start, excess_count);
            proof {
                pre.alloc_state().lemma_wf_bounds();
                pre.alloc_state().lemma_free_count_is_clear_bits();
                self.alloc_state().lemma_free_count_is_clear_bits();
                crate::bits::lemma_count_free_clear(
                    pre.alloc_state().bits(),
                    excess_start as int,
                    excess_count as int,
                    pre.alloc_state().spec_data_block_count() as int,
                );
            }
            match self.file_table.get_mut(idx) {
                Some(entry) => {
                    entry.block_count = needed_blocks;
                    entry.byte_length = size;
                },
                None => (),
            }
            file.block_count = needed_blocks;
            proof {
                assert(size <= needed_blocks * (file.block_size as int)) by (nonlinear_arith)
                    requires
                        needed_blocks == if size == 0 {
                            1int
                        } else {
                            (size + bs - 1) as int / bs as int
                        },
                        bs == file.block_size as int,
                        bs >= 1,
                        size >= 0,
                ;
                lemma_wf_after_shrink(pre, *self, idx as int, needed_blocks as int,
                    excess_start as int, excess_count as int, size);
            }
        }
        SQLITE_OK
    }
}

/// `n` zero bytes.
pub open spec fn zeros(n: int) -> Seq<u8> {
    Seq::new(n as nat, |i: int| 0u8)
}

impl HeavenVfs {
    /// Read `buf.len()` bytes at byte `offset` of the file into `buf`.
    ///
    /// Reads past end-of-file zero-fill the buffer and report a short
    /// read; a partial read fills the window that exists and zero-fills
    /// the tail.
    pub fn read<D: BlockDevice>(
        &self,
        dev: &mut D,
        file: &HeavenFile,
        buf: &mut Vec<u8>,
        offset: u64,
    ) -> (r: i32)
        requires
            self.wf(),
            self.handle_ok(*file),
            self.dev_ok(old(dev).spec_block_size(), old(dev).spec_total_blocks()),
            old(dev).inv(),
            1 <= old(buf)@.len() <= 0x100_0000,
        ensures
            final(dev).inv(),
            final(dev).bytes() == old(dev).bytes(),
            final(dev).spec_block_size() == old(dev).spec_block_size(),
            final(dev).spec_total_blocks() == old(dev).spec_total_blocks(),
            final(buf)@.len() == old(buf)@.len(),
            offset >= file.byte_length ==> r == SQLITE_IOERR_SHORT_READ && final(buf)@ == zeros(
                old(buf)@.len() as int,
            ),
            offset < file.byte_length ==> ({
                let n = old(buf)@.len() as int;
                let to_read = if n <= file.byte_length - offset {
                    n
                } else {
                    file.byte_length - offset
                };
                let base = file.start_lba as int * file.block_size;
                &&& (r == SQLITE_OK || r == SQLITE_IOERR_SHORT_READ || r == SQLITE_IOERR_READ)
                &&& r == SQLITE_OK ==> to_read == n
                &&& r == SQLITE_IOERR_SHORT_READ ==> to_read < n
                &&& (r == SQLITE_OK || r == SQLITE_IOERR_SHORT_READ) ==> final(buf)@ == old(
                    dev,
                ).bytes().subrange(base + offset, base + offset + to_read) + zeros(n - to_read)
                &&& r == SQLITE_IOERR_READ ==> final(buf)@ == zeros(n)
            }),
    {
        proof {
            dev.lemma_geometry();
            self.alloc_state().lemma_wf_bounds();
            assert(extent_ok(self.alloc_state(), self.entries()[file.file_table_index as int]));
        }
        let amount = buf.len();
        let bs64 = file.block_size as u64;
        let ghost gbs = file.block_size as int;
        let ghost base = file.start_lba as int * gbs;

        if offset >= file.byte_length {
            zero_fill(buf);
            return SQLITE_IOERR_SHORT_READ;
        }

        let available = file.byte_length - offset;
        let to_read: usize = if (amount as u64) <= available {
            amount
        } else {
            available as usize
        };

        let start_block = offset / bs64;
        let end_block = (offset + to_read as u64 - 1) / bs64;
        let in_off = (offset % bs64) as usize;
        proof {
            let bl = file.byte_length as int;
            let bc = file.block_count as int;
            let n = to_read as int;
            assert(end_block >= start_block && end_block < bc && start_block as int * gbs
                <= offset && in_off + n <= (end_block - start_block + 1) as int * gbs && end_block
                - start_block + 1 <= 0xFFFF && in_off == offset - start_block as int * gbs)
                by (nonlinear_arith)
                requires
                    start_block == offset as int / gbs,
                    end_block == (offset + n - 1) / gbs,
                    in_off == offset as int % gbs,
                    1 <= n <= 0x100_0000,
                    offset + n <= bl,
                    bl <= bc * gbs,
                    4032 <= gbs <= 0x1_0000,
                    0 <= offset,
            ;
            lemma_mul_bounds_chain(
                file.start_lba as int,
                file.block_count as int,
                old(dev).spec_total_blocks() as int,
                gbs,
            );
        }
        let block_count = end_block - start_block + 1;
        proof {
            lemma_mul_bounds_chain(
                (file.start_lba + start_block) as int,
                block_count as int,
                old(dev).spec_total_blocks() as int,
                gbs,
            );
            assert(block_count * gbs <= 0xFFFF * 0x1_0000) by (nonlinear_arith)
                requires
                    block_count <= 0xFFFF,
                    gbs <= 0x1_0000,
                    block_count >= 0,
                    gbs >= 0,
            ;
        }
        let start_lba = file.start_lba + start_block;
        let span_bytes: usize = (block_count * bs64) as usize;
        let mut dma = match DmaBuf::allocate(span_bytes) {
            Ok(d) => d,
            Err(_) => {
                proof {
                    assert(block_count * gbs >= gbs) by (nonlinear_arith)
                        requires
                            block_count >= 1,
                            gbs >= 0,
                    ;
                    assert(false);
                }
                zero_fill(buf);
                return SQLITE_IOERR_READ;
            },
        };

        match dev.read_blocks(start_lba, block_count as u16, &mut dma) {
            Ok(_) => (),
            Err(_) => {
                zero_fill(buf);
                return SQLITE_IOERR_READ;
            },
        }

        dma.copy_to_slice(buf, in_off, to_read);
        let mut i: usize = to_read;
        while i < amount
            invariant
                to_read <= i <= amount,
                buf@.len() == amount,
                forall|k: int| 0 <= k < to_read ==> buf@[k] == dma@[in_off + k],
                forall|k: int| to_read <= k < i ==> buf@[k] == 0u8,
            decreases amount - i,
        {
            buf[i] = 0u8;
            i += 1;
        }
        proof {
            let n = to_read as int;
            assert((file.start_lba + start_block) as int * gbs == base + start_block as int * gbs)
                by (nonlinear_arith)
                requires
                    base == file.start_lba as int * gbs,
            ;
            assert forall|k: int| 0 <= k < n implies buf@[k] == old(dev).bytes()[base + offset
                + k] by {
                assert(buf@[k] == dma@[in_off + k]);
                assert(dma@[in_off + k] == old(dev).bytes()[(file.start_lba + start_block) as int
                    * gbs + (in_off + k)]);
            }
            assert(buf@ =~= old(dev).bytes().subrange(base + offset, base + offset + n) + zeros(
                amount as int - n,
            ));
        }
        if to_read < amount {
            SQLITE_IOERR_SHORT_READ
        } else {
            SQLITE_OK
        }
    }
}

fn zero_fill(buf: &mut Vec<u8>)
    ensures
        final(buf)@ == zeros(old(buf)@.len() as int),
{
    let n = buf.len();
    let mut i: usize = 0;
    while i < n
        invariant
            i <= n,
            buf@.len() == n,
            forall|k: int| 0 <= k < i ==> buf@[k] == 0u8,
        decreases n - i,
    {
        buf[i] = 0u8;
        i += 1;
    }
    proof {
        assert(buf@ =~= zeros(n as int));
    }
}

impl HeavenVfs {
    /// Copy `count` blocks from `src_lba` to a disjoint `dst_lba`, one
    /// block at a time.
    fn copy_blocks<D: BlockDevice>(
        dev: &mut D,
        src_lba: u64,
        dst_lba: u64,
        count: u64,
        bs: u32,
    ) -> (r: Result<(), i32>)
        requires
            old(dev).inv(),
            bs == old(dev).spec_block_size(),
            1 <= bs <= 0x1_0000,
            src_lba + count <= old(dev).spec_total_blocks(),
            dst_lba + count <= old(dev).spec_total_blocks(),
            src_lba + count <= dst_lba || dst_lba + count <= src_lba,
        ensures
            final(dev).inv(),
            final(dev).spec_block_size() == old(dev).spec_block_size(),
            final(dev).spec_total_blocks() == old(dev).spec_total_blocks(),
            final(dev).bytes().len() == old(dev).bytes().len(),
            forall|p: int|
                0 <= p < final(dev).bytes().len() && !(dst_lba as int * bs <= p < (dst_lba + count)
                    as int * bs) ==> final(dev).bytes()[p] == old(dev).bytes()[p],
            r is Ok ==> final(dev).bytes() == overlay(
                old(dev).bytes(),
                dst_lba as int * bs,
                old(dev).bytes().subrange(src_lba as int * bs, (src_lba + count) as int * bs),
            ),
            r is Err ==> (r == Err::<(), i32>(SQLITE_IOERR_READ) || r == Err::<(), i32>(
                SQLITE_IOERR_WRITE,
            )),
    {
        proof {
            dev.lemma_geometry();
        }
        let ghost gbs = bs as int;
        let ghost srclo = src_lba as int * gbs;
        let ghost dstlo = dst_lba as int * gbs;
        let ghost total = dev.spec_total_blocks() as int;
        proof {
            lemma_mul_bounds_chain(src_lba as int, count as int, total, gbs);
            lemma_mul_bounds_chain(dst_lba as int, count as int, total, gbs);
        }
        let mut tmp = match DmaBuf::allocate(bs as usize) {
            Ok(b) => b,
            Err(_) => {
                // A one-block buffer has a positive size.
                proof {
                    assert(false);
                }
                return Err(SQLITE_IOERR_READ);
            },
        };
        let mut blk: u64 = 0;
        while blk < count
            invariant
                dev.inv(),
                dev.spec_block_size() == bs,
                dev.spec_block_size() == old(dev).spec_block_size(),
                dev.spec_total_blocks() == old(dev).spec_total_blocks(),
                dev.bytes().len() == old(dev).bytes().len(),
                dev.bytes().len() == dev.spec_total_blocks() * gbs,
                gbs == bs as int,
                1 <= bs <= 0x1_0000,
                srclo == src_lba as int * gbs,
                dstlo == dst_lba as int * gbs,
                src_lba + count <= dev.spec_total_blocks(),
                dst_lba + count <= dev.spec_total_blocks(),
                src_lba + count <= dst_lba || dst_lba + count <= src_lba,
                0 <= srclo,
                srclo + count * gbs <= dev.bytes().len(),
                0 <= dstlo,
                dstlo + count * gbs <= dev.bytes().len(),
                (dst_lba + count) as int * gbs == dstlo + count * gbs,
                (src_lba + count) as int * gbs == srclo + count * gbs,
                blk <= count,
                tmp@.len() == gbs,
                forall|p: int|
                    0 <= p < dev.bytes().len() && !(dstlo <= p < dstlo + blk * gbs)
                        ==> dev.bytes()[p] == old(dev).bytes()[p],
                dev.bytes().subrange(dstlo, dstlo + blk * gbs) == old(dev).bytes().subrange(
                    srclo,
                    srclo + blk * gbs,
                ),
            decreases count - blk,
        {
            proof {
                lemma_block_step(src_lba as int, blk as int, count as int, gbs,
                    dev.bytes().len() as int);
                lemma_block_step(dst_lba as int, blk as int, count as int, gbs,
                    dev.bytes().len() as int);
            }
            match dev.read_blocks(src_lba + blk, 1, &mut tmp) {
                Ok(_) => (),
                Err(_) => {
                    return Err(SQLITE_IOERR_READ);
                },
            }
            proof {
                // The whole source range is disjoint from the destination,
                // so the source block still holds its entry-time bytes.
                if src_lba + count <= dst_lba {
                    assert(srclo + count * gbs <= dstlo) by (nonlinear_arith)
                        requires
                            src_lba + count <= dst_lba,
                            gbs >= 0,
                            srclo == src_lba as int * gbs,
                            dstlo == dst_lba as int * gbs,
                    ;
                } else {
                    assert(dstlo + count * gbs <= srclo) by (nonlinear_arith)
                        requires
                            dst_lba + count <= src_lba,
                            gbs >= 0,
                            srclo == src_lba as int * gbs,
                            dstlo == dst_lba as int * gbs,
                    ;
                }
                assert((blk + 1) as int * gbs == blk as int * gbs + gbs) by (nonlinear_arith);
                lemma_subrange_unchanged(
                    dev.bytes(),
                    old(dev).bytes(),
                    srclo + blk as int * gbs,
                    srclo + (blk + 1) as int * gbs,
                    dstlo,
                    dstlo + blk as int * gbs,
                );
                assert(tmp@ == old(dev).bytes().subrange(srclo + blk as int * gbs, srclo + (blk
                    + 1) as int * gbs));
            }
            let ghost pre_bytes = dev.bytes();
            match dev.write_blocks(dst_lba + blk, 1, &tmp) {
                Ok(_) => (),
                Err(_) => {
                    proof {
                        assert forall|p: int|
                            0 <= p < dev.bytes().len() && !(dstlo <= p < dstlo + count * gbs)
                                implies dev.bytes()[p] == old(dev).bytes()[p] by {
                            assert(blk as int * gbs <= count as int * gbs) by (nonlinear_arith)
                                requires
                                    blk <= count,
                                    gbs >= 0,
                            ;
                        }
                    }
                    return Err(SQLITE_IOERR_WRITE);
                },
            }
            proof {
                lemma_copy_step(old(dev).bytes(), pre_bytes, dev.bytes(), srclo, dstlo,
                    blk as int, gbs, count as int, tmp@);
            }
            blk += 1;
        }
        proof {
            assert(dev.bytes() =~= overlay(
                old(dev).bytes(),
                dstlo,
                old(dev).bytes().subrange(srclo, srclo + count * gbs),
            ));
        }
        Ok(())
    }
}

impl HeavenVfs {
    /// Write `data` at byte offset `in_off` of the blocks starting at
    /// `lba`: aligned writes go straight to the device, partial-block
    /// writes read the span, overlay the data, and write it back. Either
    /// way the net effect is exactly the data overlaid at its offset.
    fn write_span<D: BlockDevice>(dev: &mut D, lba: u64, in_off: u64, data: &[u8], bs: u32) -> (r:
        Result<(), i32>)
        requires
            old(dev).inv(),
            bs == old(dev).spec_block_size(),
            4032 <= bs <= 0x1_0000,
            in_off < bs,
            1 <= data@.len() <= 0x100_0000,
            lba + (in_off + data@.len() + bs - 1) / (bs as int) <= old(dev).spec_total_blocks(),
        ensures
            final(dev).inv(),
            final(dev).spec_block_size() == old(dev).spec_block_size(),
            final(dev).spec_total_blocks() == old(dev).spec_total_blocks(),
            r is Ok ==> final(dev).bytes() == overlay(
                old(dev).bytes(),
                lba as int * bs + in_off,
                data@,
            ),
            r is Err ==> final(dev).bytes() == old(dev).bytes() && (r == Err::<(), i32>(
                SQLITE_IOERR_READ,
            ) || r == Err::<(), i32>(SQLITE_IOERR_WRITE)),
    {
        proof {
            dev.lemma_geometry();
        }
        let ghost gbs = bs as int;
        let bsu = bs as u64;
        let span: u64 = (in_off + data.len() as u64 + bsu - 1) / bsu;
        proof {
            let n = data@.len() as int;
            assert(1 <= span && span * gbs >= in_off + n && span <= 0xFFFF && (span - 1) * gbs
                < in_off + n) by (nonlinear_arith)
                requires
                    span == (in_off + n + gbs - 1) / gbs,
                    4032 <= gbs <= 0x1_0000,
                    0 <= in_off < gbs,
                    1 <= n <= 0x100_0000,
            ;
            lemma_mul_bounds_chain(lba as int, span as int, dev.spec_total_blocks() as int, gbs);
        }
        let ghost lo = lba as int * gbs;
        proof {
            assert(span * gbs <= 0xFFFF * 0x1_0000) by (nonlinear_arith)
                requires
                    span <= 0xFFFF,
                    gbs <= 0x1_0000,
                    span >= 0,
                    gbs >= 0,
            ;
        }
        let span_bytes: usize = (span * bsu) as usize;
        let mut dma = match DmaBuf::allocate(span_bytes) {
            Ok(d) => d,
            Err(_) => {
                // The span covers at least one block, so its size is
                // positive.
                proof {
                    assert(span * gbs >= gbs) by (nonlinear_arith)
                        requires
                            span >= 1,
                            gbs >= 0,
                    ;
                    assert(false);
                }
                return Err(SQLITE_IOERR_READ);
            },
        };

        let aligned = in_off == 0 && data.len() % (bsu as usize) == 0;
        if aligned {
            proof {
                let n = data@.len() as int;
                assert(span * gbs == n) by (nonlinear_arith)
                    requires
                        span == (n + gbs - 1) / gbs,
                        n % gbs == 0,
                        1 <= n,
                        1 <= gbs,
                ;
            }
            dma.copy_from_slice(data);
            proof {
                assert(dma@ =~= data@);
            }
            match dev.write_blocks(lba, span as u16, &dma) {
                Ok(_) => (),
                Err(_) => {
                    return Err(SQLITE_IOERR_WRITE);
                },
            }
            proof {
                assert(final(dev).bytes() =~= overlay(old(dev).bytes(), lo + in_off, data@));
            }
        } else {
            match dev.read_blocks(lba, span as u16, &mut dma) {
                Ok(_) => (),
                Err(_) => {
                    return Err(SQLITE_IOERR_READ);
                },
            }
            dma.write_at(in_off as usize, data);
            match dev.write_blocks(lba, span as u16, &dma) {
                Ok(_) => (),
                Err(_) => {
                    return Err(SQLITE_IOERR_WRITE);
                },
            }
            proof {
                assert(final(dev).bytes() =~= overlay(old(dev).bytes(), lo + in_off, data@));
            }
        }
        Ok(())
    }
}

/// A window that misses the touched region reads the same bytes as before.
proof fn lemma_subrange_unchanged(
    cur: Seq<u8>,
    orig: Seq<u8>,
    lo: int,
    hi: int,
    exlo: int,
    exhi: int,
)
    requires
        cur.len() == orig.len(),
        0 <= lo <= hi <= cur.len(),
        hi <= exlo || exhi <= lo,
        forall|p: int| 0 <= p < cur.len() && !(exlo <= p < exhi) ==> cur[p] == orig[p],
    ensures
        cur.subrange(lo, hi) == orig.subrange(lo, hi),
{
    assert forall|x: int| 0 <= x < hi - lo implies cur.subrange(lo, hi)[x] == orig.subrange(
        lo,
        hi,
    )[x] by {
        assert(cur[lo + x] == orig[lo + x]);
    }
    assert(cur.subrange(lo, hi) =~= orig.subrange(lo, hi));
}

/// Multiplication bounds for a block range inside the device.
proof fn lemma_mul_bounds_chain(lba: int, count: int, total: int, gbs: int)
    requires
        0 <= lba,
        0 <= count,
        0 <= gbs,
        lba + count <= total,
    ensures
        0 <= lba * gbs,
        lba * gbs + count * gbs <= total * gbs,
        (lba + count) * gbs == lba * gbs + count * gbs,
    decreases 0int,
{
    assert(lba * gbs >= 0) by (nonlinear_arith)
        requires
            lba >= 0,
            gbs >= 0,
    ;
    assert((lba + count) * gbs == lba * gbs + count * gbs) by (nonlinear_arith);
    assert((lba + count) * gbs <= total * gbs) by (nonlinear_arith)
        requires
            lba + count <= total,
            gbs >= 0,
    ;
}

/// The byte window of block `base + blk` lies inside the device and inside
/// the range of `count` blocks at `base`.
proof fn lemma_block_step(base: int, blk: int, count: int, gbs: int, len: int)
    requires
        0 <= base,
        0 <= blk < count,
        1 <= gbs,
        base * gbs + count * gbs <= len,
    ensures
        (base + blk) * gbs == base * gbs + blk * gbs,
        (base + blk + 1) * gbs == base * gbs + blk * gbs + gbs,
        0 <= blk * gbs,
        blk * gbs + gbs <= count * gbs,
        (base + blk + 1) * gbs <= len,
{
    assert((base + blk) * gbs == base * gbs + blk * gbs) by (nonlinear_arith);
    assert((base + blk + 1) * gbs == base * gbs + blk * gbs + gbs) by (nonlinear_arith);
    assert(blk * gbs >= 0) by (nonlinear_arith)
        requires
            blk >= 0,
            gbs >= 0,
    ;
    assert(blk * gbs + gbs <= count * gbs) by (nonlinear_arith)
        requires
            blk + 1 <= count,
            gbs >= 0,
    ;
}

/// One copied block extends the copied prefix.
proof fn lemma_copy_step(
    orig: Seq<u8>,
    pre: Seq<u8>,
    post: Seq<u8>,
    srclo: int,
    dstlo: int,
    blk: int,
    gbs: int,
    count: int,
    tmp: Seq<u8>,
)
    requires
        1 <= gbs,
        0 <= blk < count,
        0 <= srclo,
        0 <= dstlo,
        srclo + count * gbs <= orig.len(),
        dstlo + count * gbs <= orig.len(),
        pre.len() == orig.len(),
        post.len() == orig.len(),
        tmp.len() == gbs,
        tmp == orig.subrange(srclo + blk * gbs, srclo + (blk + 1) * gbs),
        forall|p: int|
            0 <= p < pre.len() && !(dstlo <= p < dstlo + blk * gbs) ==> pre[p] == orig[p],
        pre.subrange(dstlo, dstlo + blk * gbs) == orig.subrange(srclo, srclo + blk * gbs),
        post == overlay(pre, dstlo + blk * gbs, tmp),
    ensures
        forall|p: int|
            0 <= p < post.len() && !(dstlo <= p < dstlo + (blk + 1) * gbs) ==> post[p] == orig[p],
        post.subrange(dstlo, dstlo + (blk + 1) * gbs) == orig.subrange(
            srclo,
            srclo + (blk + 1) * gbs,
        ),
{
    assert(blk * gbs + gbs == (blk + 1) * gbs) by (nonlinear_arith);
    assert(blk * gbs >= 0) by (nonlinear_arith)
        requires
            blk >= 0,
            gbs >= 0,
    ;
    assert((blk + 1) * gbs <= count * gbs) by (nonlinear_arith)
        requires
            blk + 1 <= count,
            gbs >= 0,
    ;
    assert forall|p: int|
        0 <= p < post.len() && !(dstlo <= p < dstlo + (blk + 1) * gbs) implies post[p]
        == orig[p] by {
        assert(post[p] == pre[p]);
    }
    assert(post.subrange(dstlo, dstlo + (blk + 1) * gbs) =~= orig.subrange(
        srclo,
        srclo + (blk + 1) * gbs,
    )) by {
        let a = post.subrange(dstlo, dstlo + (blk + 1) * gbs);
        let b = orig.subrange(srclo, srclo + (blk + 1) * gbs);
        assert forall|x: int| 0 <= x < (blk + 1) * gbs implies a[x] == b[x] by {
            if x < blk * gbs {
                assert(post[dstlo + x] == pre[dstlo + x]);
                assert(pre.subrange(dstlo, dstlo + blk * gbs)[x] == orig.subrange(
                    srclo,
                    srclo + blk * gbs,
                )[x]);
            } else {
                assert(post[dstlo + x] == tmp[x - blk * gbs]);
            }
        }
    }
}

/// A write that left the metadata untouched: same bitmap, same counter,
/// same entries, same extent under the handle.
pub open spec fn write_kept_metadata(
    pre: HeavenVfs,
    post: HeavenVfs,
    of: HeavenFile,
    nf: HeavenFile,
) -> bool {
    &&& post.alloc_state().bits() == pre.alloc_state().bits()
    &&& post.alloc_state().spec_free_count() == pre.alloc_state().spec_free_count()
    &&& post.entries() == pre.entries()
    &&& nf.start_lba == of.start_lba
    &&& nf.block_count == of.block_count
}

/// A write that grew the file by relocation onto a fresh extent of `need`
/// blocks: the new run was free and is now marked, the old extent's run is
/// cleared, the counter moves by the net growth, and the entry carries the
/// new extent with its name, flags and byte length untouched.
pub open spec fn write_relocated(
    pre: HeavenVfs,
    post: HeavenVfs,
    of: HeavenFile,
    nf: HeavenFile,
    need: int,
) -> bool {
    let idx = of.file_table_index as int;
    let e = pre.entries()[idx];
    let ns = nf.start_lba - pre.alloc_state().spec_data_start_lba();
    &&& need > of.block_count
    &&& nf.block_count == need
    &&& 0 <= ns
    &&& ns + need <= pre.alloc_state().spec_data_block_count()
    &&& pre.alloc_state().run_free(ns, need)
    &&& post.alloc_state().bits() == crate::bits::with_run(
        crate::bits::with_run(pre.alloc_state().bits(), ns, need, true),
        e.start_block as int,
        e.block_count as int,
        false,
    )
    &&& post.alloc_state().spec_free_count() == pre.alloc_state().spec_free_count() - need
        + e.block_count
    &&& post.entries() == pre.entries().update(
        idx,
        FileEntry { start_block: ns as u64, block_count: need as u64, ..e },
    )
}

impl HeavenVfs {
    /// Write `data` at byte `offset` of the file. If the write does not
    /// fit the current extent, the file grows by relocation: allocate a
    /// larger extent, copy the old blocks, flush, swap the metadata, and
    /// only then free the old extent. Aligned writes go straight to the
    /// device; partial-block writes are read-modify-write. The handle's
    /// byte length grows if the write extends end-of-file; the entry's
    /// byte length is left for `sync` or `close`.
    pub fn write<D: BlockDevice>(
        &mut self,
        dev: &mut D,
        file: &mut HeavenFile,
        data: &[u8],
        offset: u64,
    ) -> (r: i32)
        requires
            old(self).wf(),
            old(self).handle_ok(*old(file)),
            old(self).dev_ok(old(dev).spec_block_size(), old(dev).spec_total_blocks()),
            old(dev).inv(),
            1 <= data@.len() <= 0x100_0000,
            offset < 0x1_0000_0000_0000,
        ensures
            final(self).wf(),
            final(dev).inv(),
            final(dev).spec_block_size() == old(dev).spec_block_size(),
            final(dev).spec_total_blocks() == old(dev).spec_total_blocks(),
            final(self).alloc_state().same_geometry(old(self).alloc_state()),
            final(self).table().spec_block_size() == old(self).table().spec_block_size(),
            final(self).table().spec_file_table_lba() == old(self).table().spec_file_table_lba(),
            final(file).file_table_index == old(file).file_table_index,
            final(file).block_size == old(file).block_size,
            final(self).handle_ok(*final(file)),
            (r == SQLITE_OK || r == SQLITE_FULL || r == SQLITE_IOERR_READ || r
                == SQLITE_IOERR_WRITE || r == SQLITE_IOERR_FSYNC),
            ({
                let bs = old(file).block_size as int;
                let need = (offset + data@.len() + bs - 1) / bs;
                let grew = need > old(file).block_count;
                // Full comes exactly when growth is needed and the allocator
                // holds no contiguous run of the needed size; it changes
                // nothing.
                &&& (r == SQLITE_FULL <==> grew && (forall|t: int|
                    0 <= t && t + need <= old(self).alloc_state().spec_data_block_count() ==> !old(
                        self,
                    ).alloc_state().run_free(t, need)))
                &&& r == SQLITE_FULL ==> *final(self) == *old(self) && *final(file) == *old(file)
                    && final(dev).bytes() == old(dev).bytes()
                // Every other return either kept the metadata intact or
                // completed the relocation; a successful write relocates
                // exactly when it grew.
                &&& r != SQLITE_FULL ==> (write_kept_metadata(
                    *old(self),
                    *final(self),
                    *old(file),
                    *final(file),
                ) || write_relocated(*old(self), *final(self), *old(file), *final(file), need))
                &&& (r == SQLITE_OK && grew) ==> write_relocated(
                    *old(self),
                    *final(self),
                    *old(file),
                    *final(file),
                    need,
                )
                &&& (r == SQLITE_OK && !grew) ==> write_kept_metadata(
                    *old(self),
                    *final(self),
                    *old(file),
                    *final(file),
                )
                // A device failure never moves end-of-file, and the whole
                // old extent's content survives at the file's current
                // extent (rolled back in place, or already copied).
                &&& (r == SQLITE_IOERR_READ || r == SQLITE_IOERR_WRITE || r == SQLITE_IOERR_FSYNC)
                    ==> ({
                    let nb = final(file).start_lba as int * bs;
                    let ob = old(file).start_lba as int * bs;
                    let len = old(file).block_count as int * bs;
                    &&& final(file).byte_length == old(file).byte_length
                    &&& final(dev).bytes().subrange(nb, nb + len) == old(dev).bytes().subrange(
                        ob,
                        ob + len,
                    )
                })
                &&& r == SQLITE_OK ==> ({
                    let nbase = final(file).start_lba as int * bs;
                    let obase = old(file).start_lba as int * bs;
                    let osz = old(file).block_count as int * bs;
                    let head = if offset <= osz {
                        offset as int
                    } else {
                        osz
                    };
                    &&& final(file).byte_length == (if offset + data@.len() > old(
                        file,
                    ).byte_length {
                        offset + data@.len()
                    } else {
                        old(file).byte_length as int
                    })
                    &&& final(file).block_count == (if need > old(file).block_count {
                        need
                    } else {
                        old(file).block_count as int
                    })
                    &&& final(dev).bytes().subrange(nbase + offset, nbase + offset + data@.len())
                        == data@
                    &&& final(dev).bytes().subrange(nbase, nbase + head) == old(
                        dev,
                    ).bytes().subrange(obase, obase + head)
                    &&& offset + data@.len() <= osz ==> final(dev).bytes().subrange(
                        nbase + offset + data@.len(),
                        nbase + osz,
                    ) == old(dev).bytes().subrange(obase + offset + data@.len(), obase + osz)
                })
            }),
    {
        proof {
            dev.lemma_geometry();
            self.alloc_state().lemma_wf_bounds();
            assert(extent_ok(self.alloc_state(), self.entries()[file.file_table_index as int]));
        }
        let amount = data.len();
        let bs32 = file.block_size;
        let bs64 = bs32 as u64;
        let ghost gbs = bs32 as int;
        let ghost obase = old(file).start_lba as int * gbs;
        let ghost osz = old(file).block_count as int * gbs;
        let ghost total = old(dev).spec_total_blocks();

        let need: u64 = (offset + amount as u64 + bs64 - 1) / bs64;
        proof {
            let n = amount as int;
            assert(1 <= need && (need - 1) * gbs < offset + n && need * gbs >= offset + n)
                by (nonlinear_arith)
                requires
                    need == (offset + n + gbs - 1) / gbs,
                    4032 <= gbs <= 0x1_0000,
                    1 <= n <= 0x100_0000,
                    0 <= offset < 0x1_0000_0000_0000,
            ;
            lemma_mul_bounds_chain(old(file).start_lba as int, old(file).block_count as int,
                total as int, gbs);
        }

        if need > file.block_count {
            // Grow by relocation.
            let idx = file.file_table_index;
            let data_start = self.allocator.data_start_lba();
            let ghost pre = *self;
            let new_start_block = match self.allocator.allocate(need) {
                Ok(s) => s,
                Err(_) => {
                    return SQLITE_FULL;
                },
            };
            let old_start_block = file.start_lba - data_start;
            let old_count = file.block_count;
            let new_lba = data_start + new_start_block;
            let ghost alloc_mid = self.allocator;
            proof {
                // A run was found, so exhaustion is refuted for every later
                // return from this call.
                assert(!(forall|t: int|
                    0 <= t && t + need <= old(self).alloc_state().spec_data_block_count() ==> !old(
                        self,
                    ).alloc_state().run_free(t, need as int))) by {
                    assert(0 <= new_start_block && new_start_block + need <= old(
                        self,
                    ).alloc_state().spec_data_block_count());
                    assert(old(self).alloc_state().run_free(new_start_block as int, need as int));
                }
                // Extents land in the data region; old and new are disjoint
                // because the new run was free while the old one was marked.
                assert(old_start_block + old_count <= new_start_block || new_start_block + need
                    <= old_start_block) by {
                    if !(old_start_block + old_count <= new_start_block || new_start_block + need
                        <= old_start_block) {
                        let w = if old_start_block >= new_start_block {
                            old_start_block as int
                        } else {
                            new_start_block as int
                        };
                        assert(old_start_block <= w < old_start_block + old_count);
                        assert(new_start_block <= w < new_start_block + need);
                        assert(pre.alloc_state().bits()[w]);
                        assert(!pre.alloc_state().bits()[w]);
                    }
                }
            }
            let ghost bytes0 = dev.bytes();
            let cr = HeavenVfs::copy_blocks(dev, file.start_lba, new_lba, old_count, bs32);
            let rollback = match cr {
                Ok(_) => {
                    match dev.flush() {
                        Ok(_) => None,
                        Err(_) => Some(SQLITE_IOERR_FSYNC),
                    }
                },
                Err(c) => Some(c),
            };
            match rollback {
                Some(code) => {
                    self.allocator.free(new_start_block, need);
                    proof {
                        assert(self.allocator.bits() =~= pre.alloc_state().bits());
                        crate::bits::lemma_count_free_agree(self.allocator.bits(),
                            pre.alloc_state().bits(), self.allocator.spec_data_block_count() as int);
                        assert(self.wf()) by {
                            lemma_wf_same_bits(pre, *self);
                        }
                        assert(self.handle_ok(*file));
                        pre.alloc_state().lemma_free_count_is_clear_bits();
                        self.alloc_state().lemma_free_count_is_clear_bits();
                        assert(write_kept_metadata(pre, *self, *old(file), *file));
                        // The failed copy touched only the fresh (then
                        // freed) extent, never the old one.
                        let newlo = new_lba as int * gbs;
                        let oc = old_count as int;
                        if old_start_block + old_count <= new_start_block {
                            assert(obase + osz <= newlo) by (nonlinear_arith)
                                requires
                                    obase == (data_start + old_start_block) as int * gbs,
                                    newlo == (data_start + new_start_block) as int * gbs,
                                    osz == old_count as int * gbs,
                                    old_start_block + old_count <= new_start_block,
                                    gbs >= 0,
                                    data_start >= 0,
                            ;
                        } else {
                            assert(newlo + oc * gbs <= obase) by (nonlinear_arith)
                                requires
                                    obase == (data_start + old_start_block) as int * gbs,
                                    newlo == (data_start + new_start_block) as int * gbs,
                                    new_start_block + need <= old_start_block,
                                    oc == old_count as int,
                                    old_count <= need,
                                    gbs >= 0,
                                    data_start >= 0,
                            ;
                        }
                        assert((new_lba + old_count) as int * gbs == newlo + oc * gbs)
                            by (nonlinear_arith)
                            requires
                                newlo == new_lba as int * gbs,
                                oc == old_count as int,
                        ;
                        lemma_subrange_unchanged(dev.bytes(), bytes0, obase, obase + osz, newlo,
                            newlo + oc * gbs);
                    }
                    return code;
                },
                None => (),
            }
            // The new copy is durable; swap the metadata, then free the old
            // extent.
            file.start_lba = new_lba;
            file.block_count = need;
            let ghost pre_swap = *self;
            match self.file_table.get_mut(idx) {
                Some(entry) => {
                    entry.start_block = new_start_block;
                    entry.block_count = need;
                },
                None => (),
            }
            self.allocator.free(old_start_block, old_count);
            proof {
                let e = pre.entries()[idx as int];
                assert(e.byte_length <= need * gbs) by (nonlinear_arith)
                    requires
                        e.byte_length <= e.block_count * gbs,
                        e.block_count <= need,
                        gbs >= 0,
                ;
                lemma_wf_after_relocate(pre, *self, idx as int, old_start_block as int,
                    old_count as int, new_start_block as int, need as int);
                lemma_mul_bounds_chain(new_lba as int, need as int, total as int, gbs);
                let obl = old(file).byte_length;
                assert(osz <= need as int * gbs && obl <= need as int * gbs) by (nonlinear_arith)
                    requires
                        osz == old_count as int * gbs,
                        old_count <= need,
                        gbs >= 0,
                        obl <= old_count as int * gbs,
                ;
                assert(self.handle_ok(*file));
                assert(new_lba as int * gbs + osz <= dev.bytes().len());
                // The copy put the old extent's bytes at the new location.
                lemma_overlay_window(dev.bytes(), bytes0, new_lba as int * gbs, bytes0.subrange(
                    obase,
                    obase + osz,
                ));
                assert(dev.bytes().subrange(new_lba as int * gbs, new_lba as int * gbs + osz)
                    == bytes0.subrange(obase, obase + osz));
                // The relocation shape: entry swapped, new run marked, old
                // run cleared, counter moved by the net growth.
                assert(self.entries() =~= pre.entries().update(
                    idx as int,
                    FileEntry { start_block: new_start_block, block_count: need, ..e },
                ));
                assert forall|j: int|
                    old_start_block <= j < old_start_block + old_count
                        implies #[trigger] alloc_mid.bits()[j] by {
                    assert(pre.alloc_state().bits()[j]);
                }
                pre.alloc_state().lemma_wf_bounds();
                pre.alloc_state().lemma_free_count_is_clear_bits();
                alloc_mid.lemma_free_count_is_clear_bits();
                self.alloc_state().lemma_free_count_is_clear_bits();
                crate::bits::lemma_count_free_clear(alloc_mid.bits(), old_start_block as int,
                    old_count as int, pre.alloc_state().spec_data_block_count() as int);
                assert(write_relocated(pre, *self, *old(file), *file, need as int));
            }
        }

        // The span write itself.
        let start_block = offset / bs64;
        let in_off = offset % bs64;
        proof {
            let n = amount as int;
            let bc = file.block_count as int;
            assert(start_block as int * gbs + in_off == offset && in_off < gbs && (start_block
                as int) * gbs <= offset && start_block + (in_off + n + gbs - 1) / gbs <= bc)
                by (nonlinear_arith)
                requires
                    start_block == offset as int / gbs,
                    in_off == offset as int % gbs,
                    1 <= gbs,
                    0 <= offset,
                    1 <= n,
                    need == (offset + n + gbs - 1) / gbs,
                    need <= bc,
            ;
            lemma_mul_bounds_chain(file.start_lba as int, file.block_count as int, total as int,
                gbs);
            assert((file.start_lba + start_block) as int * gbs == file.start_lba as int * gbs
                + start_block as int * gbs) by (nonlinear_arith);
            assert(start_block as int * gbs + (in_off + amount as int + gbs - 1) / gbs * gbs
                <= file.block_count as int * gbs) by (nonlinear_arith)
                requires
                    start_block + (in_off + amount as int + gbs - 1) / gbs
                        <= file.block_count as int,
                    gbs >= 0,
                    start_block >= 0,
            ;
        }
        let ghost bytes1 = dev.bytes();
        let ghost nbase = file.start_lba as int * gbs;
        proof {
            assert(self.handle_ok(*file));
            assert(bytes1.len() == old(dev).bytes().len());
            assert(nbase + osz <= bytes1.len());
            assert(bytes1.subrange(nbase, nbase + osz) == old(dev).bytes().subrange(
                obase,
                obase + osz,
            ));
        }
        match HeavenVfs::write_span(dev, file.start_lba + start_block, in_off, data, bs32) {
            Ok(_) => (),
            Err(code) => {
                proof {
                    assert(dev.bytes().subrange(nbase, nbase + osz) == old(dev).bytes().subrange(
                        obase,
                        obase + osz,
                    ));
                }
                return code;
            },
        }
        let new_end = offset + amount as u64;
        if new_end > file.byte_length {
            file.byte_length = new_end;
        }
        proof {
            let fbl = file.byte_length;
            let fbc = file.block_count;
            let obl = old(file).byte_length;
            let obc = old(file).block_count;
            assert(fbl <= fbc * gbs) by (nonlinear_arith)
                requires
                    obl <= obc as int * gbs,
                    obc <= fbc,
                    need <= fbc,
                    gbs >= 0,
                    need * gbs >= offset + amount as int,
                    fbl == offset + amount as int || fbl == obl,
            ;
            let n = data@.len() as int;
            let head = if offset as int <= osz {
                offset as int
            } else {
                osz
            };
            lemma_overlay_window(dev.bytes(), bytes1, nbase + offset, data@);
            assert(dev.bytes().subrange(nbase, nbase + head) == bytes1.subrange(
                nbase,
                nbase + head,
            ));
            lemma_subwindow(bytes1, old(dev).bytes(), nbase, obase, osz, 0, head);
            if offset + n <= osz {
                assert(dev.bytes().subrange(nbase + offset + n, nbase + osz) == bytes1.subrange(
                    nbase + offset + n,
                    nbase + osz,
                ));
                lemma_subwindow(bytes1, old(dev).bytes(), nbase, obase, osz, offset + n, osz);
            }
            if need > old(file).block_count {
                assert(write_relocated(*old(self), *self, *old(file), *file, need as int));
            } else {
                assert(write_kept_metadata(*old(self), *self, *old(file), *file));
            }
        }
        SQLITE_OK
    }
}

impl HeavenVfs {
    /// The durability barrier: write the handle's byte length into the
    /// file table, flush the bitmap, flush the file table, and issue the
    /// device flush. Only after all four steps may anyone claim the data
    /// durable; any failure reports `SQLITE_IOERR_FSYNC`.
    pub fn sync<D: BlockDevice>(&mut self, dev: &mut D, file: &HeavenFile) -> (r: i32)
        requires
            old(self).wf(),
            old(self).handle_ok(*file),
            old(self).dev_ok(old(dev).spec_block_size(), old(dev).spec_total_blocks()),
            old(dev).inv(),
        ensures
            final(self).wf(),
            final(self).handle_ok(*file),
            final(dev).inv(),
            final(dev).spec_block_size() == old(dev).spec_block_size(),
            final(dev).spec_total_blocks() == old(dev).spec_total_blocks(),
            final(self).alloc_state().same_geometry(old(self).alloc_state()),
            final(self).alloc_state().bits() == old(self).alloc_state().bits(),
            final(self).alloc_state().words() == old(self).alloc_state().words(),
            final(self).table().spec_block_size() == old(self).table().spec_block_size(),
            final(self).table().spec_file_table_lba() == old(self).table().spec_file_table_lba(),
            final(self).entries() == old(self).entries().update(
                file.file_table_index as int,
                ({
                    let e = old(self).entries()[file.file_table_index as int];
                    FileEntry { byte_length: file.byte_length, ..e }
                }),
            ),
            r == SQLITE_OK || r == SQLITE_IOERR_FSYNC,
            ({
                let bs = old(self).alloc_state().spec_block_size() as int;
                let ftlba = old(self).table().spec_file_table_lba() as int;
                let ds = old(self).alloc_state().spec_data_start_lba() as int;
                let dlen = old(self).alloc_state().spec_data_block_count() as int;
                r == SQLITE_OK ==> {
                    &&& !final(self).alloc_state().spec_dirty()
                    &&& !final(self).table().spec_dirty()
                    &&& final(dev).bytes().subrange(ds * bs, (ds + dlen) * bs) == old(
                        dev,
                    ).bytes().subrange(ds * bs, (ds + dlen) * bs)
                    &&& final(dev).bytes().subrange(0, bs) == old(dev).bytes().subrange(0, bs)
                    &&& old(self).alloc_state().spec_dirty() ==> forall|k: int|
                        0 <= k < old(self).alloc_state().words().len()
                            ==> crate::block_alloc::stored_word(final(dev).bytes(), bs, k) == old(
                            self,
                        ).alloc_state().words()[k]
                    // A clean allocator writes nothing: its region keeps
                    // whatever image it already carried.
                    &&& !old(self).alloc_state().spec_dirty() ==> final(dev).bytes().subrange(
                        bs,
                        ftlba * bs,
                    ) == old(dev).bytes().subrange(bs, ftlba * bs)
                    &&& forall|i: int|
                        0 <= i < MAX_ENTRIES ==> crate::file_table::entry_slot(
                            final(dev).bytes(),
                            ftlba * bs,
                            i,
                        ) == crate::file_table::entry_bytes(#[trigger] final(self).entries()[i])
                }
            }),
    {
        proof {
            dev.lemma_geometry();
            self.alloc_state().lemma_wf_bounds();
        }
        let ghost gbs = self.alloc_state().spec_block_size() as int;
        let ghost bm = self.alloc_state().spec_bitmap_on_disk_blocks() as int;
        let ghost ftlba = self.table().spec_file_table_lba() as int;
        let ghost ds = self.alloc_state().spec_data_start_lba() as int;
        let ghost dlen = self.alloc_state().spec_data_block_count() as int;
        let ghost total = old(dev).spec_total_blocks() as int;

        let ghost pre = *self;
        match self.file_table.get_mut(file.file_table_index) {
            Some(entry) => {
                entry.byte_length = file.byte_length;
            },
            None => (),
        }
        proof {
            lemma_wf_after_entry_resize(pre, *self, file.file_table_index as int);
            // Region bounds within the device.
            assert((1 + bm) * gbs == 1 * gbs + bm * gbs) by (nonlinear_arith);
            assert((ftlba + 1) * gbs == ftlba * gbs + gbs) by (nonlinear_arith);
            assert((ds + dlen) * gbs == ds * gbs + dlen * gbs) by (nonlinear_arith);
            assert(ds * gbs == (ftlba + 1) * gbs);
            assert(ftlba * gbs == (1 + bm) * gbs);
            assert(1 * gbs == gbs);
            lemma_mul_bounds_chain(ds, dlen, total, gbs);
            assert(ftlba < total);
            assert(1 + bm <= total);
        }
        let ghost bytes0 = dev.bytes();
        let ghost awords = self.alloc_state().words();
        let ghost adirty = self.alloc_state().spec_dirty();
        match self.allocator.flush(dev) {
            Ok(_) => (),
            Err(_) => {
                return SQLITE_IOERR_FSYNC;
            },
        }
        let ghost bytes1 = dev.bytes();
        match self.file_table.flush(dev) {
            Ok(_) => (),
            Err(_) => {
                return SQLITE_IOERR_FSYNC;
            },
        }
        let ghost bytes2 = dev.bytes();
        match dev.flush() {
            Ok(_) => (),
            Err(_) => {
                return SQLITE_IOERR_FSYNC;
            },
        }
        proof {
            // The file-table write does not disturb the bitmap region, nor
            // does anything disturb the superblock or the data region.
            if adirty {
                assert forall|k: int| 0 <= k < awords.len() implies crate::block_alloc::stored_word(
                    dev.bytes(),
                    gbs,
                    k,
                ) == awords[k] by {
                    assert(8 * k + 8 <= bm * gbs);
                    lemma_subrange_unchanged(bytes2, bytes1, gbs + 8 * k, gbs + 8 * k + 8,
                        ftlba * gbs, ftlba * gbs + gbs);
                    assert(crate::block_alloc::stored_word(bytes2, gbs, k)
                        == crate::block_alloc::stored_word(bytes1, gbs, k));
                }
            }
            lemma_subrange_unchanged(bytes1, bytes0, ds * gbs, (ds + dlen) * gbs, gbs, gbs + bm
                * gbs);
            lemma_subrange_unchanged(bytes2, bytes1, ds * gbs, (ds + dlen) * gbs, ftlba * gbs,
                ftlba * gbs + gbs);
            lemma_subrange_unchanged(bytes1, bytes0, 0, gbs, gbs, gbs + bm * gbs);
            lemma_subrange_unchanged(bytes2, bytes1, 0, gbs, ftlba * gbs, ftlba * gbs + gbs);
            if !adirty {
                lemma_subrange_unchanged(bytes2, bytes1, gbs, ftlba * gbs, ftlba * gbs,
                    ftlba * gbs + gbs);
            }
        }
        SQLITE_OK
    }
}

/// Sync barrier: after a successful sync, a cold reload of the allocator
/// and the file table reproduces the extents and byte lengths observed
/// before the sync. The premises are what `sync` guarantees of the device
/// image (the bitmap words and the serialized entries) and what the two
/// `load` functions promise of anything they accept; the conclusion pins
/// the reloaded state to the in-RAM state that was synced.
pub proof fn lemma_sync_cold_reload(
    a: BlockAllocator,
    lda: BlockAllocator,
    t: FileTable,
    ldt: FileTable,
    bytes: Seq<u8>,
    bitmap_base: int,
    table_base: int,
)
    requires
        a.wf(),
        lda.wf(),
        t.wf(),
        ldt.wf(),
        lda.spec_data_block_count() == a.spec_data_block_count(),
        lda.words().len() == a.words().len(),
        // The device stores the allocator's bitmap words...
        forall|k: int|
            0 <= k < a.words().len() ==> crate::block_alloc::stored_word(bytes, bitmap_base, k)
                == a.words()[k],
        // ...and the serialized file table entries.
        forall|i: int|
            0 <= i < MAX_ENTRIES ==> crate::file_table::entry_slot(bytes, table_base, i)
                == crate::file_table::entry_bytes(#[trigger] t.entries()[i]),
        // What the loaders promise of states they accept.
        forall|k: int|
            0 <= k < lda.words().len() ==> lda.words()[k] == crate::block_alloc::stored_word(
                bytes,
                bitmap_base,
                k,
            ),
        forall|i: int|
            0 <= i < MAX_ENTRIES ==> crate::file_table::entry_matches(
                #[trigger] ldt.entries()[i],
                crate::file_table::entry_slot(bytes, table_base, i),
            ),
    ensures
        lda.bits() == a.bits(),
        lda.spec_free_count() == a.spec_free_count(),
        forall|i: int|
            0 <= i < MAX_ENTRIES ==> ({
                let e = #[trigger] ldt.entries()[i];
                let o = t.entries()[i];
                &&& e.spec_in_use() == o.spec_in_use()
                &&& e.spec_name() == o.spec_name()
                &&& e.start_block == o.start_block
                &&& e.block_count == o.block_count
                &&& e.byte_length == o.byte_length
            }),
{
    crate::block_alloc::lemma_flush_load_round_trip(a, lda, bytes, bitmap_base);
    crate::file_table::lemma_table_flush_load_round_trip(t, ldt, bytes, table_base);
}

/// Read/write round trip: a buffer read back from the byte range that a
/// successful write filled, after a sync that left the data region
/// untouched, holds exactly the written bytes. The premises are the
/// content clauses of `write`, `sync` and `read`; the conclusion pins the
/// read buffer to the written data.
pub proof fn lemma_read_write_round_trip(
    written: Seq<u8>,
    synced: Seq<u8>,
    buf: Seq<u8>,
    base: int,
    offset: int,
    data: Seq<u8>,
    region_lo: int,
    region_hi: int,
)
    requires
        0 <= offset,
        data.len() >= 1,
        0 <= region_lo <= base + offset,
        base + offset + data.len() <= region_hi <= written.len(),
        // what write guarantees of the device:
        written.subrange(base + offset, base + offset + data.len()) == data,
        // what sync guarantees of the data region:
        synced.len() == written.len(),
        synced.subrange(region_lo, region_hi) == written.subrange(region_lo, region_hi),
        // what read returns for a full-length, in-bounds read:
        buf == synced.subrange(base + offset, base + offset + data.len()) + zeros(0),
    ensures
        buf == data,
{
    lemma_subwindow(
        synced,
        written,
        region_lo,
        region_lo,
        region_hi - region_lo,
        base + offset - region_lo,
        base + offset + data.len() - region_lo,
    );
    assert(buf =~= data);
}

/// Unchanged bits mean an unchanged invariant, whatever the dirty flag and
/// counter did.
proof fn lemma_wf_same_bits(pre: HeavenVfs, post: HeavenVfs)
    requires
        pre.wf(),
        post.alloc_state().wf(),
        post.alloc_state().same_geometry(pre.alloc_state()),
        post.alloc_state().bits() == pre.alloc_state().bits(),
        post.table() == pre.table(),
    ensures
        post.wf(),
{
    assert forall|i: int|
        0 <= i < MAX_ENTRIES && (#[trigger] post.entries()[i]).spec_in_use() implies extent_ok(
        post.alloc_state(),
        post.entries()[i],
    ) by {
        assert(extent_ok(pre.alloc_state(), pre.entries()[i]));
    }
    assert forall|i: int, j: int|
        0 <= i < j < MAX_ENTRIES && (#[trigger] post.entries()[i]).spec_in_use() && (
        #[trigger] post.entries()[j]).spec_in_use() implies extents_disjoint(
        post.entries()[i],
        post.entries()[j],
    ) && post.entries()[i].spec_name() != post.entries()[j].spec_name() by {
        assert(pre.entries()[i].spec_in_use() && pre.entries()[j].spec_in_use());
        assert(extents_disjoint(pre.entries()[i], pre.entries()[j]));
        assert(pre.entries()[i].spec_name() != pre.entries()[j].spec_name());
    }
}

/// What an overlay leaves in and around its window.
proof fn lemma_overlay_window(post: Seq<u8>, pre: Seq<u8>, at: int, data: Seq<u8>)
    requires
        post == overlay(pre, at, data),
        0 <= at,
        at + data.len() <= pre.len(),
    ensures
        post.len() == pre.len(),
        post.subrange(at, at + data.len()) == data,
        forall|a: int, b: int|
            0 <= a <= b <= post.len() && (b <= at || at + data.len() <= a)
                ==> #[trigger] post.subrange(a, b) == pre.subrange(a, b),
{
    assert(post.subrange(at, at + data.len()) =~= data);
    assert forall|a: int, b: int|
        0 <= a <= b <= post.len() && (b <= at || at + data.len() <= a)
            implies #[trigger] post.subrange(a, b) == pre.subrange(a, b) by {
        assert forall|x: int| 0 <= x < b - a implies post.subrange(a, b)[x] == pre.subrange(
            a,
            b,
        )[x] by {
            assert(post[a + x] == pre[a + x]);
        }
        assert(post.subrange(a, b) =~= pre.subrange(a, b));
    }
}

/// Equality of two byte windows carries over to equally-placed
/// sub-windows.
proof fn lemma_subwindow(s1: Seq<u8>, s2: Seq<u8>, lo1: int, lo2: int, len: int, a: int, b: int)
    requires
        0 <= lo1,
        0 <= lo2,
        0 <= a <= b <= len,
        lo1 + len <= s1.len(),
        lo2 + len <= s2.len(),
        s1.subrange(lo1, lo1 + len) == s2.subrange(lo2, lo2 + len),
    ensures
        s1.subrange(lo1 + a, lo1 + b) == s2.subrange(lo2 + a, lo2 + b),
{
    let w1 = s1.subrange(lo1, lo1 + len);
    let w2 = s2.subrange(lo2, lo2 + len);
    let t1 = s1.subrange(lo1 + a, lo1 + b);
    let t2 = s2.subrange(lo2 + a, lo2 + b);
    assert forall|x: int| 0 <= x < b - a implies t1[x] == t2[x] by {
        assert(w1[a + x] == w2[a + x]);
        assert(w1[a + x] == s1[lo1 + a + x]);
        assert(w2[a + x] == s2[lo2 + a + x]);
        assert(t1[x] == s1[lo1 + a + x]);
        assert(t2[x] == s2[lo2 + a + x]);
    }
    assert(t1 =~= t2);
}

/// Swapping an entry onto a freshly allocated (previously free) extent and
/// freeing its old extent keeps the VFS invariant.
proof fn lemma_wf_after_relocate(
    pre: HeavenVfs,
    post: HeavenVfs,
    idx: int,
    old_start: int,
    old_count: int,
    new_start: int,
    new_count: int,
)
    requires
        pre.wf(),
        0 <= idx < MAX_ENTRIES,
        pre.entries()[idx].spec_in_use(),
        pre.entries()[idx].start_block == old_start,
        pre.entries()[idx].block_count == old_count,
        1 <= new_count,
        new_start + new_count <= pre.alloc_state().spec_data_block_count(),
        pre.alloc_state().run_free(new_start, new_count),
        post.alloc_state().wf(),
        post.alloc_state().same_geometry(pre.alloc_state()),
        // allocate the new run, then free the old one
        post.alloc_state().bits() == crate::bits::with_run(
            crate::bits::with_run(pre.alloc_state().bits(), new_start, new_count, true),
            old_start,
            old_count,
            false,
        ),
        post.table().wf(),
        post.table().spec_block_size() == pre.table().spec_block_size(),
        post.entries() == pre.entries().update(idx, post.entries()[idx]),
        post.entries()[idx].spec_in_use(),
        post.entries()[idx].start_block == new_start,
        post.entries()[idx].block_count == new_count,
        post.entries()[idx].byte_length == pre.entries()[idx].byte_length,
        post.entries()[idx].byte_length <= new_count * pre.alloc_state().spec_block_size(),
        post.entries()[idx].spec_name() == pre.entries()[idx].spec_name(),
    ensures
        post.wf(),
{
    let victim = pre.entries()[idx];
    let a = post.alloc_state();
    // The new extent is disjoint from every other in-use extent: those were
    // fully marked while the new run was free.
    assert forall|k: int|
        0 <= k < MAX_ENTRIES && k != idx && (#[trigger] pre.entries()[k]).spec_in_use()
            implies extents_disjoint(pre.entries()[k], post.entries()[idx]) by {
        let o = pre.entries()[k];
        assert(extent_ok(pre.alloc_state(), o));
        if !extents_disjoint(o, post.entries()[idx]) {
            let w = if o.start_block >= new_start {
                o.start_block as int
            } else {
                new_start
            };
            assert(o.start_block <= w < o.start_block + o.block_count);
            assert(new_start <= w < new_start + new_count);
            assert(pre.alloc_state().bits()[w]);
            assert(!pre.alloc_state().bits()[w]);
        }
    }
    assert forall|i: int|
        0 <= i < MAX_ENTRIES && (#[trigger] post.entries()[i]).spec_in_use() implies extent_ok(
        a,
        post.entries()[i],
    ) by {
        let e = post.entries()[i];
        if i == idx {
            assert forall|j: int| new_start <= j < new_start + new_count
                implies #[trigger] a.bits()[j] by {
                assert(extents_disjoint(pre.entries()[idx], post.entries()[idx])
                    || !(old_start <= j < old_start + old_count)) by {
                    if old_start <= j < old_start + old_count {
                        assert(pre.alloc_state().bits()[j]);
                        assert(!pre.alloc_state().bits()[j]);
                    }
                }
            }
        } else {
            assert(e == pre.entries()[i]);
            assert(extent_ok(pre.alloc_state(), e));
            assert(extents_disjoint(e, post.entries()[idx]));
            let dis = if i < idx {
                extents_disjoint(pre.entries()[i], victim)
            } else {
                extents_disjoint(victim, pre.entries()[i])
            };
            assert(dis);
            assert forall|j: int| e.start_block <= j < e.start_block + e.block_count
                implies #[trigger] a.bits()[j] by {
                assert(pre.alloc_state().bits()[j]);
                assert(!(old_start <= j < old_start + old_count));
                assert(!(new_start <= j < new_start + new_count));
            }
        }
    }
    assert forall|i: int, j: int|
        0 <= i < j < MAX_ENTRIES && (#[trigger] post.entries()[i]).spec_in_use() && (
        #[trigger] post.entries()[j]).spec_in_use() implies extents_disjoint(
        post.entries()[i],
        post.entries()[j],
    ) && post.entries()[i].spec_name() != post.entries()[j].spec_name() by {
        if i != idx && j != idx {
            assert(post.entries()[i] == pre.entries()[i]);
            assert(post.entries()[j] == pre.entries()[j]);
            assert(extents_disjoint(pre.entries()[i], pre.entries()[j]));
            assert(pre.entries()[i].spec_name() != pre.entries()[j].spec_name());
        } else {
            let k = if i == idx {
                j
            } else {
                i
            };
            assert(post.entries()[k] == pre.entries()[k]);
            assert(extents_disjoint(pre.entries()[k], post.entries()[idx]));
            if k < idx {
                assert(pre.entries()[k].spec_name() != pre.entries()[idx].spec_name());
            } else {
                assert(pre.entries()[idx].spec_name() != pre.entries()[k].spec_name());
            }
        }
    }
}

/// Creating an entry over a freshly allocated (previously free) run keeps
/// the VFS invariant: the new extent is fully marked, everyone else's bits
/// are untouched, and the new extent cannot overlap an old one because old
/// extents were marked while the run was free.
proof fn lemma_wf_after_create(
    pre: HeavenVfs,
    post: HeavenVfs,
    start: int,
    count: int,
    idx: int,
    name: Seq<u8>,
)
    requires
        pre.wf(),
        !pre.table().has_name(name),
        0 <= idx < MAX_ENTRIES,
        count >= 1,
        // allocator action
        post.alloc_state().wf(),
        post.alloc_state().same_geometry(pre.alloc_state()),
        start + count <= pre.alloc_state().spec_data_block_count(),
        pre.alloc_state().run_free(start, count),
        post.alloc_state().bits() == crate::bits::with_run(pre.alloc_state().bits(), start, count,
            true),
        // table action
        post.table().wf(),
        post.table().spec_block_size() == pre.table().spec_block_size(),
        !pre.entries()[idx].spec_in_use(),
        post.entries() == pre.entries().update(idx, post.entries()[idx]),
        post.entries()[idx].spec_in_use(),
        post.entries()[idx].start_block == start,
        post.entries()[idx].block_count == count,
        post.entries()[idx].byte_length == 0,
        post.entries()[idx].spec_name() == name,
    ensures
        post.wf(),
{
    assert forall|k: int|
        0 <= k < MAX_ENTRIES && k != idx && (#[trigger] pre.entries()[k]).spec_in_use()
            implies pre.entries()[k].spec_name() != name by {
        if pre.entries()[k].spec_name() == name {
            assert(pre.table().has_name_below(name, MAX_ENTRIES as int));
        }
    }
    let a = post.alloc_state();
    assert forall|i: int|
        0 <= i < MAX_ENTRIES && (#[trigger] post.entries()[i]).spec_in_use() implies extent_ok(
        a,
        post.entries()[i],
    ) by {
        let e = post.entries()[i];
        if i == idx {
            assert forall|j: int| e.start_block <= j < e.start_block + e.block_count
                implies #[trigger] a.bits()[j] by {}
            assert(e.byte_length <= e.block_count * a.spec_block_size()) by (nonlinear_arith)
                requires
                    e.byte_length == 0,
                    e.block_count >= 1,
                    a.spec_block_size() >= 0,
            ;
        } else {
            assert(e == pre.entries()[i]);
            assert(extent_ok(pre.alloc_state(), e));
            assert forall|j: int| e.start_block <= j < e.start_block + e.block_count
                implies #[trigger] a.bits()[j] by {
                assert(pre.alloc_state().bits()[j]);
            }
        }
    }
    assert forall|i: int, j: int|
        0 <= i < j < MAX_ENTRIES && (#[trigger] post.entries()[i]).spec_in_use() && (
        #[trigger] post.entries()[j]).spec_in_use() implies extents_disjoint(
        post.entries()[i],
        post.entries()[j],
    ) && post.entries()[i].spec_name() != post.entries()[j].spec_name() by {
        if i != idx && j != idx {
            assert(post.entries()[i] == pre.entries()[i]);
            assert(post.entries()[j] == pre.entries()[j]);
        } else {
            assert(post.entries()[if i == idx { j } else { i }].spec_name() != name);
            let o = if i == idx {
                post.entries()[j]
            } else {
                post.entries()[i]
            };
            let n = post.entries()[idx];
            assert(o == pre.entries()[if i == idx {
                j
            } else {
                i
            }]);
            assert(extent_ok(pre.alloc_state(), o));
            if !extents_disjoint(o, n) {
                let w = if o.start_block >= n.start_block {
                    o.start_block as int
                } else {
                    n.start_block as int
                };
                assert(o.start_block <= w < o.start_block + o.block_count);
                assert(n.start_block <= w < n.start_block + n.block_count);
                assert(pre.alloc_state().bits()[w]);
                assert(!pre.alloc_state().bits()[w]);
            }
        }
    }
}

/// Changing only an entry's byte length (within its extent) keeps the
/// invariant.
proof fn lemma_wf_after_entry_resize(pre: HeavenVfs, post: HeavenVfs, idx: int)
    requires
        pre.wf(),
        0 <= idx < MAX_ENTRIES,
        post.alloc_state() == pre.alloc_state(),
        post.table().wf(),
        post.table().spec_block_size() == pre.table().spec_block_size(),
        post.entries() == pre.entries().update(idx, post.entries()[idx]),
        post.entries()[idx].spec_in_use() == pre.entries()[idx].spec_in_use(),
        post.entries()[idx].start_block == pre.entries()[idx].start_block,
        post.entries()[idx].block_count == pre.entries()[idx].block_count,
        post.entries()[idx].spec_name() == pre.entries()[idx].spec_name(),
        post.entries()[idx].byte_length <= post.entries()[idx].block_count * pre.alloc_state(
        ).spec_block_size(),
    ensures
        post.wf(),
{
    assert forall|i: int|
        0 <= i < MAX_ENTRIES && (#[trigger] post.entries()[i]).spec_in_use() implies extent_ok(
        post.alloc_state(),
        post.entries()[i],
    ) by {
        if i != idx {
            assert(post.entries()[i] == pre.entries()[i]);
        }
        assert(pre.entries()[i].spec_in_use());
        assert(extent_ok(pre.alloc_state(), pre.entries()[i]));
    }
    assert forall|i: int, j: int|
        0 <= i < j < MAX_ENTRIES && (#[trigger] post.entries()[i]).spec_in_use() && (
        #[trigger] post.entries()[j]).spec_in_use() implies extents_disjoint(
        post.entries()[i],
        post.entries()[j],
    ) && post.entries()[i].spec_name() != post.entries()[j].spec_name() by {
        assert(pre.entries()[i].spec_in_use() && pre.entries()[j].spec_in_use());
        assert(extents_disjoint(pre.entries()[i], pre.entries()[j]));
        assert(pre.entries()[i].spec_name() != pre.entries()[j].spec_name());
    }
}

/// Deleting an entry and freeing its extent keeps the invariant: other
/// extents are disjoint from the freed run, so their bits survive.
proof fn lemma_wf_after_delete(pre: HeavenVfs, post: HeavenVfs, idx: int)
    requires
        pre.wf(),
        0 <= idx < MAX_ENTRIES,
        pre.entries()[idx].spec_in_use(),
        post.alloc_state().wf(),
        post.alloc_state().same_geometry(pre.alloc_state()),
        post.alloc_state().bits() == crate::bits::with_run(
            pre.alloc_state().bits(),
            pre.entries()[idx].start_block as int,
            pre.entries()[idx].block_count as int,
            false,
        ),
        post.table().wf(),
        post.table().spec_block_size() == pre.table().spec_block_size(),
        post.entries() == pre.entries().update(idx, FileEntry::spec_empty()),
    ensures
        post.wf(),
        !post.entries()[idx].spec_in_use(),
{
    let victim = pre.entries()[idx];
    assert(!FileEntry::spec_empty().spec_in_use()) by {
        assert(0u32 & 1u32 == 0u32) by (bit_vector);
    }
    assert forall|i: int|
        0 <= i < MAX_ENTRIES && (#[trigger] post.entries()[i]).spec_in_use() implies extent_ok(
        post.alloc_state(),
        post.entries()[i],
    ) by {
        assert(i != idx);
        let e = post.entries()[i];
        assert(e == pre.entries()[i]);
        assert(extent_ok(pre.alloc_state(), e));
        if i < idx {
            assert(extents_disjoint(pre.entries()[i], victim));
        } else {
            assert(extents_disjoint(victim, pre.entries()[i]));
        }
        assert forall|j: int| e.start_block <= j < e.start_block + e.block_count
            implies #[trigger] post.alloc_state().bits()[j] by {
            assert(pre.alloc_state().bits()[j]);
            assert(!(victim.start_block <= j < victim.start_block + victim.block_count));
        }
    }
    assert forall|i: int, j: int|
        0 <= i < j < MAX_ENTRIES && (#[trigger] post.entries()[i]).spec_in_use() && (
        #[trigger] post.entries()[j]).spec_in_use() implies extents_disjoint(
        post.entries()[i],
        post.entries()[j],
    ) && post.entries()[i].spec_name() != post.entries()[j].spec_name() by {
        assert(i != idx && j != idx);
        assert(post.entries()[i] == pre.entries()[i]);
        assert(post.entries()[j] == pre.entries()[j]);
        assert(pre.entries()[i].spec_name() != pre.entries()[j].spec_name());
    }
}

/// Shrinking an extent frees only its own tail, which no other extent
/// overlaps, so the invariant survives.
proof fn lemma_wf_after_shrink(
    pre: HeavenVfs,
    post: HeavenVfs,
    idx: int,
    needed: int,
    excess_start: int,
    excess_count: int,
    size: u64,
)
    requires
        pre.wf(),
        0 <= idx < MAX_ENTRIES,
        pre.entries()[idx].spec_in_use(),
        1 <= needed < pre.entries()[idx].block_count,
        excess_start == pre.entries()[idx].start_block + needed,
        excess_count == pre.entries()[idx].block_count - needed,
        size <= needed * pre.alloc_state().spec_block_size(),
        post.alloc_state().wf(),
        post.alloc_state().same_geometry(pre.alloc_state()),
        post.alloc_state().bits() == crate::bits::with_run(pre.alloc_state().bits(), excess_start,
            excess_count, false),
        post.table().wf(),
        post.table().spec_block_size() == pre.table().spec_block_size(),
        post.entries() == pre.entries().update(idx, post.entries()[idx]),
        post.entries()[idx].spec_in_use(),
        post.entries()[idx].start_block == pre.entries()[idx].start_block,
        post.entries()[idx].block_count == needed,
        post.entries()[idx].byte_length == size,
        post.entries()[idx].spec_name() == pre.entries()[idx].spec_name(),
    ensures
        post.wf(),
{
    let victim = pre.entries()[idx];
    assert forall|i: int|
        0 <= i < MAX_ENTRIES && (#[trigger] post.entries()[i]).spec_in_use() implies extent_ok(
        post.alloc_state(),
        post.entries()[i],
    ) by {
        let e = post.entries()[i];
        if i != idx {
            assert(e == pre.entries()[i]);
            if i < idx {
                assert(extents_disjoint(pre.entries()[i], victim));
            } else {
                assert(extents_disjoint(victim, pre.entries()[i]));
            }
        }
        assert(pre.entries()[i].spec_in_use());
        assert(extent_ok(pre.alloc_state(), pre.entries()[i]));
        assert forall|j: int| e.start_block <= j < e.start_block + e.block_count
            implies #[trigger] post.alloc_state().bits()[j] by {
            assert(pre.alloc_state().bits()[j]);
            assert(!(excess_start <= j < excess_start + excess_count));
        }
    }
    assert forall|i: int, j: int|
        0 <= i < j < MAX_ENTRIES && (#[trigger] post.entries()[i]).spec_in_use() && (
        #[trigger] post.entries()[j]).spec_in_use() implies extents_disjoint(
        post.entries()[i],
        post.entries()[j],
    ) && post.entries()[i].spec_name() != post.entries()[j].spec_name() by {
        assert(pre.entries()[i].spec_in_use() && pre.entries()[j].spec_in_use());
        assert(extents_disjoint(pre.entries()[i], pre.entries()[j]));
        assert(pre.entries()[i].spec_name() != pre.entries()[j].spec_name());
    }
}

} // verus!

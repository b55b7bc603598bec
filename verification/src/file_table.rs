//! On-device file table — maps names to extents of data blocks.
//!
//! The table lives in a single device block right after the bitmap. Each
//! entry is 96 bytes, so a 4096-byte block holds 42 entries. This is not a
//! general-purpose filesystem: it maps a handful of well-known names
//! (the database file, its journal, WAL and temp files) to contiguous
//! block extents.

use vstd::prelude::*;

use crate::block_device::BlockDevice;
use crate::bytes::{bytes_eq, get_u32, get_u64, put_u32, put_u64, u32_from_le, u32_le, u64_from_le,
    u64_le};
use crate::dma::DmaBuf;
use crate::nvme_command::NvmeError;

verus! {

broadcast use vstd::array::group_array_axioms;

/// Maximum file name length, including the null terminator.
pub const MAX_NAME_LEN: usize = 64;

/// Maximum entries in the file table.
pub const MAX_ENTRIES: usize = 42;

/// Index of the first null byte of `s`, or `s.len()` if none.
pub open spec fn first_zero(s: Seq<u8>, i: int) -> int
    decreases s.len() - i,
{
    if i < 0 || i >= s.len() {
        s.len() as int
    } else if s[i] == 0 {
        i
    } else {
        first_zero(s, i + 1)
    }
}

pub proof fn lemma_first_zero(s: Seq<u8>, i: int, r: int)
    requires
        0 <= i <= r <= s.len(),
        forall|k: int| i <= k < r ==> s[k] != 0,
        r < s.len() ==> s[r] == 0,
    ensures
        first_zero(s, i) == r,
    decreases r - i,
{
    if i < r {
        lemma_first_zero(s, i + 1, r);
    }
}

/// A single file table entry — 96 bytes on the device.
#[derive(Clone, Copy)]
pub struct FileEntry {
    /// File name, null-terminated.
    pub name: [u8; 64],
    /// Starting data-block index (not a raw LBA — add `data_start_lba`).
    pub start_block: u64,
    /// Number of allocated blocks.
    pub block_count: u64,
    /// Actual byte length of the file (at most `block_count * block_size`).
    pub byte_length: u64,
    /// Flags: bit 0 = in use, bit 1 = read only.
    pub flags: u32,
    /// Reserved.
    pub reserved: u32,
}

impl FileEntry {
    /// The name bytes up to the first null.
    pub open spec fn spec_name(self) -> Seq<u8> {
        self.name@.subrange(0, first_zero(self.name@, 0))
    }

    pub open spec fn spec_in_use(self) -> bool {
        self.flags & 1u32 != 0u32
    }

    pub open spec fn spec_empty() -> FileEntry {
        FileEntry {
            name: vstd::array::spec_array_fill_for_copy_type::<u8, 64>(0u8),
            start_block: 0,
            block_count: 0,
            byte_length: 0,
            flags: 0,
            reserved: 0,
        }
    }

    pub fn empty() -> (r: Self)
        ensures
            r == FileEntry::spec_empty(),
            !r.spec_in_use(),
    {
        let r = FileEntry {
            name: [0u8; 64],
            start_block: 0,
            block_count: 0,
            byte_length: 0,
            flags: 0,
            reserved: 0,
        };
        proof {
            let f = r.flags;
            assert(f & 1u32 == 0u32) by (bit_vector)
                requires
                    f == 0u32,
            ;
        }
        r
    }

    pub fn is_in_use(&self) -> (r: bool)
        ensures
            r == self.spec_in_use(),
    {
        self.flags & 1 != 0
    }

    pub fn set_in_use(&mut self, used: bool)
        ensures
            final(self).spec_in_use() == used,
            final(self).name == old(self).name,
            final(self).start_block == old(self).start_block,
            final(self).block_count == old(self).block_count,
            final(self).byte_length == old(self).byte_length,
            final(self).reserved == old(self).reserved,
            used ==> final(self).flags == old(self).flags | 1u32,
            !used ==> final(self).flags == old(self).flags & !1u32,
    {
        if used {
            self.flags = self.flags | 1;
            proof {
                let f = old(self).flags;
                assert((f | 1u32) & 1u32 != 0u32) by (bit_vector);
            }
        } else {
            self.flags = self.flags & !1;
            proof {
                let f = old(self).flags;
                assert((f & !1u32) & 1u32 == 0u32) by (bit_vector);
            }
        }
    }

    /// The file name as a byte slice: the bytes up to the first null.
    pub fn name_bytes(&self) -> (r: &[u8])
        ensures
            r@ == self.spec_name(),
    {
        let s = self.name.as_slice();
        let mut i: usize = 0;
        while i < 64
            invariant
                i <= 64,
                s@ == self.name@,
                forall|k: int| 0 <= k < i ==> self.name@[k] != 0,
            decreases 64 - i,
        {
            if s[i] == 0 {
                proof {
                    lemma_first_zero(self.name@, 0, i as int);
                }
                return vstd::slice::slice_subrange(s, 0, i);
            }
            i += 1;
        }
        proof {
            lemma_first_zero(self.name@, 0, 64);
        }
        vstd::slice::slice_subrange(s, 0, 64)
    }

    /// Set the file name from a byte slice; at most 63 bytes are copied and
    /// a null terminator follows them.
    pub fn set_name(&mut self, name: &[u8])
        ensures
            final(self).start_block == old(self).start_block,
            final(self).block_count == old(self).block_count,
            final(self).byte_length == old(self).byte_length,
            final(self).flags == old(self).flags,
            final(self).reserved == old(self).reserved,
            ({
                let n = if name@.len() < 63 {
                    name@.len() as int
                } else {
                    63
                };
                &&& forall|k: int| 0 <= k < n ==> final(self).name@[k] == name@[k]
                &&& final(self).name@[n] == 0
                &&& forall|k: int| n < k < 64 ==> final(self).name@[k] == old(self).name@[k]
            }),
    {
        let copy_len = if name.len() < 63 {
            name.len()
        } else {
            63
        };
        let mut i: usize = 0;
        while i < copy_len
            invariant
                i <= copy_len,
                copy_len <= 63,
                copy_len <= name@.len(),
                self.start_block == old(self).start_block,
                self.block_count == old(self).block_count,
                self.byte_length == old(self).byte_length,
                self.flags == old(self).flags,
                self.reserved == old(self).reserved,
                forall|k: int| 0 <= k < i ==> self.name@[k] == name@[k],
                forall|k: int| i <= k < 64 ==> self.name@[k] == old(self).name@[k],
            decreases copy_len - i,
        {
            self.name[i] = name[i];
            i += 1;
        }
        self.name[copy_len] = 0;
    }

    /// Whether this entry's name equals `name` exactly.
    pub fn name_matches(&self, name: &[u8]) -> (r: bool)
        ensures
            r == (self.spec_name() == name@),
    {
        bytes_eq(self.name_bytes(), name)
    }
}

/// The 96 bytes of one entry on the device: the name, then the extent
/// fields little-endian, then flags and the reserved word.
pub open spec fn entry_bytes(e: FileEntry) -> Seq<u8> {
    e.name@ + u64_le(e.start_block) + u64_le(e.block_count) + u64_le(e.byte_length) + u32_le(
        e.flags,
    ) + u32_le(e.reserved)
}

/// The 96-byte slot of entry `i` within a serialized table.
pub open spec fn entry_slot(s: Seq<u8>, base: int, i: int) -> Seq<u8> {
    s.subrange(base + 96 * i, base + 96 * i + 96)
}

/// An entry whose serialized slot is `b` has exactly these fields.
pub open spec fn entry_matches(e: FileEntry, b: Seq<u8>) -> bool {
    &&& e.name@ == b.subrange(0, 64)
    &&& e.start_block == u64_from_le(b.subrange(64, 72))
    &&& e.block_count == u64_from_le(b.subrange(72, 80))
    &&& e.byte_length == u64_from_le(b.subrange(80, 88))
    &&& e.flags == u32_from_le(b.subrange(88, 92))
    &&& e.reserved == u32_from_le(b.subrange(92, 96))
}

/// Serialization then deserialization preserves every field.
pub proof fn lemma_entry_round_trip(e: FileEntry, b: Seq<u8>)
    requires
        b == entry_bytes(e),
    ensures
        entry_matches(e, b),
{
    assert(b.subrange(0, 64) =~= e.name@);
    assert(b.subrange(64, 72) =~= u64_le(e.start_block));
    assert(b.subrange(72, 80) =~= u64_le(e.block_count));
    assert(b.subrange(80, 88) =~= u64_le(e.byte_length));
    assert(b.subrange(88, 92) =~= u32_le(e.flags));
    assert(b.subrange(92, 96) =~= u32_le(e.reserved));
    crate::bytes::lemma_u64_le_round_trip(e.start_block);
    crate::bytes::lemma_u64_le_round_trip(e.block_count);
    crate::bytes::lemma_u64_le_round_trip(e.byte_length);
    crate::bytes::lemma_u32_le_round_trip(e.flags);
    crate::bytes::lemma_u32_le_round_trip(e.reserved);
}

/// Sync barrier, file-table half: a flushed table survives a cold reload.
/// If the device stores exactly the serialized entries (what `flush`
/// leaves behind) and `load` accepted the same image, every reloaded
/// entry carries the same name, extent, byte length and flags.
pub proof fn lemma_table_flush_load_round_trip(
    t: FileTable,
    ld: FileTable,
    bytes: Seq<u8>,
    base: int,
)
    requires
        t.wf(),
        ld.wf(),
        forall|i: int|
            0 <= i < MAX_ENTRIES ==> entry_slot(bytes, base, i) == entry_bytes(
                #[trigger] t.entries()[i],
            ),
        forall|i: int|
            0 <= i < MAX_ENTRIES ==> entry_matches(
                #[trigger] ld.entries()[i],
                entry_slot(bytes, base, i),
            ),
    ensures
        forall|i: int|
            0 <= i < MAX_ENTRIES ==> ({
                let a = #[trigger] ld.entries()[i];
                let b = t.entries()[i];
                &&& a.name@ == b.name@
                &&& a.start_block == b.start_block
                &&& a.block_count == b.block_count
                &&& a.byte_length == b.byte_length
                &&& a.flags == b.flags
                &&& a.spec_in_use() == b.spec_in_use()
                &&& a.spec_name() == b.spec_name()
            }),
{
    assert forall|i: int| 0 <= i < MAX_ENTRIES implies ({
        let a = #[trigger] ld.entries()[i];
        let b = t.entries()[i];
        &&& a.name@ == b.name@
        &&& a.start_block == b.start_block
        &&& a.block_count == b.block_count
        &&& a.byte_length == b.byte_length
        &&& a.flags == b.flags
        &&& a.spec_in_use() == b.spec_in_use()
        &&& a.spec_name() == b.spec_name()
    }) by {
        lemma_entry_round_trip(t.entries()[i], entry_slot(bytes, base, i));
    }
}

/// In-memory file table, cached from the device.
pub struct FileTable {
    entries: Vec<FileEntry>,
    file_table_lba: u64,
    block_size: u32,
    dirty: bool,
}

impl FileTable {
    pub closed spec fn entries(self) -> Seq<FileEntry> {
        self.entries@
    }

    pub closed spec fn spec_file_table_lba(self) -> u64 {
        self.file_table_lba
    }

    pub closed spec fn spec_block_size(self) -> u32 {
        self.block_size
    }

    pub closed spec fn spec_dirty(self) -> bool {
        self.dirty
    }

    pub open spec fn wf(self) -> bool {
        self.entries().len() == MAX_ENTRIES
    }

    /// Whether some in-use entry before `n` carries `name`.
    pub open spec fn has_name_below(self, name: Seq<u8>, n: int) -> bool {
        exists|k: int|
            0 <= k < n && (#[trigger] self.entries()[k]).spec_in_use() && self.entries()[
            k].spec_name() == name
    }

    /// Whether some in-use entry carries `name`.
    pub open spec fn has_name(self, name: Seq<u8>) -> bool {
        self.has_name_below(name, MAX_ENTRIES as int)
    }

    /// Create an empty file table.
    pub fn new(file_table_lba: u64, block_size: u32) -> (r: Self)
        ensures
            r.wf(),
            r.spec_file_table_lba() == file_table_lba,
            r.spec_block_size() == block_size,
            !r.spec_dirty(),
            forall|k: int| 0 <= k < MAX_ENTRIES ==> !(#[trigger] r.entries()[k]).spec_in_use(),
            forall|k: int|
                0 <= k < MAX_ENTRIES ==> #[trigger] r.entries()[k] == FileEntry::spec_empty(),
    {
        let mut entries: Vec<FileEntry> = Vec::new();
        let mut i: usize = 0;
        while i < MAX_ENTRIES
            invariant
                i <= MAX_ENTRIES,
                entries@.len() == i,
                forall|k: int| 0 <= k < i ==> #[trigger] entries@[k] == FileEntry::spec_empty(),
                forall|k: int| 0 <= k < i ==> !(#[trigger] entries@[k]).spec_in_use(),
            decreases MAX_ENTRIES - i,
        {
            entries.push(FileEntry::empty());
            i += 1;
        }
        FileTable { entries, file_table_lba, block_size, dirty: false }
    }

    /// Serialize one entry, appending 96 bytes to `out`.
    fn encode_entry(out: &mut Vec<u8>, e: &FileEntry)
        ensures
            final(out)@ == old(out)@ + entry_bytes(*e),
    {
        let mut i: usize = 0;
        while i < 64
            invariant
                i <= 64,
                out@ == old(out)@ + e.name@.subrange(0, i as int),
            decreases 64 - i,
        {
            let b = e.name[i];
            out.push(b);
            proof {
                assert(out@ =~= old(out)@ + e.name@.subrange(0, i + 1));
            }
            i += 1;
        }
        proof {
            assert(e.name@.subrange(0, 64) =~= e.name@);
        }
        put_u64(out, e.start_block);
        put_u64(out, e.block_count);
        put_u64(out, e.byte_length);
        put_u32(out, e.flags);
        put_u32(out, e.reserved);
        proof {
            assert(final(out)@ =~= old(out)@ + entry_bytes(*e));
        }
    }

    /// Flush the file table to the device if dirty: the entries are packed
    /// into one zero-padded block and written at the table's LBA.
    pub fn flush<D: BlockDevice>(&mut self, dev: &mut D) -> (r: Result<(), NvmeError>)
        requires
            old(self).wf(),
            old(dev).inv(),
            old(self).spec_block_size() == old(dev).spec_block_size(),
            old(self).spec_file_table_lba() < old(dev).spec_total_blocks(),
            4032 <= old(self).spec_block_size(),
        ensures
            final(self).entries() == old(self).entries(),
            final(self).spec_file_table_lba() == old(self).spec_file_table_lba(),
            final(self).spec_block_size() == old(self).spec_block_size(),
            final(self).wf(),
            final(dev).inv(),
            final(dev).spec_block_size() == old(dev).spec_block_size(),
            final(dev).spec_total_blocks() == old(dev).spec_total_blocks(),
            final(dev).bytes().len() == old(dev).bytes().len(),
            ({
                let lo = old(self).spec_file_table_lba() as int * old(self).spec_block_size();
                let hi = lo + old(self).spec_block_size();
                forall|i: int|
                    0 <= i < final(dev).bytes().len() && !(lo <= i < hi) ==> final(dev).bytes()[i]
                        == old(dev).bytes()[i]
            }),
            !old(self).spec_dirty() ==> final(dev).bytes() == old(dev).bytes() && r is Ok,
            match r {
                Ok(_) => {
                    &&& !final(self).spec_dirty()
                    &&& old(self).spec_dirty() ==> forall|i: int|
                        0 <= i < MAX_ENTRIES ==> entry_slot(
                            final(dev).bytes(),
                            old(self).spec_file_table_lba() as int * old(self).spec_block_size(),
                            i,
                        ) == entry_bytes(#[trigger] old(self).entries()[i])
                },
                Err(_) => final(self).spec_dirty() == old(self).spec_dirty(),
            },
    {
        if !self.dirty {
            return Ok(());
        }
        proof {
            dev.lemma_geometry();
        }
        let bs32 = self.block_size;
        let ghost gbs = bs32 as int;
        let ghost lo = self.file_table_lba as int * gbs;

        let mut blockv: Vec<u8> = Vec::new();
        let mut i: usize = 0;
        while i < MAX_ENTRIES
            invariant
                self.wf(),
                i <= MAX_ENTRIES,
                blockv@.len() == 96 * i,
                forall|j: int|
                    0 <= j < i ==> #[trigger] entry_slot(blockv@, 0, j) == entry_bytes(
                        self.entries()[j],
                    ),
            decreases MAX_ENTRIES - i,
        {
            let ghost prev = blockv@;
            let e = self.entries[i];
            FileTable::encode_entry(&mut blockv, &e);
            proof {
                assert forall|j: int| 0 <= j < i + 1 implies #[trigger] entry_slot(blockv@, 0, j)
                    == entry_bytes(self.entries()[j]) by {
                    if j < i {
                        assert(entry_slot(blockv@, 0, j) =~= entry_slot(prev, 0, j));
                    } else {
                        assert(entry_slot(blockv@, 0, j) =~= entry_bytes(self.entries()[j]));
                    }
                }
            }
            i += 1;
        }
        while blockv.len() < bs32 as usize
            invariant
                self.wf(),
                4032 <= blockv@.len() <= bs32 as int,
                forall|j: int|
                    0 <= j < MAX_ENTRIES ==> #[trigger] entry_slot(blockv@, 0, j) == entry_bytes(
                        self.entries()[j],
                    ),
            decreases bs32 as int - blockv@.len(),
        {
            let ghost prev = blockv@;
            blockv.push(0u8);
            proof {
                assert forall|j: int| 0 <= j < MAX_ENTRIES implies #[trigger] entry_slot(
                    blockv@,
                    0,
                    j,
                ) == entry_bytes(self.entries()[j]) by {
                    assert(entry_slot(blockv@, 0, j) =~= entry_slot(prev, 0, j));
                }
            }
        }

        let mut buf = match DmaBuf::allocate(bs32 as usize) {
            Ok(b) => b,
            Err(_) => {
                return Err(NvmeError::OutOfMemory);
            },
        };
        buf.write_at(0, blockv.as_slice());
        proof {
            assert(buf@ =~= blockv@);
            let ft = self.file_table_lba as int;
            assert(ft * gbs + gbs == (ft + 1) * gbs) by (nonlinear_arith);
            assert((ft + 1) * gbs <= dev.spec_total_blocks() * gbs) by (nonlinear_arith)
                requires
                    ft + 1 <= dev.spec_total_blocks(),
                    gbs >= 0,
            ;
            assert(ft * gbs >= 0) by (nonlinear_arith)
                requires
                    ft >= 0,
                    gbs >= 0,
            ;
        }
        match dev.write_blocks(self.file_table_lba, 1, &buf) {
            Ok(_) => (),
            Err(e) => {
                return Err(e);
            },
        }
        self.dirty = false;
        proof {
            assert forall|j: int| 0 <= j < MAX_ENTRIES implies entry_slot(dev.bytes(), lo, j)
                == entry_bytes(#[trigger] old(self).entries()[j]) by {
                assert(96 * j + 96 <= 4032);
                assert(entry_slot(dev.bytes(), lo, j) =~= entry_slot(blockv@, 0, j));
            }
        }
        Ok(())
    }

    /// Load the file table from the device block at `file_table_lba`.
    pub fn load<D: BlockDevice>(dev: &mut D, file_table_lba: u64, block_size: u32) -> (r: Result<
        Self,
        NvmeError,
    >)
        requires
            old(dev).inv(),
            block_size == old(dev).spec_block_size(),
            file_table_lba < old(dev).spec_total_blocks(),
            4032 <= block_size,
        ensures
            final(dev).inv(),
            final(dev).bytes() == old(dev).bytes(),
            final(dev).spec_block_size() == old(dev).spec_block_size(),
            final(dev).spec_total_blocks() == old(dev).spec_total_blocks(),
            match r {
                Ok(t) => {
                    &&& t.wf()
                    &&& t.spec_file_table_lba() == file_table_lba
                    &&& t.spec_block_size() == block_size
                    &&& !t.spec_dirty()
                    &&& forall|i: int|
                        0 <= i < MAX_ENTRIES ==> entry_matches(
                            #[trigger] t.entries()[i],
                            entry_slot(
                                old(dev).bytes(),
                                file_table_lba as int * block_size,
                                i,
                            ),
                        )
                },
                Err(_) => true,
            },
    {
        proof {
            dev.lemma_geometry();
        }
        let ghost gbs = block_size as int;
        let ghost lo = file_table_lba as int * gbs;
        let mut buf = match DmaBuf::allocate(block_size as usize) {
            Ok(b) => b,
            Err(_) => {
                return Err(NvmeError::OutOfMemory);
            },
        };
        proof {
            let ft = file_table_lba as int;
            assert(ft * gbs + gbs == (ft + 1) * gbs) by (nonlinear_arith);
            assert((ft + 1) * gbs <= dev.spec_total_blocks() * gbs) by (nonlinear_arith)
                requires
                    ft + 1 <= dev.spec_total_blocks(),
                    gbs >= 0,
            ;
            assert(ft * gbs >= 0) by (nonlinear_arith)
                requires
                    ft >= 0,
                    gbs >= 0,
            ;
        }
        match dev.read_blocks(file_table_lba, 1, &mut buf) {
            Ok(_) => (),
            Err(e) => {
                return Err(e);
            },
        }

        let mut entries: Vec<FileEntry> = Vec::new();
        let mut i: usize = 0;
        while i < MAX_ENTRIES
            invariant
                i <= MAX_ENTRIES,
                entries@.len() == i,
                buf@.len() == gbs,
                4032 <= gbs,
                buf@ == dev.bytes().subrange(lo, lo + gbs),
                0 <= lo,
                lo + gbs <= dev.bytes().len(),
                forall|j: int|
                    0 <= j < i ==> entry_matches(
                        #[trigger] entries@[j],
                        entry_slot(dev.bytes(), lo, j),
                    ),
            decreases MAX_ENTRIES - i,
        {
            let off: usize = 96 * i;
            let mut name = [0u8; 64];
            let mut n: usize = 0;
            while n < 64
                invariant
                    n <= 64,
                    off == 96 * i,
                    i < MAX_ENTRIES,
                    buf@.len() == gbs,
                    4032 <= gbs,
                    forall|x: int| 0 <= x < n ==> name@[x] == buf@[off + x],
                decreases 64 - n,
            {
                let b = buf.byte(off + n);
                name[n] = b;
                n += 1;
            }
            let e = FileEntry {
                name,
                start_block: get_u64(buf.as_slice(), off + 64),
                block_count: get_u64(buf.as_slice(), off + 72),
                byte_length: get_u64(buf.as_slice(), off + 80),
                flags: get_u32(buf.as_slice(), off + 88),
                reserved: get_u32(buf.as_slice(), off + 92),
            };
            proof {
                let slot = entry_slot(dev.bytes(), lo, i as int);
                assert(slot.len() == 96);
                assert forall|x: int| 0 <= x < 96 implies slot[x] == buf@[off + x] by {
                    assert(slot[x] == dev.bytes()[lo + 96 * (i as int) + x]);
                    assert(buf@[off + x] == dev.bytes()[lo + (off + x)]);
                }
                assert(e.name@ =~= slot.subrange(0, 64));
                assert(buf@.subrange(off + 64, off + 72) =~= slot.subrange(64, 72));
                assert(buf@.subrange(off + 72, off + 80) =~= slot.subrange(72, 80));
                assert(buf@.subrange(off + 80, off + 88) =~= slot.subrange(80, 88));
                assert(buf@.subrange(off + 88, off + 92) =~= slot.subrange(88, 92));
                assert(buf@.subrange(off + 92, off + 96) =~= slot.subrange(92, 96));
            }
            entries.push(e);
            i += 1;
        }
        Ok(FileTable { entries, file_table_lba, block_size, dirty: false })
    }

    /// Look up a file by name: the first in-use entry whose name matches.
    pub fn lookup(&self, name: &[u8]) -> (r: Option<(usize, &FileEntry)>)
        requires
            self.wf(),
        ensures
            match r {
                Some((i, e)) => {
                    &&& i < MAX_ENTRIES
                    &&& *e == self.entries()[i as int]
                    &&& e.spec_in_use()
                    &&& e.spec_name() == name@
                    &&& !self.has_name_below(name@, i as int)
                },
                None => !self.has_name(name@),
            },
    {
        let mut i: usize = 0;
        while i < MAX_ENTRIES
            invariant
                self.wf(),
                i <= MAX_ENTRIES,
                !self.has_name_below(name@, i as int),
            decreases MAX_ENTRIES - i,
        {
            let e = &self.entries[i];
            if e.is_in_use() && e.name_matches(name) {
                return Some((i, e));
            }
            i += 1;
        }
        None
    }

    /// The index of the first in-use entry whose name matches, if any.
    pub fn lookup_index(&self, name: &[u8]) -> (r: Option<usize>)
        requires
            self.wf(),
        ensures
            match r {
                Some(i) => {
                    &&& i < MAX_ENTRIES
                    &&& self.entries()[i as int].spec_in_use()
                    &&& self.entries()[i as int].spec_name() == name@
                    &&& !self.has_name_below(name@, i as int)
                },
                None => !self.has_name(name@),
            },
    {
        match self.lookup(name) {
            Some((i, _)) => Some(i),
            None => None,
        }
    }

    /// Look up a file by name, returning a mutable reference to the entry.
    pub fn lookup_mut(&mut self, name: &[u8]) -> (r: Option<(usize, &mut FileEntry)>)
        requires
            old(self).wf(),
        ensures
            match r {
                Some((i, e)) => {
                    &&& i < MAX_ENTRIES
                    &&& *e == old(self).entries()[i as int]
                    &&& e.spec_in_use()
                    &&& e.spec_name() == name@
                    &&& !old(self).has_name_below(name@, i as int)
                    &&& final(self).entries() == old(self).entries().update(
                        i as int,
                        *final(e),
                    )
                    &&& final(self).spec_file_table_lba() == old(self).spec_file_table_lba()
                    &&& final(self).spec_block_size() == old(self).spec_block_size()
                    &&& final(self).spec_dirty() == old(self).spec_dirty()
                    &&& final(self).wf()
                },
                None => {
                    &&& !old(self).has_name(name@)
                    &&& *final(self) == *old(self)
                },
            },
    {
        let idx = self.lookup_index(name);
        match idx {
            Some(i) => {
                let e = &mut self.entries[i];
                Some((i, e))
            },
            None => None,
        }
    }

    /// Create a new file entry in the first free slot. Returns the index,
    /// or `None` when the table is full. The new entry starts with a zero
    /// byte length and the in-use bit set.
    pub fn create(&mut self, name: &[u8], start_block: u64, block_count: u64) -> (r: Option<usize>)
        requires
            old(self).wf(),
        ensures
            final(self).wf(),
            final(self).spec_file_table_lba() == old(self).spec_file_table_lba(),
            final(self).spec_block_size() == old(self).spec_block_size(),
            match r {
                Some(slot) => {
                    &&& slot < MAX_ENTRIES
                    &&& !old(self).entries()[slot as int].spec_in_use()
                    &&& forall|k: int|
                        0 <= k < slot ==> (#[trigger] old(self).entries()[k]).spec_in_use()
                    &&& final(self).entries() == old(self).entries().update(
                        slot as int,
                        final(self).entries()[slot as int],
                    )
                    &&& final(self).entries()[slot as int].spec_in_use()
                    &&& final(self).entries()[slot as int].start_block == start_block
                    &&& final(self).entries()[slot as int].block_count == block_count
                    &&& final(self).entries()[slot as int].byte_length == 0
                    &&& (name@.len() < MAX_NAME_LEN && (forall|k: int|
                        0 <= k < name@.len() ==> name@[k] != 0)) ==> final(self).entries()[
                        slot as int].spec_name() == name@
                    &&& final(self).spec_dirty()
                },
                None => {
                    &&& *final(self) == *old(self)
                    &&& forall|k: int|
                        0 <= k < MAX_ENTRIES ==> (#[trigger] old(
                            self,
                        ).entries()[k]).spec_in_use()
                },
            },
    {
        let mut slot: usize = 0;
        let mut found = false;
        while slot < MAX_ENTRIES && !found
            invariant
                self.wf(),
                slot <= MAX_ENTRIES,
                !found ==> forall|k: int|
                    0 <= k < slot ==> (#[trigger] self.entries()[k]).spec_in_use(),
                found ==> slot < MAX_ENTRIES && !self.entries()[slot as int].spec_in_use()
                    && forall|k: int|
                    0 <= k < slot ==> (#[trigger] self.entries()[k]).spec_in_use(),
            decreases MAX_ENTRIES - slot, if found { 0int } else { 1int },
        {
            if !self.entries[slot].is_in_use() {
                found = true;
            } else {
                slot += 1;
            }
        }
        if !found {
            return None;
        }

        let mut entry = FileEntry::empty();
        entry.set_name(name);
        entry.start_block = start_block;
        entry.block_count = block_count;
        entry.byte_length = 0;
        entry.set_in_use(true);
        self.entries[slot] = entry;
        self.dirty = true;
        proof {
            if name@.len() < MAX_NAME_LEN && (forall|k: int|
                0 <= k < name@.len() ==> name@[k] != 0) {
                let n = name@.len() as int;
                assert forall|k: int| 0 <= k < n implies entry.name@[k] != 0 by {
                    assert(entry.name@[k] == name@[k]);
                }
                lemma_first_zero(entry.name@, 0, n);
                assert(entry.spec_name() =~= name@);
            }
            assert(final(self).entries() =~= old(self).entries().update(
                slot as int,
                final(self).entries()[slot as int],
            ));
        }
        Some(slot)
    }

    /// Delete a file entry by index. Returns the old entry, or `None` when
    /// the index holds no in-use entry.
    pub fn delete(&mut self, index: usize) -> (r: Option<FileEntry>)
        requires
            old(self).wf(),
        ensures
            final(self).wf(),
            final(self).spec_file_table_lba() == old(self).spec_file_table_lba(),
            final(self).spec_block_size() == old(self).spec_block_size(),
            match r {
                Some(e) => {
                    &&& index < MAX_ENTRIES
                    &&& e == old(self).entries()[index as int]
                    &&& e.spec_in_use()
                    &&& final(self).entries() == old(self).entries().update(
                        index as int,
                        FileEntry::spec_empty(),
                    )
                    &&& final(self).spec_dirty()
                },
                None => {
                    &&& *final(self) == *old(self)
                    &&& (index < MAX_ENTRIES ==> !old(self).entries()[
                        index as int].spec_in_use())
                },
            },
    {
        if index >= MAX_ENTRIES || !self.entries[index].is_in_use() {
            return None;
        }
        let entry = self.entries[index];
        self.entries[index] = FileEntry::empty();
        self.dirty = true;
        Some(entry)
    }

    /// A reference to the in-use entry at `index`, if any.
    pub fn get(&self, index: usize) -> (r: Option<&FileEntry>)
        requires
            self.wf(),
        ensures
            match r {
                Some(e) => {
                    &&& index < MAX_ENTRIES
                    &&& *e == self.entries()[index as int]
                    &&& e.spec_in_use()
                },
                None => index >= MAX_ENTRIES || !self.entries()[index as int].spec_in_use(),
            },
    {
        if index < MAX_ENTRIES && self.entries[index].is_in_use() {
            Some(&self.entries[index])
        } else {
            None
        }
    }

    /// A mutable reference to the in-use entry at `index`, if any. The
    /// table is marked dirty.
    pub fn get_mut(&mut self, index: usize) -> (r: Option<&mut FileEntry>)
        requires
            old(self).wf(),
        ensures
            match r {
                Some(e) => {
                    &&& index < MAX_ENTRIES
                    &&& *e == old(self).entries()[index as int]
                    &&& e.spec_in_use()
                    &&& final(self).entries() == old(self).entries().update(
                        index as int,
                        *final(e),
                    )
                    &&& final(self).spec_file_table_lba() == old(self).spec_file_table_lba()
                    &&& final(self).spec_block_size() == old(self).spec_block_size()
                    &&& final(self).spec_dirty()
                    &&& final(self).wf()
                },
                None => {
                    &&& *final(self) == *old(self)
                    &&& (index < MAX_ENTRIES ==> !old(self).entries()[
                        index as int].spec_in_use())
                },
            },
    {
        if index < MAX_ENTRIES && self.entries[index].is_in_use() {
            self.dirty = true;
            let e = &mut self.entries[index];
            Some(e)
        } else {
            None
        }
    }

    /// Mark the table dirty, for example after changing an entry's byte
    /// length through `get_mut`.
    pub fn mark_dirty(&mut self)
        ensures
            final(self).entries() == old(self).entries(),
            final(self).spec_file_table_lba() == old(self).spec_file_table_lba(),
            final(self).spec_block_size() == old(self).spec_block_size(),
            final(self).spec_dirty(),
    {
        self.dirty = true;
    }
}

} // verus!

//! On-device block allocator.
//!
//! Layout on the device:
//! - LBA 0: superblock (magic, version, geometry),
//! - LBA `1 .. 1+M`: free bitmap, one bit per data block (0 = free, 1 = used),
//! - one file-table block after the bitmap,
//! - data blocks from `data_start_lba` on.
//!
//! The bitmap is cached in RAM and flushed on sync. The in-RAM free counter
//! always equals the number of clear bits over the valid range.

use vstd::prelude::*;

use crate::dma::DmaBuf;
use crate::nvme_command::NvmeError;
use crate::bits::{
    bitmap_view, count_free, lemma_count_free_bounds, lemma_count_free_update,
    lemma_run_free_count, lemma_word_clear, lemma_word_set, with_run, word_bit, word_get,
};
use crate::block_device::BlockDevice;
use crate::bytes::{get_u32, get_u64, lemma_u32_le_round_trip, lemma_u64_le_round_trip, put_u32,
    put_u64, u32_from_le, u32_le, u64_from_le, u64_le};

verus! {

/// Superblock magic: the bytes "HVNOS\x01" followed by two zero bytes,
/// read as a little-endian `u64`.
pub const SUPERBLOCK_MAGIC: u64 = 0x0000_0153_4F4E_5648;

/// Superblock version.
pub const SUPERBLOCK_VERSION: u32 = 1;

/// On-device superblock at LBA 0: 72 bytes of fields, zero-padded to the
/// block size.
#[derive(Clone, Copy, PartialEq, Eq, Structural, Debug)]
pub struct Superblock {
    pub magic: u64,
    pub version: u32,
    /// Bytes per block (from the device, typically 4096).
    pub block_size: u32,
    /// Total blocks on the namespace.
    pub total_blocks: u64,
    /// First LBA of the bitmap region.
    pub bitmap_start_lba: u64,
    /// Blocks occupied by the bitmap.
    pub bitmap_block_count: u64,
    pub file_table_start_lba: u64,
    pub file_table_block_count: u64,
    /// First usable data LBA.
    pub data_start_lba: u64,
    /// Number of data blocks.
    pub data_block_count: u64,
}

/// The 72 field bytes of a superblock, in device order.
pub open spec fn sb_bytes(sb: Superblock) -> Seq<u8> {
    u64_le(sb.magic) + u32_le(sb.version) + u32_le(sb.block_size) + u64_le(sb.total_blocks)
        + u64_le(sb.bitmap_start_lba) + u64_le(sb.bitmap_block_count) + u64_le(
        sb.file_table_start_lba,
    ) + u64_le(sb.file_table_block_count) + u64_le(sb.data_start_lba) + u64_le(sb.data_block_count)
}

/// The superblock whose fields are read from the first 72 bytes of `b`.
pub open spec fn sb_decode(b: Seq<u8>) -> Superblock {
    Superblock {
        magic: u64_from_le(b.subrange(0, 8)),
        version: u32_from_le(b.subrange(8, 12)),
        block_size: u32_from_le(b.subrange(12, 16)),
        total_blocks: u64_from_le(b.subrange(16, 24)),
        bitmap_start_lba: u64_from_le(b.subrange(24, 32)),
        bitmap_block_count: u64_from_le(b.subrange(32, 40)),
        file_table_start_lba: u64_from_le(b.subrange(40, 48)),
        file_table_block_count: u64_from_le(b.subrange(48, 56)),
        data_start_lba: u64_from_le(b.subrange(56, 64)),
        data_block_count: u64_from_le(b.subrange(64, 72)),
    }
}

/// The eight bytes of word slot `j` of `s`.
pub open spec fn word_slot(s: Seq<u8>, j: int) -> Seq<u8> {
    s.subrange(8 * j, 8 * j + 8)
}

/// Bitmap word `k` as stored little-endian at byte offset `base`.
pub open spec fn stored_word(bytes: Seq<u8>, base: int, k: int) -> u64 {
    u64_from_le(bytes.subrange(base + 8 * k, base + 8 * k + 8))
}

/// Decoding the encoded fields gives the superblock back.
pub proof fn lemma_sb_round_trip(sb: Superblock, b: Seq<u8>)
    requires
        b.len() >= 72,
        b.subrange(0, 72) == sb_bytes(sb),
    ensures
        sb_decode(b) == sb,
{
    assert(b.subrange(0, 8) =~= sb_bytes(sb).subrange(0, 8));
    assert(b.subrange(8, 12) =~= sb_bytes(sb).subrange(8, 12));
    assert(b.subrange(12, 16) =~= sb_bytes(sb).subrange(12, 16));
    assert(b.subrange(16, 24) =~= sb_bytes(sb).subrange(16, 24));
    assert(b.subrange(24, 32) =~= sb_bytes(sb).subrange(24, 32));
    assert(b.subrange(32, 40) =~= sb_bytes(sb).subrange(32, 40));
    assert(b.subrange(40, 48) =~= sb_bytes(sb).subrange(40, 48));
    assert(b.subrange(48, 56) =~= sb_bytes(sb).subrange(48, 56));
    assert(b.subrange(56, 64) =~= sb_bytes(sb).subrange(56, 64));
    assert(b.subrange(64, 72) =~= sb_bytes(sb).subrange(64, 72));
    assert(sb_bytes(sb).subrange(0, 8) =~= u64_le(sb.magic));
    assert(sb_bytes(sb).subrange(8, 12) =~= u32_le(sb.version));
    assert(sb_bytes(sb).subrange(12, 16) =~= u32_le(sb.block_size));
    assert(sb_bytes(sb).subrange(16, 24) =~= u64_le(sb.total_blocks));
    assert(sb_bytes(sb).subrange(24, 32) =~= u64_le(sb.bitmap_start_lba));
    assert(sb_bytes(sb).subrange(32, 40) =~= u64_le(sb.bitmap_block_count));
    assert(sb_bytes(sb).subrange(40, 48) =~= u64_le(sb.file_table_start_lba));
    assert(sb_bytes(sb).subrange(48, 56) =~= u64_le(sb.file_table_block_count));
    assert(sb_bytes(sb).subrange(56, 64) =~= u64_le(sb.data_start_lba));
    assert(sb_bytes(sb).subrange(64, 72) =~= u64_le(sb.data_block_count));
    lemma_u64_le_round_trip(sb.magic);
    lemma_u32_le_round_trip(sb.version);
    lemma_u32_le_round_trip(sb.block_size);
    lemma_u64_le_round_trip(sb.total_blocks);
    lemma_u64_le_round_trip(sb.bitmap_start_lba);
    lemma_u64_le_round_trip(sb.bitmap_block_count);
    lemma_u64_le_round_trip(sb.file_table_start_lba);
    lemma_u64_le_round_trip(sb.file_table_block_count);
    lemma_u64_le_round_trip(sb.data_start_lba);
    lemma_u64_le_round_trip(sb.data_block_count);
}

impl Superblock {
    /// Whether this superblock has valid magic and version.
    pub fn is_valid(&self) -> (r: bool)
        ensures
            r == (self.magic == SUPERBLOCK_MAGIC && self.version == SUPERBLOCK_VERSION),
    {
        self.magic == SUPERBLOCK_MAGIC && self.version == SUPERBLOCK_VERSION
    }

    /// Serialize into a zero-padded block of `block_size` bytes.
    pub fn encode_block(&self, block_size: usize) -> (r: Vec<u8>)
        requires
            block_size >= 72,
        ensures
            r@.len() == block_size,
            r@.subrange(0, 72) == sb_bytes(*self),
            forall|i: int| 72 <= i < block_size ==> r@[i] == 0u8,
    {
        let mut v: Vec<u8> = Vec::new();
        put_u64(&mut v, self.magic);
        put_u32(&mut v, self.version);
        put_u32(&mut v, self.block_size);
        put_u64(&mut v, self.total_blocks);
        put_u64(&mut v, self.bitmap_start_lba);
        put_u64(&mut v, self.bitmap_block_count);
        put_u64(&mut v, self.file_table_start_lba);
        put_u64(&mut v, self.file_table_block_count);
        put_u64(&mut v, self.data_start_lba);
        put_u64(&mut v, self.data_block_count);
        proof {
            assert(v@ =~= sb_bytes(*self));
        }
        while v.len() < block_size
            invariant
                72 <= v@.len() <= block_size,
                v@.subrange(0, 72) == sb_bytes(*self),
                forall|i: int| 72 <= i < v@.len() ==> v@[i] == 0u8,
            decreases block_size - v@.len(),
        {
            v.push(0u8);
            proof {
                assert(v@.subrange(0, 72) =~= sb_bytes(*self));
            }
        }
        proof {
            assert(v@.subrange(0, 72) =~= sb_bytes(*self));
        }
        v
    }

    /// Decode the superblock fields from the front of `data`.
    pub fn decode(data: &[u8]) -> (r: Superblock)
        requires
            data@.len() >= 72,
        ensures
            r == sb_decode(data@),
    {
        Superblock {
            magic: get_u64(data, 0),
            version: get_u32(data, 8),
            block_size: get_u32(data, 12),
            total_blocks: get_u64(data, 16),
            bitmap_start_lba: get_u64(data, 24),
            bitmap_block_count: get_u64(data, 32),
            file_table_start_lba: get_u64(data, 40),
            file_table_block_count: get_u64(data, 48),
            data_start_lba: get_u64(data, 56),
            data_block_count: get_u64(data, 64),
        }
    }
}

/// Block allocation errors.
#[derive(Clone, Copy, PartialEq, Eq, Structural, Debug)]
pub enum AllocError {
    OutOfSpace,
    InvalidSize,
    Fragmented,
}

/// In-memory block allocator, backed by the on-device bitmap.
pub struct BlockAllocator {
    bitmap: Vec<u64>,
    data_block_count: u64,
    data_start_lba: u64,
    bitmap_start_lba: u64,
    bitmap_on_disk_blocks: u64,
    block_size: u32,
    free_count: u64,
    dirty: bool,
}

impl BlockAllocator {
    /// The in-RAM bitmap words, little-endian on the device.
    pub closed spec fn words(self) -> Seq<u64> {
        self.bitmap@
    }

    /// One boolean per data block: `true` = block in use.
    pub open spec fn bits(self) -> Seq<bool> {
        bitmap_view(self.words(), self.spec_data_block_count() as int)
    }

    /// The boolean view is the word view read bit by bit.
    pub proof fn lemma_bits_words(self)
        ensures
            self.bits() == bitmap_view(self.words(), self.spec_data_block_count() as int),
    {
    }

    pub closed spec fn spec_data_block_count(self) -> u64 {
        self.data_block_count
    }

    pub closed spec fn spec_data_start_lba(self) -> u64 {
        self.data_start_lba
    }

    pub closed spec fn spec_bitmap_start_lba(self) -> u64 {
        self.bitmap_start_lba
    }

    pub closed spec fn spec_bitmap_on_disk_blocks(self) -> u64 {
        self.bitmap_on_disk_blocks
    }

    pub closed spec fn spec_block_size(self) -> u32 {
        self.block_size
    }

    pub closed spec fn spec_free_count(self) -> u64 {
        self.free_count
    }

    pub closed spec fn spec_dirty(self) -> bool {
        self.dirty
    }

    /// Well-formedness: the bitmap covers exactly the data blocks and the
    /// free counter equals the number of clear bits over the valid range.
    pub closed spec fn wf(self) -> bool {
        &&& self.bitmap@.len() == (self.data_block_count + 63) / 64
        &&& self.data_block_count <= 0x1000_0000
        &&& self.free_count == count_free(self.bits(), self.data_block_count as int)
    }

    /// All blocks of `[s, s + c)` are free.
    pub open spec fn run_free(self, s: int, c: int) -> bool {
        forall|j: int| s <= j < s + c ==> !(#[trigger] self.bits()[j])
    }

    /// The allocator's geometry, shared by every operation that leaves the
    /// bitmap configuration untouched.
    pub open spec fn same_geometry(self, other: Self) -> bool {
        &&& self.spec_data_block_count() == other.spec_data_block_count()
        &&& self.spec_data_start_lba() == other.spec_data_start_lba()
        &&& self.spec_bitmap_start_lba() == other.spec_bitmap_start_lba()
        &&& self.spec_bitmap_on_disk_blocks() == other.spec_bitmap_on_disk_blocks()
        &&& self.spec_block_size() == other.spec_block_size()
    }

    /// Bitmap consistency: under every sequence of allocations and frees
    /// the free counter equals the number of clear bits over the valid
    /// range — every operation requires and re-establishes `wf`, and this
    /// is what `wf` holds.
    pub proof fn lemma_free_count_is_clear_bits(self)
        requires
            self.wf(),
        ensures
            self.spec_free_count() == count_free(self.bits(), self.spec_data_block_count() as int),
    {
    }

    /// Bounds that every well-formed allocator obeys.
    pub proof fn lemma_wf_bounds(self)
        requires
            self.wf(),
        ensures
            self.spec_data_block_count() <= 0x1000_0000,
            self.spec_free_count() <= self.spec_data_block_count(),
            self.words().len() == (self.spec_data_block_count() + 63) / 64,
            self.bits().len() == self.spec_data_block_count(),
    {
        lemma_count_free_bounds(self.bits(), self.data_block_count as int);
    }

    /// Create an uninitialized allocator. Call `load`, `format`, or
    /// `init_for_test` before use.
    pub fn new() -> (r: Self)
        ensures
            r.wf(),
            r.spec_data_block_count() == 0,
            r.spec_free_count() == 0,
            !r.spec_dirty(),
    {
        BlockAllocator {
            bitmap: Vec::new(),
            data_block_count: 0,
            data_start_lba: 0,
            bitmap_start_lba: 0,
            bitmap_on_disk_blocks: 0,
            block_size: 4096,
            free_count: 0,
            dirty: false,
        }
    }

    /// Initialize an all-free allocator with the given geometry, without a
    /// device. Used by tests that exercise the pure bitmap logic.
    pub fn init_for_test(&mut self, data_block_count: u64, block_size: u32, data_start_lba: u64)
        requires
            data_block_count <= 0x1000_0000,
        ensures
            final(self).wf(),
            final(self).spec_data_block_count() == data_block_count,
            final(self).spec_data_start_lba() == data_start_lba,
            final(self).spec_block_size() == block_size,
            final(self).spec_free_count() == data_block_count,
            !final(self).spec_dirty(),
            forall|j: int| 0 <= j < data_block_count ==> !(#[trigger] final(self).bits()[j]),
    {
        *self = BlockAllocator::all_free(data_block_count, block_size, data_start_lba, 1, 0);
    }

    /// An all-free allocator with the given geometry.
    fn all_free(
        data_block_count: u64,
        block_size: u32,
        data_start_lba: u64,
        bitmap_start_lba: u64,
        bitmap_on_disk_blocks: u64,
    ) -> (r: Self)
        requires
            data_block_count <= 0x1000_0000,
        ensures
            r.wf(),
            r.spec_data_block_count() == data_block_count,
            r.spec_data_start_lba() == data_start_lba,
            r.spec_block_size() == block_size,
            r.spec_bitmap_start_lba() == bitmap_start_lba,
            r.spec_bitmap_on_disk_blocks() == bitmap_on_disk_blocks,
            r.spec_free_count() == data_block_count,
            !r.spec_dirty(),
            forall|j: int| 0 <= j < data_block_count ==> !(#[trigger] r.bits()[j]),
            forall|k: int| 0 <= k < r.words().len() ==> r.words()[k] == 0u64,
    {
        let words: usize = ((data_block_count + 63) / 64) as usize;
        let mut bitmap: Vec<u64> = Vec::new();
        let mut i: usize = 0;
        while i < words
            invariant
                i <= words,
                bitmap@.len() == i,
                forall|k: int| 0 <= k < i ==> bitmap@[k] == 0u64,
            decreases words - i,
        {
            bitmap.push(0u64);
            i += 1;
        }
        let r = BlockAllocator {
            bitmap,
            data_block_count,
            data_start_lba,
            bitmap_start_lba,
            bitmap_on_disk_blocks,
            block_size,
            free_count: data_block_count,
            dirty: false,
        };
        proof {
            let bits = r.bits();
            assert forall|j: int| 0 <= j < data_block_count implies !(#[trigger] bits[j]) by {
                crate::bits::lemma_word_zero((j % 64) as u64);
            }
            lemma_count_all_free(bits, data_block_count as int);
        }
        r
    }

    /// Format a blank device: write the superblock, a zeroed bitmap and a
    /// zeroed file table, then issue a flush. Returns the fresh all-free
    /// allocator.
    pub fn format<D: BlockDevice>(dev: &mut D, total_blocks: u64, block_size: u32) -> (r: Result<
        Self,
        NvmeError,
    >)
        requires
            old(dev).inv(),
            total_blocks == old(dev).spec_total_blocks(),
            block_size == old(dev).spec_block_size(),
            3 <= total_blocks <= 0x1000_0000,
            72 <= block_size,
            block_size % 8 == 0,
        ensures
            final(dev).inv(),
            final(dev).spec_total_blocks() == total_blocks,
            final(dev).spec_block_size() == block_size,
            match r {
                Ok(a) => ({
                    let bs = block_size as int;
                    let bits_per = 8 * bs;
                    let bm = (total_blocks - 2 + bits_per - 1) / bits_per;
                    let ds = 2 + bm;
                    let db = if total_blocks >= ds {
                        total_blocks - ds
                    } else {
                        0
                    };
                    &&& a.wf()
                    &&& a.spec_block_size() == block_size
                    &&& a.spec_bitmap_start_lba() == 1
                    &&& a.spec_bitmap_on_disk_blocks() == bm
                    &&& a.spec_data_start_lba() == ds
                    &&& a.spec_data_block_count() == db
                    &&& a.spec_free_count() == db
                    &&& !a.spec_dirty()
                    &&& forall|j: int| 0 <= j < db ==> !(#[trigger] a.bits()[j])
                    &&& final(dev).bytes().subrange(0, 72) == sb_bytes(
                        Superblock {
                            magic: SUPERBLOCK_MAGIC,
                            version: SUPERBLOCK_VERSION,
                            block_size,
                            total_blocks,
                            bitmap_start_lba: 1,
                            bitmap_block_count: bm as u64,
                            file_table_start_lba: (1 + bm) as u64,
                            file_table_block_count: 1,
                            data_start_lba: ds as u64,
                            data_block_count: db as u64,
                        },
                    )
                    &&& forall|i: int| 72 <= i < ds * bs ==> final(dev).bytes()[i] == 0u8
                    &&& forall|i: int|
                        ds * bs <= i < final(dev).bytes().len() ==> final(dev).bytes()[i]
                            == old(dev).bytes()[i]
                }),
                Err(_) => true,
            },
    {
        let bits_per: u64 = 8 * (block_size as u64);
        let approx_data = total_blocks - 2;
        let bitmap_blocks = (approx_data + bits_per - 1) / bits_per;
        proof {
            let a = approx_data as int;
            let b = bits_per as int;
            assert((a + b - 1) / b <= a) by (nonlinear_arith)
                requires
                    a >= 1,
                    b >= 2,
            ;
            assert((a + b - 1) / b >= 0) by (nonlinear_arith)
                requires
                    a >= 1,
                    b >= 2,
            ;
        }
        let data_start = 2 + bitmap_blocks;
        let data_blocks = if total_blocks >= data_start {
            total_blocks - data_start
        } else {
            0
        };

        let sb = Superblock {
            magic: SUPERBLOCK_MAGIC,
            version: SUPERBLOCK_VERSION,
            block_size,
            total_blocks,
            bitmap_start_lba: 1,
            bitmap_block_count: bitmap_blocks,
            file_table_start_lba: 1 + bitmap_blocks,
            file_table_block_count: 1,
            data_start_lba: data_start,
            data_block_count: data_blocks,
        };

        proof {
            dev.lemma_geometry();
        }
        let ghost orig_bytes = dev.bytes();
        let ghost bs = block_size as int;
        let ghost dslba = data_start as int;

        let block = sb.encode_block(block_size as usize);
        let mut buf = match DmaBuf::allocate(block_size as usize) {
            Ok(b) => b,
            Err(_) => {
                return Err(NvmeError::OutOfMemory);
            },
        };
        buf.write_at(0, block.as_slice());
        proof {
            assert(buf@ =~= block@);
        }
        match dev.write_blocks(0, 1, &buf) {
            Ok(_) => (),
            Err(e) => {
                return Err(e);
            },
        }
        proof {
            assert(total_blocks * bs >= 1 * bs) by (nonlinear_arith)
                requires
                    total_blocks >= 1,
                    bs >= 0,
            ;
            assert(dev.bytes().subrange(0, 72) =~= block@.subrange(0, 72));
            assert forall|k: int| 72 <= k < bs implies dev.bytes()[k] == 0u8 by {
                assert(dev.bytes()[k] == block@[k]);
            }
        }

        let zero_buf = match DmaBuf::allocate(block_size as usize) {
            Ok(b) => b,
            Err(_) => {
                return Err(NvmeError::OutOfMemory);
            },
        };

        let mut i: u64 = 0;
        while i < bitmap_blocks + 1
            invariant
                dev.inv(),
                dev.spec_total_blocks() == total_blocks,
                dev.spec_block_size() == block_size,
                bs == block_size as int,
                dslba == 2 + bitmap_blocks,
                3 <= total_blocks <= 0x1000_0000,
                72 <= block_size,
                bitmap_blocks + 2 <= total_blocks || data_blocks == 0,
                dslba <= total_blocks,
                i <= bitmap_blocks + 1,
                zero_buf@.len() == block_size,
                forall|k: int| 0 <= k < zero_buf@.len() ==> zero_buf@[k] == 0u8,
                dev.bytes().len() == total_blocks * bs,
                dev.bytes().subrange(0, 72) == sb_bytes(sb),
                forall|k: int| 72 <= k < bs ==> dev.bytes()[k] == 0u8,
                forall|k: int| bs <= k < (1 + i) * bs ==> dev.bytes()[k] == 0u8,
                forall|k: int|
                    (1 + i) * bs <= k < dev.bytes().len() ==> dev.bytes()[k] == orig_bytes[k],
            decreases bitmap_blocks + 1 - i,
        {
            let ghost pre_bytes = dev.bytes();
            proof {
                assert((1 + i) * bs >= 1 * bs) by (nonlinear_arith)
                    requires
                        i >= 0,
                        bs >= 0,
                ;
                assert((1 + i) * bs + bs == (2 + i) * bs) by (nonlinear_arith);
                assert((2 + i) * bs <= total_blocks * bs) by (nonlinear_arith)
                    requires
                        2 + i <= total_blocks,
                        bs >= 0,
                ;
                assert((1 + i) * bs >= 0) by (nonlinear_arith)
                    requires
                        i >= 0,
                        bs >= 0,
                ;
            }
            match dev.write_blocks(1 + i, 1, &zero_buf) {
                Ok(_) => (),
                Err(e) => {
                    return Err(e);
                },
            }
            proof {
                assert forall|k: int| bs <= k < (2 + i) * bs implies dev.bytes()[k] == 0u8 by {
                    if k < (1 + i) * bs {
                        assert(dev.bytes()[k] == pre_bytes[k]);
                    }
                }
                assert(dev.bytes().subrange(0, 72) =~= pre_bytes.subrange(0, 72));
            }
            i += 1;
        }

        match dev.flush() {
            Ok(_) => (),
            Err(e) => {
                return Err(e);
            },
        }

        let a = BlockAllocator::all_free(data_blocks, block_size, data_start, 1, bitmap_blocks);
        proof {
            assert((1 + (bitmap_blocks + 1) as int) * bs == dslba * bs);
        }
        Ok(a)
    }

    /// Load an existing allocator from a formatted device: verify the
    /// superblock, read the whole bitmap into RAM, and recompute the free
    /// counter from the stored bits.
    pub fn load<D: BlockDevice>(dev: &mut D) -> (r: Result<Self, NvmeError>)
        requires
            old(dev).inv(),
        ensures
            final(dev).inv(),
            final(dev).bytes() == old(dev).bytes(),
            final(dev).spec_block_size() == old(dev).spec_block_size(),
            final(dev).spec_total_blocks() == old(dev).spec_total_blocks(),
            // A superblock without the magic and version is never accepted.
            !(sb_decode(old(dev).bytes()).magic == SUPERBLOCK_MAGIC && sb_decode(
                old(dev).bytes(),
            ).version == SUPERBLOCK_VERSION) ==> r is Err,
            match r {
                Ok(a) => ({
                    let sb = sb_decode(old(dev).bytes());
                    &&& sb.magic == SUPERBLOCK_MAGIC
                    &&& sb.version == SUPERBLOCK_VERSION
                    &&& a.wf()
                    &&& a.spec_block_size() == old(dev).spec_block_size()
                    &&& a.spec_data_block_count() == sb.data_block_count
                    &&& a.spec_data_start_lba() == sb.data_start_lba
                    &&& a.spec_bitmap_start_lba() == sb.bitmap_start_lba
                    &&& a.spec_bitmap_on_disk_blocks() == sb.bitmap_block_count
                    &&& !a.spec_dirty()
                    &&& a.words().len() == (sb.data_block_count + 63) / 64
                    &&& forall|k: int|
                        0 <= k < a.words().len() ==> a.words()[k] == stored_word(
                            old(dev).bytes(),
                            sb.bitmap_start_lba * old(dev).spec_block_size(),
                            k,
                        )
                }),
                Err(_) => true,
            },
    {
        proof {
            dev.lemma_geometry();
        }
        let bs32 = dev.block_size();
        let total = dev.total_blocks();
        if total < 1 || bs32 < 72 || bs32 % 8 != 0 {
            return Err(NvmeError::MediaError);
        }
        let bs = bs32 as u64;
        let ghost gbs = bs as int;

        let mut buf = match DmaBuf::allocate(bs32 as usize) {
            Ok(b) => b,
            Err(_) => {
                return Err(NvmeError::OutOfMemory);
            },
        };
        proof {
            assert(1 * gbs == gbs);
            assert(total * gbs >= 1 * gbs) by (nonlinear_arith)
                requires
                    total >= 1,
                    gbs >= 0,
            ;
        }
        match dev.read_blocks(0, 1, &mut buf) {
            Ok(_) => (),
            Err(e) => {
                return Err(e);
            },
        }
        proof {
            assert(buf@.subrange(0, 72) =~= dev.bytes().subrange(0, 72));
            assert(buf@.subrange(0, 72).len() == 72);
        }
        let sb = Superblock::decode(buf.as_slice());
        proof {
            lemma_decode_prefix(buf@, dev.bytes());
        }
        if !sb.is_valid() {
            return Err(NvmeError::MediaError);
        }

        let db = sb.data_block_count;
        let bm = sb.bitmap_block_count;
        let bstart = sb.bitmap_start_lba;
        if db > 0x1000_0000 {
            return Err(NvmeError::MediaError);
        }
        let words: u64 = (db + 63) / 64;
        proof {
            assert(words <= 0x1000_0000);
        }
        let wpb: u64 = bs / 8;
        if bm > total || bstart > total - bm {
            return Err(NvmeError::MediaError);
        }
        let blocks_needed = (words + wpb - 1) / wpb;
        if blocks_needed > bm {
            return Err(NvmeError::MediaError);
        }
        proof {
            assert(8 * (wpb as int) == gbs);
            assert(words as int <= blocks_needed as int * wpb as int) by (nonlinear_arith)
                requires
                    blocks_needed == (words + wpb - 1) as int / wpb as int,
                    wpb >= 1,
                    words >= 0,
            ;
            assert(blocks_needed as int * wpb as int <= bm as int * wpb as int)
                by (nonlinear_arith)
                requires
                    blocks_needed <= bm,
                    wpb >= 0,
            ;
            assert(words * 8 <= bm * gbs) by (nonlinear_arith)
                requires
                    words as int <= bm as int * wpb as int,
                    8 * (wpb as int) == gbs,
                    bm >= 0,
            ;
        }

        let mut bitmap: Vec<u64> = Vec::new();
        let ghost base = bstart as int * gbs;
        let mut blk: u64 = 0;
        while blk < bm
            invariant
                dev.inv(),
                dev.bytes() == old(dev).bytes(),
                dev.spec_block_size() == old(dev).spec_block_size(),
                dev.spec_total_blocks() == old(dev).spec_total_blocks(),
                dev.spec_block_size() == bs32,
                dev.spec_total_blocks() == total,
                dev.bytes().len() == total * gbs,
                gbs == bs as int,
                bs == bs32 as u64,
                72 <= bs32,
                bs32 % 8 == 0,
                wpb == bs / 8,
                8 * (wpb as int) == gbs,
                base == bstart as int * gbs,
                bstart + bm <= total,
                words * 8 <= bm * gbs,
                words == (db + 63) / 64,
                db <= 0x1000_0000,
                blk <= bm,
                buf@.len() == bs32 as int,
                bitmap@.len() == vstd::math::min(blk as int * wpb as int, words as int),
                forall|k: int|
                    0 <= k < bitmap@.len() ==> bitmap@[k] == stored_word(dev.bytes(), base, k),
            decreases bm - blk,
        {
            proof {
                assert(bstart + blk + 1 <= total);
                assert((bstart + blk) * gbs + gbs == (bstart + blk + 1) * gbs) by (nonlinear_arith);
                assert((bstart + blk + 1) * gbs <= total * gbs) by (nonlinear_arith)
                    requires
                        bstart + blk + 1 <= total,
                        gbs >= 0,
                ;
                assert((bstart + blk) * gbs >= 0) by (nonlinear_arith)
                    requires
                        bstart + blk >= 0,
                        gbs >= 0,
                ;
            }
            match dev.read_blocks(bstart + blk, 1, &mut buf) {
                Ok(_) => (),
                Err(e) => {
                    return Err(e);
                },
            }
            let ghost blkbase = (bstart + blk) as int * gbs;
            let mut w: u64 = 0;
            while w < wpb && bitmap.len() < words as usize
                invariant
                    words <= 0x1000_0000,
                    w <= wpb,
                    wpb == bs / 8,
                    8 * (wpb as int) == gbs,
                    gbs == bs as int,
                    base == bstart as int * gbs,
                    blkbase == (bstart + blk) as int * gbs,
                    blk < bm,
                    words * 8 <= bm * gbs,
                    0 <= blkbase,
                    blkbase + gbs <= dev.bytes().len(),
                    buf@.len() == gbs,
                    buf@ == dev.bytes().subrange(blkbase, blkbase + gbs),
                    bitmap@.len() == vstd::math::min(blk as int * wpb as int + w, words as int),
                    forall|k: int|
                        0 <= k < bitmap@.len() ==> bitmap@[k] == stored_word(dev.bytes(), base, k),
                decreases wpb - w,
            {
                let ghost k = blk as int * wpb as int + w as int;
                proof {
                    assert(8 * k == blk as int * gbs + 8 * w as int) by (nonlinear_arith)
                        requires
                            k == blk as int * wpb as int + w as int,
                            8 * (wpb as int) == gbs,
                    ;
                    assert(base + 8 * k == blkbase + 8 * w as int) by (nonlinear_arith)
                        requires
                            base == bstart as int * gbs,
                            blkbase == (bstart + blk) as int * gbs,
                            8 * k == blk as int * gbs + 8 * w as int,
                    ;
                    assert(8 * w as int + 8 <= gbs) by (nonlinear_arith)
                        requires
                            w < wpb,
                            8 * (wpb as int) == gbs,
                    ;
                }
                let v = crate::bytes::get_u64(buf.as_slice(), (w * 8) as usize);
                proof {
                    let lo = 8 * w as int;
                    let sub = dev.bytes().subrange(blkbase, blkbase + gbs);
                    assert(sub[lo + 0] == dev.bytes()[blkbase + lo + 0]);
                    assert(sub[lo + 1] == dev.bytes()[blkbase + lo + 1]);
                    assert(sub[lo + 2] == dev.bytes()[blkbase + lo + 2]);
                    assert(sub[lo + 3] == dev.bytes()[blkbase + lo + 3]);
                    assert(sub[lo + 4] == dev.bytes()[blkbase + lo + 4]);
                    assert(sub[lo + 5] == dev.bytes()[blkbase + lo + 5]);
                    assert(sub[lo + 6] == dev.bytes()[blkbase + lo + 6]);
                    assert(sub[lo + 7] == dev.bytes()[blkbase + lo + 7]);
                    assert(buf@.subrange(lo, lo + 8) =~= dev.bytes().subrange(
                        base + 8 * k,
                        base + 8 * k + 8,
                    ));
                }
                bitmap.push(v);
                w += 1;
            }
            proof {
                assert((blk + 1) as int * wpb as int == blk as int * wpb as int + wpb as int)
                    by (nonlinear_arith);
                assert(blk as int * wpb as int >= 0) by (nonlinear_arith)
                    requires
                        blk >= 0,
                        wpb >= 0,
                ;
            }
            blk += 1;
        }
        proof {
            if bm * wpb < words {
                assert(bm as int * (wpb as int) * 8 == bm as int * gbs) by (nonlinear_arith)
                    requires
                        8 * (wpb as int) == gbs,
                ;
                assert(false);
            }
            assert(bitmap@.len() == words as int);
        }

        // Recompute the free counter from the loaded bits.
        let ghost bits = bitmap_view(bitmap@, db as int);
        let mut free: u64 = 0;
        let mut i: u64 = 0;
        while i < db
            invariant
                i <= db,
                db <= 0x1000_0000,
                bitmap@.len() == words as int,
                words == (db + 63) / 64,
                bits == bitmap_view(bitmap@, db as int),
                free == count_free(bits, i as int),
                free <= i,
            decreases db - i,
        {
            proof {
                lemma_word_index(i, bitmap@.len() as int, db as int);
            }
            let wv = bitmap[(i / 64) as usize];
            if !word_get(wv, i % 64) {
                free = free + 1;
            }
            i += 1;
        }

        Ok(
            BlockAllocator {
                bitmap,
                data_block_count: db,
                data_start_lba: sb.data_start_lba,
                bitmap_start_lba: bstart,
                bitmap_on_disk_blocks: bm,
                block_size: bs32,
                free_count: free,
                dirty: false,
            },
        )
    }

    /// Write the bitmap back to the device if it is dirty. A clean
    /// allocator issues no I/O.
    pub fn flush<D: BlockDevice>(&mut self, dev: &mut D) -> (r: Result<(), NvmeError>)
        requires
            old(self).wf(),
            old(dev).inv(),
            old(self).spec_block_size() == old(dev).spec_block_size(),
            old(self).spec_bitmap_start_lba() + old(self).spec_bitmap_on_disk_blocks() <= old(
                dev,
            ).spec_total_blocks(),
            old(self).words().len() * 8 <= old(self).spec_bitmap_on_disk_blocks() as int * old(
                self,
            ).spec_block_size(),
            old(self).spec_block_size() % 8 == 0,
            72 <= old(self).spec_block_size(),
        ensures
            final(self).same_geometry(*old(self)),
            final(self).bits() == old(self).bits(),
            final(self).words() == old(self).words(),
            final(self).spec_free_count() == old(self).spec_free_count(),
            final(self).wf(),
            final(dev).inv(),
            final(dev).spec_block_size() == old(dev).spec_block_size(),
            final(dev).spec_total_blocks() == old(dev).spec_total_blocks(),
            final(dev).bytes().len() == old(dev).bytes().len(),
            ({
                let lo = old(self).spec_bitmap_start_lba() as int * old(self).spec_block_size();
                let hi = (old(self).spec_bitmap_start_lba()
                    + old(self).spec_bitmap_on_disk_blocks()) as int * old(
                    self,
                ).spec_block_size();
                forall|i: int|
                    0 <= i < final(dev).bytes().len() && !(lo <= i < hi) ==> final(dev).bytes()[i]
                        == old(dev).bytes()[i]
            }),
            !old(self).spec_dirty() ==> final(dev).bytes() == old(dev).bytes() && r is Ok,
            match r {
                Ok(_) => {
                    &&& !final(self).spec_dirty()
                    &&& old(self).spec_dirty() ==> forall|k: int|
                        0 <= k < old(self).words().len() ==> stored_word(
                            final(dev).bytes(),
                            old(self).spec_bitmap_start_lba() as int * old(self).spec_block_size(),
                            k,
                        ) == old(self).words()[k]
                },
                Err(_) => final(self).spec_dirty() == old(self).spec_dirty(),
            },
    {
        if !self.dirty {
            return Ok(());
        }
        proof {
            dev.lemma_geometry();
        }
        let bs32 = self.block_size;
        let bs = bs32 as u64;
        let ghost gbs = bs as int;
        let wpb: u64 = bs / 8;
        let bstart = self.bitmap_start_lba;
        let bm = self.bitmap_on_disk_blocks;
        let nwords: usize = self.bitmap.len();
        let ghost base = bstart as int * gbs;

        let mut buf = match DmaBuf::allocate(bs32 as usize) {
            Ok(b) => b,
            Err(_) => {
                return Err(NvmeError::OutOfMemory);
            },
        };

        let mut blk: u64 = 0;
        let mut idx: usize = 0;
        while blk < bm
            invariant
                idx as int == vstd::math::min(blk as int * wpb as int, nwords as int),
                self.wf(),
                *self == *old(self),
                self.dirty,
                dev.inv(),
                dev.spec_block_size() == bs32,
                dev.spec_block_size() == old(dev).spec_block_size(),
                dev.spec_total_blocks() == old(dev).spec_total_blocks(),
                dev.bytes().len() == old(dev).bytes().len(),
                dev.bytes().len() == dev.spec_total_blocks() * gbs,
                gbs == bs as int,
                bs == bs32 as u64,
                bs32 == self.block_size,
                72 <= bs32,
                bs32 % 8 == 0,
                wpb == bs / 8,
                8 * (wpb as int) == gbs,
                bstart == self.bitmap_start_lba,
                bm == self.bitmap_on_disk_blocks,
                nwords == self.bitmap@.len(),
                nwords * 8 <= bm as int * gbs,
                base == bstart as int * gbs,
                bstart + bm <= dev.spec_total_blocks(),
                blk <= bm,
                buf@.len() == gbs,
                forall|i: int|
                    0 <= i < dev.bytes().len() && !(base <= i < base + blk as int * gbs)
                        ==> dev.bytes()[i] == old(dev).bytes()[i],
                forall|k: int|
                    0 <= k < nwords && 8 * k + 8 <= blk as int * gbs ==> stored_word(
                        dev.bytes(),
                        base,
                        k,
                    ) == self.words()[k],
            decreases bm - blk,
        {
            // Pack the words of this block (zeros past the end of the map).
            let mut blockv: Vec<u8> = Vec::new();
            let mut w: u64 = 0;
            while w < wpb
                invariant
                    idx as int == vstd::math::min(blk as int * wpb as int + w, nwords as int),
                    w <= wpb,
                    wpb == bs / 8,
                    8 * (wpb as int) == gbs,
                    gbs == bs as int,
                    blk < bm,
                    *self == *old(self),
                    nwords == self.bitmap@.len(),
                    blockv@.len() == 8 * w,
                    forall|j: int|
                        0 <= j < w ==> #[trigger] word_slot(blockv@, j) == (
                        if blk as int * wpb as int + j < nwords {
                            u64_le(self.words()[blk as int * wpb as int + j])
                        } else {
                            u64_le(0u64)
                        }),
                decreases wpb - w,
            {
                let ghost prev = blockv@;
                if idx < nwords {
                    put_u64(&mut blockv, self.bitmap[idx]);
                    idx += 1;
                } else {
                    put_u64(&mut blockv, 0u64);
                }
                proof {
                    assert forall|j: int| 0 <= j < w + 1 implies #[trigger] word_slot(blockv@, j)
                        == (if blk as int * wpb as int + j < nwords {
                        u64_le(self.words()[blk as int * wpb as int + j])
                    } else {
                        u64_le(0u64)
                    }) by {
                        let k = blk as int * wpb as int + j;
                        if j < w {
                            assert(word_slot(blockv@, j) =~= word_slot(prev, j));
                        } else {
                            assert(word_slot(blockv@, j) =~= (if k < nwords {
                                u64_le(self.words()[k])
                            } else {
                                u64_le(0u64)
                            }));
                        }
                    }
                }
                w += 1;
            }
            buf.write_at(0, blockv.as_slice());
            proof {
                assert(buf@ =~= blockv@);
                assert((bstart + blk) * gbs + gbs == (bstart + blk + 1) * gbs) by (nonlinear_arith);
                assert((bstart + blk + 1) * gbs <= dev.spec_total_blocks() * gbs)
                    by (nonlinear_arith)
                    requires
                        bstart + blk + 1 <= dev.spec_total_blocks(),
                        gbs >= 0,
                ;
                assert((bstart + blk) * gbs >= 0) by (nonlinear_arith)
                    requires
                        bstart + blk >= 0,
                        gbs >= 0,
                ;
            }
            proof {
                assert((blk + 1) as int * wpb as int == blk as int * wpb as int + wpb as int)
                    by (nonlinear_arith);
                assert(blk as int * wpb as int >= 0) by (nonlinear_arith)
                    requires
                        blk >= 0,
                        wpb >= 0,
                ;
            }
            let ghost pre_bytes = dev.bytes();
            proof {
                assert(blockv@.len() == 8 * wpb as int);
                assert(8 * wpb as int == gbs);
                assert(buf@.len() == gbs);
                assert(gbs == dev.spec_block_size() as int);
                assert(buf@.len() == 1 * dev.spec_block_size());
            }
            match dev.write_blocks(bstart + blk, 1, &buf) {
                Ok(_) => (),
                Err(e) => {
                    proof {
                        lemma_flush_err(
                            *self,
                            *old(self),
                            pre_bytes,
                            dev.bytes(),
                            old(dev).bytes(),
                            base,
                            blk as int,
                            gbs,
                            bm as int,
                        );
                        assert((bstart + bm) as int * gbs == base + bm as int * gbs)
                            by (nonlinear_arith)
                            requires
                                base == bstart as int * gbs,
                        ;
                    }
                    return Err(e);
                },
            }
            proof {
                let blkbase = (bstart + blk) as int * gbs;
                assert(blkbase == base + blk as int * gbs) by (nonlinear_arith)
                    requires
                        blkbase == (bstart as int + blk as int) * gbs,
                        base == bstart as int * gbs,
                ;
                assert((blk + 1) as int * gbs == blk as int * gbs + gbs) by (nonlinear_arith);
                assert(base + (blk + 1) as int * gbs == blkbase + gbs);
                assert(blk as int * gbs >= 0) by (nonlinear_arith)
                    requires
                        blk >= 0,
                        gbs >= 0,
                ;
                assert forall|i: int|
                    0 <= i < dev.bytes().len() && !(base <= i < base + (blk + 1) as int * gbs)
                        implies dev.bytes()[i] == old(dev).bytes()[i] by {
                    assert(dev.bytes()[i] == pre_bytes[i]);
                }
                assert forall|k: int| 0 <= k < nwords && 8 * k + 8 <= (blk + 1) as int * gbs
                    implies stored_word(dev.bytes(), base, k) == self.words()[k] by {
                    if 8 * k + 8 <= blk as int * gbs {
                        assert(dev.bytes().subrange(base + 8 * k, base + 8 * k + 8) =~= pre_bytes
                            .subrange(base + 8 * k, base + 8 * k + 8));
                    } else {
                        let j = k - blk as int * (wpb as int);
                        assert(8 * (blk as int * wpb as int) == blk as int * gbs)
                            by (nonlinear_arith)
                            requires
                                8 * (wpb as int) == gbs,
                        ;
                        assert(0 <= j < wpb as int);
                        assert(dev.bytes().subrange(base + 8 * k, base + 8 * k + 8)
                            =~= word_slot(blockv@, j));
                        lemma_u64_le_round_trip(self.words()[k]);
                    }
                }
            }
            blk += 1;
        }
        self.dirty = false;
        proof {
            assert forall|k: int| 0 <= k < nwords implies stored_word(dev.bytes(), base, k)
                == self.words()[k] by {
                assert(8 * k + 8 <= bm as int * gbs);
            }
            assert((bstart + bm) as int * gbs == base + bm as int * gbs) by (nonlinear_arith)
                requires
                    base == bstart as int * gbs,
            ;
        }
        Ok(())
    }

    /// Allocate `count` contiguous data blocks, first fit. Returns the
    /// starting data-block index; the caller converts to an LBA via
    /// `data_start_lba + index`.
    pub fn allocate(&mut self, count: u64) -> (r: Result<u64, AllocError>)
        requires
            old(self).wf(),
        ensures
            final(self).wf(),
            final(self).same_geometry(*old(self)),
            count == 0 <==> r == Err::<u64, AllocError>(AllocError::InvalidSize),
            match r {
                Ok(s) => {
                    &&& s + count <= old(self).spec_data_block_count()
                    &&& old(self).run_free(s as int, count as int)
                    &&& forall|t: int|
                        0 <= t < s ==> !old(self).run_free(t, count as int)
                    &&& final(self).bits() == with_run(old(self).bits(), s as int, count as int,
                        true)
                    &&& final(self).spec_free_count() == old(self).spec_free_count() - count
                    &&& final(self).spec_dirty()
                },
                Err(e) => {
                    &&& *final(self) == *old(self)
                    &&& count > 0 ==> e == AllocError::OutOfSpace && (forall|t: int|
                        0 <= t && t + count <= old(self).spec_data_block_count()
                            ==> !old(self).run_free(t, count as int))
                },
            },
    {
        if count == 0 {
            return Err(AllocError::InvalidSize);
        }
        if self.free_count < count {
            proof {
                assert forall|t: int|
                    0 <= t && t + count <= self.data_block_count implies !self.run_free(
                    t,
                    count as int,
                ) by {
                    if self.run_free(t, count as int) {
                        lemma_run_free_count(self.bits(), t, count as int,
                            self.data_block_count as int);
                    }
                }
            }
            return Err(AllocError::OutOfSpace);
        }

        proof {
            lemma_count_free_bounds(self.bits(), self.data_block_count as int);
        }
        let total = self.data_block_count;
        let mut start: u64 = 0;

        while start + count <= total
            invariant
                *self == *old(self),
                self.wf(),
                count >= 1,
                count <= self.free_count,
                count <= total,
                start <= total,
                total == self.data_block_count,
                forall|t: int| 0 <= t < start ==> !self.run_free(t, count as int),
            decreases total - start,
        {
            // Check whether [start, start + count) is entirely free.
            let mut i: u64 = 0;
            let mut hit: u64 = 0;
            let mut found = true;
            while i < count
                invariant
                    *self == *old(self),
                    self.wf(),
                    count >= 1,
                    start + count <= total,
                    total == self.data_block_count,
                    i <= count,
                    found ==> forall|j: int|
                        start <= j < start + i ==> !(#[trigger] self.bits()[j]),
                    !found ==> start <= hit < start + count && self.bits()[hit as int],
                    !found ==> i == count,
                decreases count - i,
            {
                let idx = start + i;
                let w = self.bitmap[(idx / 64) as usize];
                if word_get(w, idx % 64) {
                    hit = idx;
                    found = false;
                    i = count;
                } else {
                    i += 1;
                }
            }

            if found {
                self.mark_run(start, count);
                return Ok(start);
            }
            proof {
                assert forall|t: int| 0 <= t < hit + 1 implies !self.run_free(t, count as int) by {
                    if t >= start {
                        assert(t + count > hit) by {
                            assert(hit < start + count);
                        }
                        assert(self.bits()[hit as int]);
                    }
                }
            }
            start = hit + 1;
        }

        proof {
            assert forall|t: int|
                0 <= t && t + count <= self.data_block_count implies !self.run_free(
                t,
                count as int,
            ) by {}
        }
        Err(AllocError::OutOfSpace)
    }

    /// Set the bits of the free run `[start, start + count)` and adjust the
    /// free counter.
    fn mark_run(&mut self, start: u64, count: u64)
        requires
            old(self).wf(),
            count >= 1,
            start + count <= old(self).spec_data_block_count(),
            old(self).run_free(start as int, count as int),
        ensures
            final(self).wf(),
            final(self).same_geometry(*old(self)),
            final(self).bits() == with_run(old(self).bits(), start as int, count as int, true),
            final(self).spec_free_count() == old(self).spec_free_count() - count,
            final(self).spec_dirty(),
    {
        proof {
            lemma_run_free_count(self.bits(), start as int, count as int,
                self.data_block_count as int);
            lemma_count_free_bounds(self.bits(), self.data_block_count as int);
        }
        let ghost orig = *self;
        let mut i: u64 = 0;
        proof {
            assert(self.bits() =~= with_run(orig.bits(), start as int, 0, true));
        }
        while i < count
            invariant
                i <= count,
                self.wf(),
                self.same_geometry(orig),
                orig.wf(),
                count >= 1,
                orig.free_count >= count,
                start + count <= orig.data_block_count,
                orig.run_free(start as int, count as int),
                self.bitmap@.len() == orig.bitmap@.len(),
                self.bits() == with_run(orig.bits(), start as int, i as int, true),
                self.free_count == orig.free_count - i,
                i > 0 ==> self.dirty,
            decreases count - i,
        {
            let idx = start + i;
            let widx = (idx / 64) as usize;
            let b = idx % 64;
            let ghost pre = *self;
            proof {
                lemma_word_index(idx, self.bitmap@.len() as int, self.data_block_count as int);
                assert(!orig.bits()[idx as int]);
                assert(!pre.bits()[idx as int]);
            }
            let w = self.bitmap[widx];
            self.bitmap[widx] = w | (1u64 << b);
            self.free_count = self.free_count - 1;
            self.dirty = true;
            proof {
                lemma_bits_one_word(pre, *self, widx as int, idx as int, true, w | (1u64 << b), w,
                    b);
                lemma_count_free_update(pre.bits(), idx as int, true,
                    self.data_block_count as int);
                assert(self.bits() =~= with_run(orig.bits(), start as int, i + 1, true));
            }
            i += 1;
        }
    }

    /// Free `count` blocks starting at data-block index `start`. Clearing an
    /// already-clear bit is silently tolerated — no state change and no
    /// counter increment — so that partially-rolled-back operations and
    /// crash recovery stay idempotent.
    pub fn free(&mut self, start: u64, count: u64)
        requires
            old(self).wf(),
            start + count <= old(self).spec_data_block_count(),
        ensures
            final(self).wf(),
            final(self).same_geometry(*old(self)),
            final(self).bits() == with_run(old(self).bits(), start as int, count as int, false),
            final(self).spec_free_count() >= old(self).spec_free_count(),
            final(self).spec_dirty(),
            old(self).run_free(start as int, count as int) ==> final(self).spec_free_count()
                == old(self).spec_free_count(),
    {
        let ghost orig = *self;
        let mut i: u64 = 0;
        proof {
            assert(self.bits() =~= with_run(orig.bits(), start as int, 0, false));
        }
        while i < count
            invariant
                i <= count,
                self.wf(),
                self.same_geometry(orig),
                orig.wf(),
                start + count <= orig.data_block_count,
                self.bitmap@.len() == orig.bitmap@.len(),
                self.bits() == with_run(orig.bits(), start as int, i as int, false),
                self.free_count >= orig.free_count,
                orig.run_free(start as int, count as int) ==> self.free_count == orig.free_count,
                self.dirty == orig.dirty,
            decreases count - i,
        {
            proof {
                lemma_count_free_bounds(self.bits(), self.data_block_count as int);
            }
            let idx = start + i;
            let widx = (idx / 64) as usize;
            let b = idx % 64;
            let ghost pre = *self;
            proof {
                lemma_word_index(idx, self.bitmap@.len() as int, self.data_block_count as int);
                assert(pre.bits()[idx as int] == orig.bits()[idx as int]);
            }
            let w = self.bitmap[widx];
            let was_set = word_get(w, b);
            self.bitmap[widx] = w & !(1u64 << b);
            if was_set {
                self.free_count = self.free_count + 1;
            }
            proof {
                assert(was_set == pre.bits()[idx as int]);
                lemma_bits_one_word(pre, *self, widx as int, idx as int, false, w & !(1u64 << b),
                    w, b);
                lemma_count_free_update(pre.bits(), idx as int, false,
                    self.data_block_count as int);
                assert(self.bits() =~= with_run(orig.bits(), start as int, i + 1, false));
            }
            i += 1;
        }
        self.dirty = true;
    }

    /// Convert a data-block index to an absolute LBA.
    pub fn to_lba(&self, data_block: u64) -> (r: u64)
        requires
            self.spec_data_start_lba() + data_block <= u64::MAX,
        ensures
            r == self.spec_data_start_lba() + data_block,
    {
        self.data_start_lba + data_block
    }

    pub fn free_count(&self) -> (r: u64)
        ensures
            r == self.spec_free_count(),
    {
        self.free_count
    }

    pub fn block_size(&self) -> (r: u32)
        ensures
            r == self.spec_block_size(),
    {
        self.block_size
    }

    pub fn data_start_lba(&self) -> (r: u64)
        ensures
            r == self.spec_data_start_lba(),
    {
        self.data_start_lba
    }
}

/// A bitmap index below `len * 64` lands in word `idx / 64`.
proof fn lemma_word_index(idx: u64, words: int, dbc: int)
    requires
        words == (dbc + 63) / 64,
        idx < dbc,
    ensures
        0 <= idx as int / 64 < words,
        0 <= idx as int % 64 < 64,
{
    assert(idx as int == 64 * (idx as int / 64) + (idx as int % 64));
    assert(dbc <= 64 * words);
}

/// A fully-clear prefix counts every bit as free.
proof fn lemma_count_all_free(bits: Seq<bool>, n: int)
    requires
        forall|j: int| 0 <= j < n ==> !(#[trigger] bits[j]),
    ensures
        count_free(bits, n) == if n >= 0 { n } else { 0 },
    decreases n,
{
    if n > 0 {
        lemma_count_all_free(bits, n - 1);
    }
}

/// After one word of the bitmap is rewritten with a single bit forced to
/// `v`, the boolean view is the old view with that one index updated.
proof fn lemma_bits_one_word(
    pre: BlockAllocator,
    post: BlockAllocator,
    widx: int,
    idx: int,
    v: bool,
    neww: u64,
    w: u64,
    b: u64,
)
    requires
        post.spec_data_block_count() == pre.spec_data_block_count(),
        pre.bitmap@.len() == (pre.spec_data_block_count() + 63) / 64,
        post.bitmap@ == pre.bitmap@.update(widx, neww),
        0 <= idx < pre.spec_data_block_count(),
        widx == idx / 64,
        b == idx % 64,
        w == pre.bitmap@[widx],
        neww == if v {
            w | (1u64 << b)
        } else {
            w & !(1u64 << b)
        },
    ensures
        post.bits() == pre.bits().update(idx, v),
{
    assert forall|j: int| 0 <= j < pre.spec_data_block_count() implies post.bits()[j]
        == pre.bits().update(idx, v)[j] by {
        lemma_word_index(j as u64, pre.bitmap@.len() as int, pre.spec_data_block_count() as int);
        if j / 64 == widx {
            if v {
                lemma_word_set(w, b, (j % 64) as u64);
            } else {
                lemma_word_clear(w, b, (j % 64) as u64);
            }
            assert(j == idx <==> j % 64 == b as int) by {
                assert(idx == 64 * (idx / 64) + (idx % 64));
                assert(j == 64 * (j / 64) + (j % 64));
            }
        }
    }
    assert(post.bits() =~= pre.bits().update(idx, v));
}

/// Round trip of format and load: an allocator accepted by `load` from a
/// freshly formatted device image reports the formatted geometry, with
/// every data block free and `free_count` equal to `data_block_count`.
pub proof fn lemma_format_load_round_trip(
    ld: BlockAllocator,
    bytes: Seq<u8>,
    total_blocks: u64,
    block_size: u32,
)
    requires
        3 <= total_blocks <= 0x1000_0000,
        72 <= block_size,
        block_size % 8 == 0,
        ({
            // The device image that `format(total_blocks, block_size)` leaves behind.
            let bs = block_size as int;
            let bits_per = 8 * bs;
            let bm = (total_blocks - 2 + bits_per - 1) / bits_per;
            let ds = 2 + bm;
            let db = if total_blocks >= ds {
                total_blocks - ds
            } else {
                0
            };
            &&& bytes.subrange(0, 72) == sb_bytes(
                Superblock {
                    magic: SUPERBLOCK_MAGIC,
                    version: SUPERBLOCK_VERSION,
                    block_size,
                    total_blocks,
                    bitmap_start_lba: 1,
                    bitmap_block_count: bm as u64,
                    file_table_start_lba: (1 + bm) as u64,
                    file_table_block_count: 1,
                    data_start_lba: ds as u64,
                    data_block_count: db as u64,
                },
            )
            &&& forall|i: int| 72 <= i < ds * bs ==> bytes[i] == 0u8
            &&& bytes.len() >= ds * bs
        }),
        ({
            // What `load` promises of an allocator it returns.
            let sb = sb_decode(bytes);
            &&& ld.wf()
            &&& ld.spec_data_block_count() == sb.data_block_count
            &&& ld.spec_data_start_lba() == sb.data_start_lba
            &&& ld.spec_bitmap_start_lba() == sb.bitmap_start_lba
            &&& ld.spec_bitmap_on_disk_blocks() == sb.bitmap_block_count
            &&& ld.spec_block_size() == block_size
            &&& ld.words().len() == (sb.data_block_count + 63) / 64
            &&& forall|k: int|
                0 <= k < ld.words().len() ==> ld.words()[k] == stored_word(
                    bytes,
                    sb.bitmap_start_lba as int * block_size as int,
                    k,
                )
        }),
    ensures
        ({
            let bs = block_size as int;
            let bits_per = 8 * bs;
            let bm = (total_blocks - 2 + bits_per - 1) / bits_per;
            let ds = 2 + bm;
            let db = if total_blocks >= ds {
                total_blocks - ds
            } else {
                0
            };
            &&& ld.spec_free_count() == db
            &&& ld.spec_data_block_count() == db
            &&& ld.spec_data_start_lba() == ds
            &&& ld.spec_block_size() == block_size
            &&& forall|j: int| 0 <= j < db ==> !(#[trigger] ld.bits()[j])
        }),
{
    let bs = block_size as int;
    let bits_per = 8 * bs;
    let bm = (total_blocks - 2 + bits_per - 1) / bits_per;
    let ds = 2 + bm;
    let db = if total_blocks >= ds {
        total_blocks as int - ds
    } else {
        0
    };
    let sb = Superblock {
        magic: SUPERBLOCK_MAGIC,
        version: SUPERBLOCK_VERSION,
        block_size,
        total_blocks,
        bitmap_start_lba: 1,
        bitmap_block_count: bm as u64,
        file_table_start_lba: (1 + bm) as u64,
        file_table_block_count: 1,
        data_start_lba: ds as u64,
        data_block_count: db as u64,
    };
    assert(72 <= ds * bs) by (nonlinear_arith)
        requires
            ds >= 2,
            bs >= 72,
    ;
    lemma_sb_round_trip(sb, bytes);
    assert(sb_decode(bytes) == sb);
    let base = 1 * bs;
    // Every stored bitmap word of the fresh image is zero.
    assert(bm >= 1 && bm * bits_per >= total_blocks - 2) by (nonlinear_arith)
        requires
            bm == (total_blocks - 2 + bits_per - 1) / bits_per,
            1 <= total_blocks - 2,
            bits_per >= 576,
    ;
    let words = ld.words().len() as int;
    let c = bm * (bs / 8);
    assert(bm * bs == 8 * c) by (nonlinear_arith)
        requires
            c == bm * (bs / 8),
            bs % 8 == 0,
    ;
    assert(bits_per * bm == 64 * c) by (nonlinear_arith)
        requires
            bits_per == 8 * bs,
            bm * bs == 8 * c,
    ;
    assert(db <= 64 * c);
    assert(words * 64 <= db + 63) by (nonlinear_arith)
        requires
            words == (db + 63) / 64,
            db >= 0,
    ;
    assert(words <= c);
    assert(words * 8 <= c * 8) by (nonlinear_arith)
        requires
            words <= c,
    ;
    assert(words * 8 <= bm * bs);
    assert forall|k: int| 0 <= k < ld.words().len() implies ld.words()[k] == 0u64 by {
        let lo = base + 8 * k;
        assert(8 * k + 8 <= words * 8) by (nonlinear_arith)
            requires
                k < words,
        ;
        assert(bs + 8 * k + 8 <= ds * bs) by (nonlinear_arith)
            requires
                8 * k + 8 <= bm * bs,
                ds == 2 + bm,
                bs >= 72,
        ;
        assert forall|x: int| lo <= x < lo + 8 implies bytes[x] == 0u8 by {
            assert(72 <= x < ds * bs);
        }
        lemma_zero_word(bytes, lo);
    }
    assert forall|j: int| 0 <= j < db implies !(#[trigger] ld.bits()[j]) by {
        ld.lemma_bits_words();
        lemma_word_index(j as u64, ld.words().len() as int, db);
        crate::bits::lemma_word_zero((j % 64) as u64);
    }
    lemma_count_all_free(ld.bits(), db);
}

/// Sync barrier, allocator half: a flushed bitmap survives a cold reload.
/// If the device image stores exactly the allocator's bitmap words (what
/// `flush` leaves behind) and `load` accepted the same image, the reloaded
/// allocator has the very same bits and free count.
pub proof fn lemma_flush_load_round_trip(a: BlockAllocator, ld: BlockAllocator, bytes: Seq<u8>, base: int)
    requires
        a.wf(),
        ld.wf(),
        ld.spec_data_block_count() == a.spec_data_block_count(),
        ld.words().len() == a.words().len(),
        forall|k: int|
            0 <= k < a.words().len() ==> stored_word(bytes, base, k) == a.words()[k],
        forall|k: int|
            0 <= k < ld.words().len() ==> ld.words()[k] == stored_word(bytes, base, k),
    ensures
        ld.bits() == a.bits(),
        ld.spec_free_count() == a.spec_free_count(),
{
    assert(ld.words() =~= a.words());
    ld.lemma_bits_words();
    a.lemma_bits_words();
}

/// Eight zero bytes decode to the zero word.
proof fn lemma_zero_word(bytes: Seq<u8>, lo: int)
    requires
        0 <= lo,
        lo + 8 <= bytes.len(),
        forall|x: int| lo <= x < lo + 8 ==> bytes[x] == 0u8,
    ensures
        u64_from_le(bytes.subrange(lo, lo + 8)) == 0u64,
{
    let sl = bytes.subrange(lo, lo + 8);
    assert(sl[0] == bytes[lo + 0]);
    assert(sl[1] == bytes[lo + 1]);
    assert(sl[2] == bytes[lo + 2]);
    assert(sl[3] == bytes[lo + 3]);
    assert(sl[4] == bytes[lo + 4]);
    assert(sl[5] == bytes[lo + 5]);
    assert(sl[6] == bytes[lo + 6]);
    assert(sl[7] == bytes[lo + 7]);
    assert((0u8 as u64) | ((0u8 as u64) << 8) | ((0u8 as u64) << 16) | ((0u8 as u64) << 24) | (
    (0u8 as u64) << 32) | ((0u8 as u64) << 40) | ((0u8 as u64) << 48) | ((0u8 as u64) << 56)
        == 0u64) by (bit_vector);
}

/// Decoding reads only the first 72 bytes, which the block read preserved.
proof fn lemma_decode_prefix(a: Seq<u8>, b: Seq<u8>)
    requires
        a.len() >= 72,
        b.len() >= 72,
        a.subrange(0, 72) == b.subrange(0, 72),
    ensures
        sb_decode(a) == sb_decode(b),
{
    assert forall|i: int| 0 <= i < 72 implies a[i] == b[i] by {
        assert(a.subrange(0, 72)[i] == a[i]);
        assert(b.subrange(0, 72)[i] == b[i]);
        assert(a.subrange(0, 72)[i] == b.subrange(0, 72)[i]);
    }
    assert(a.subrange(0, 8) =~= b.subrange(0, 8));
    assert(a.subrange(8, 12) =~= b.subrange(8, 12));
    assert(a.subrange(12, 16) =~= b.subrange(12, 16));
    assert(a.subrange(16, 24) =~= b.subrange(16, 24));
    assert(a.subrange(24, 32) =~= b.subrange(24, 32));
    assert(a.subrange(32, 40) =~= b.subrange(32, 40));
    assert(a.subrange(40, 48) =~= b.subrange(40, 48));
    assert(a.subrange(48, 56) =~= b.subrange(48, 56));
    assert(a.subrange(56, 64) =~= b.subrange(56, 64));
    assert(a.subrange(64, 72) =~= b.subrange(64, 72));
}

/// On a failed write, everything outside the bitmap region is untouched.
proof fn lemma_flush_err(
    cur: BlockAllocator,
    orig: BlockAllocator,
    pre: Seq<u8>,
    post: Seq<u8>,
    first: Seq<u8>,
    base: int,
    blk: int,
    gbs: int,
    bm: int,
)
    requires
        post.len() == pre.len(),
        pre.len() == first.len(),
        0 <= blk < bm,
        gbs >= 0,
        forall|i: int| 0 <= i < pre.len() && !(base <= i < base + blk * gbs) ==> pre[i] == first[i],
        forall|i: int|
            0 <= i < post.len() && !(base + blk * gbs <= i < base + (blk + 1) * gbs) ==> post[i]
                == pre[i],
    ensures
        forall|i: int|
            0 <= i < post.len() && !(base <= i < base + bm * gbs) ==> post[i] == first[i],
{
    assert forall|i: int| 0 <= i < post.len() && !(base <= i < base + bm * gbs) implies post[i]
        == first[i] by {
        assert(blk * gbs >= 0) by (nonlinear_arith)
            requires
                blk >= 0,
                gbs >= 0,
        ;
        assert((blk + 1) * gbs <= bm * gbs) by (nonlinear_arith)
            requires
                blk + 1 <= bm,
                gbs >= 0,
        ;
        assert(blk * gbs + gbs == (blk + 1) * gbs) by (nonlinear_arith);
        assert(post[i] == pre[i]);
        assert(pre[i] == first[i]);
    }
}

} // verus!

//! Pure pieces of the NVMe controller bring-up: register field
//! extraction, register values to program, doorbell offsets, and the
//! Identify Namespace parse. The MMIO reads and writes around them
//! belong to the hardware driver.

use vstd::prelude::*;

use crate::bytes::{get_u32, get_u64, u32_from_le, u64_from_le};
use crate::nvme_command::NvmeError;
use crate::nvme_queue::NamespaceInfo;

verus! {

/// The doorbell stride from CAP.DSTRD: `4 << ((cap >> 32) & 0xF)` bytes.
pub fn doorbell_stride(cap: u64) -> (r: u64)
    ensures
        r == (4u64 << ((cap >> 32) & 0xF)),
        4 <= r <= 0x2_0000,
{
    let dstrd = (cap >> 32) & 0xF;
    proof {
        assert((cap >> 32) & 0xF < 16) by (bit_vector);
        let d = dstrd;
        assert(d < 16 ==> 4u64 <= (4u64 << d) <= 0x2_0000) by (bit_vector);
    }
    4u64 << dstrd
}

/// The deepest queue the controller supports, from CAP.MQES (zero-based).
pub fn max_queue_entries(cap: u64) -> (r: u64)
    ensures
        r == (cap & 0xFFFF) + 1,
        1 <= r <= 0x1_0000,
{
    proof {
        assert(cap & 0xFFFF <= 0xFFFF) by (bit_vector);
    }
    (cap & 0xFFFF) + 1
}

/// The ready timeout from CAP.TO, in 500 ms units.
pub fn ready_timeout_500ms(cap: u64) -> (r: u64)
    ensures
        r == (cap >> 24) & 0xFF,
        r <= 0xFF,
{
    proof {
        assert((cap >> 24) & 0xFF <= 0xFF) by (bit_vector);
    }
    (cap >> 24) & 0xFF
}

/// The CC value that enables the controller: sixteen-byte completion
/// entries, sixty-four-byte submission entries, 4 KiB pages, the NVM
/// command set, and the enable bit.
pub fn cc_enable_value() -> (r: u32)
    ensures
        r == (4u32 << 20) | (6u32 << 16) | 1u32,
{
    (4u32 << 20) | (6u32 << 16) | 1
}

/// The AQA value for admin queues of `size` entries: the zero-based size
/// in both halves.
pub fn aqa_value(size: u16) -> (r: u32)
    requires
        1 <= size,
    ensures
        r == ((((size - 1) as u32) << 16) | ((size - 1) as u32)),
{
    let z = (size - 1) as u32;
    (z << 16) | z
}

/// The submission doorbell offset of queue `qid`.
pub fn sq_doorbell_offset(qid: u16, stride: u64) -> (r: u64)
    requires
        stride <= 0x2_0000,
    ensures
        r == 0x1000 + (2 * qid as int) * stride,
{
    proof {
        let q = qid as int;
        let st = stride as int;
        assert((2 * q) * st <= 0x2_0000 * 0x2_0000) by (nonlinear_arith)
            requires
                0 <= q < 0x1_0000,
                0 <= st <= 0x2_0000,
        ;
    }
    0x1000 + (2 * qid as u64) * stride
}

/// The completion doorbell offset of queue `qid`.
pub fn cq_doorbell_offset(qid: u16, stride: u64) -> (r: u64)
    requires
        stride <= 0x2_0000,
    ensures
        r == 0x1000 + (2 * qid as int + 1) * stride,
{
    proof {
        let q = qid as int;
        let st = stride as int;
        assert((2 * q + 1) * st <= 0x2_0001 * 0x2_0000) by (nonlinear_arith)
            requires
                0 <= q < 0x1_0000,
                0 <= st <= 0x2_0000,
        ;
    }
    0x1000 + (2 * qid as u64 + 1) * stride
}

/// Parse an Identify Namespace response: the namespace size from NSZE,
/// the active LBA format from FLBAS, and the block and metadata sizes
/// from that format's descriptor. A format whose data-size power would
/// overflow a block size is rejected as a media error.
pub fn parse_namespace_info(data: &[u8], nsid: u32) -> (r: Result<NamespaceInfo, NvmeError>)
    requires
        data@.len() >= 4096,
    ensures
        match r {
            Ok(info) => ({
                let flbas = (data@[26] & 0xF) as int;
                let lbaf = u32_from_le(data@.subrange(128 + flbas * 4, 128 + flbas * 4 + 4));
                let lbads = (lbaf >> 16) & 0xFF;
                &&& info.nsid == nsid
                &&& info.block_count == u64_from_le(data@.subrange(0, 8))
                &&& lbads < 32
                &&& info.block_size == (1u32 << lbads)
                &&& info.metadata_size == (lbaf & 0xFFFF)
            }),
            Err(e) => e == NvmeError::MediaError,
        },
{
    let block_count = get_u64(data, 0);
    let flbas_index = (data[26] & 0x0F) as usize;
    proof {
        let b = data@[26];
        assert((b & 0x0F) < 16) by (bit_vector);
    }
    let lbaf_offset = 128 + flbas_index * 4;
    let lbaf = get_u32(data, lbaf_offset);
    let lbads = (lbaf >> 16) & 0xFF;
    if lbads >= 32 {
        return Err(NvmeError::MediaError);
    }
    let block_size = 1u32 << (lbads as u32);
    let metadata_size = lbaf & 0xFFFF;
    Ok(NamespaceInfo { nsid, block_count, block_size, metadata_size })
}

} // verus!

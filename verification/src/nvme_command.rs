//! NVMe command codes, completion-status classification, and PRP
//! scatter-list construction.

use vstd::prelude::*;

use crate::phys::PhysAddr;

verus! {

/// NVMe admin command opcodes.
#[derive(Clone, Copy, PartialEq, Eq, Structural, Debug)]
pub enum AdminOpcode {
    DeleteIoSq,
    CreateIoSq,
    DeleteIoCq,
    CreateIoCq,
    Identify,
}

impl AdminOpcode {
    /// The opcode byte on the wire.
    pub fn code(self) -> (r: u8)
        ensures
            r == self.spec_code(),
    {
        match self {
            AdminOpcode::DeleteIoSq => 0x00,
            AdminOpcode::CreateIoSq => 0x01,
            AdminOpcode::DeleteIoCq => 0x04,
            AdminOpcode::CreateIoCq => 0x05,
            AdminOpcode::Identify => 0x06,
        }
    }

    pub open spec fn spec_code(self) -> u8 {
        match self {
            AdminOpcode::DeleteIoSq => 0x00,
            AdminOpcode::CreateIoSq => 0x01,
            AdminOpcode::DeleteIoCq => 0x04,
            AdminOpcode::CreateIoCq => 0x05,
            AdminOpcode::Identify => 0x06,
        }
    }
}

/// NVMe NVM I/O command opcodes.
#[derive(Clone, Copy, PartialEq, Eq, Structural, Debug)]
pub enum NvmOpcode {
    Flush,
    Write,
    Read,
}

impl NvmOpcode {
    /// The opcode byte on the wire.
    pub fn code(self) -> (r: u8)
        ensures
            r == self.spec_code(),
    {
        match self {
            NvmOpcode::Flush => 0x00,
            NvmOpcode::Write => 0x01,
            NvmOpcode::Read => 0x02,
        }
    }

    pub open spec fn spec_code(self) -> u8 {
        match self {
            NvmOpcode::Flush => 0x00,
            NvmOpcode::Write => 0x01,
            NvmOpcode::Read => 0x02,
        }
    }
}

/// NVMe error types.
#[derive(Clone, Copy, PartialEq, Eq, Structural, Debug)]
pub enum NvmeError {
    /// The controller reported fatal status.
    ControllerFatal,
    /// A command timed out waiting for completion.
    Timeout,
    /// An NVMe command completed with non-zero status.
    CommandFailed(u16),
    /// No NVMe device was found during PCI enumeration.
    DeviceNotFound,
    /// The driver is not initialized yet.
    NotInitialized,
    /// DMA memory allocation failed.
    OutOfMemory,
    /// Media error — unrecoverable read or write failure.
    MediaError,
}

/// What `classify_status` returns for a raw completion status: status-code
/// type 2 (media errors) and the LBA-out-of-range code map to `MediaError`;
/// zero status is success; everything else carries the raw status.
pub open spec fn spec_classify_status(status: u16) -> Result<(), NvmeError> {
    if status == 0 {
        Ok(())
    } else {
        let sct = (status >> 9) & 0x7;
        let sc = (status >> 1) & 0xFF;
        if sct == 0 {
            if sc == 0x00 {
                Ok(())
            } else if sc == 0x80 {
                Err(NvmeError::MediaError)
            } else {
                Err(NvmeError::CommandFailed(status))
            }
        } else if sct == 2 {
            Err(NvmeError::MediaError)
        } else {
            Err(NvmeError::CommandFailed(status))
        }
    }
}

/// Classify an NVMe completion status into an error category.
pub fn classify_status(status: u16) -> (r: Result<(), NvmeError>)
    ensures
        r == spec_classify_status(status),
{
    if status == 0 {
        return Ok(());
    }

    let sct = (status >> 9) & 0x7;
    let sc = (status >> 1) & 0xFF;

    match sct {
        0 => {
            match sc {
                0x00 => Ok(()),
                0x80 => Err(NvmeError::MediaError),
                _ => Err(NvmeError::CommandFailed(status)),
            }
        },
        2 => Err(NvmeError::MediaError),
        _ => Err(NvmeError::CommandFailed(status)),
    }
}

/// SQLite error codes returned from VFS operations; these mirror the
/// sqlite3 error codes the adapter needs.
#[derive(Clone, Copy, PartialEq, Eq, Structural, Debug)]
pub enum SqliteIoError {
    Okay,
    Error,
    IoErrRead,
    IoErrWrite,
    IoErrFsync,
    IoErrTruncate,
    IoErrDelete,
    Full,
    Busy,
    CantOpen,
    CorruptFs,
}

impl SqliteIoError {
    /// The sqlite3 integer error code.
    pub fn code(self) -> (r: i32)
        ensures
            r == self.spec_code(),
    {
        match self {
            SqliteIoError::Okay => 0,
            SqliteIoError::Error => 1,
            SqliteIoError::IoErrRead => 266,
            SqliteIoError::IoErrWrite => 778,
            SqliteIoError::IoErrFsync => 1034,
            SqliteIoError::IoErrTruncate => 1546,
            SqliteIoError::IoErrDelete => 2570,
            SqliteIoError::Full => 13,
            SqliteIoError::Busy => 5,
            SqliteIoError::CantOpen => 14,
            SqliteIoError::CorruptFs => 1290,
        }
    }

    pub open spec fn spec_code(self) -> i32 {
        match self {
            SqliteIoError::Okay => 0,
            SqliteIoError::Error => 1,
            SqliteIoError::IoErrRead => 266,
            SqliteIoError::IoErrWrite => 778,
            SqliteIoError::IoErrFsync => 1034,
            SqliteIoError::IoErrTruncate => 1546,
            SqliteIoError::IoErrDelete => 2570,
            SqliteIoError::Full => 13,
            SqliteIoError::Busy => 5,
            SqliteIoError::CantOpen => 14,
            SqliteIoError::CorruptFs => 1290,
        }
    }
}

/// Map an NVMe error to a SQLite I/O error code.
pub fn nvme_to_sqlite_error(err: &NvmeError) -> (r: SqliteIoError)
    ensures
        r == spec_nvme_to_sqlite_error(*err),
{
    match err {
        NvmeError::ControllerFatal => SqliteIoError::Error,
        NvmeError::Timeout => SqliteIoError::Busy,
        NvmeError::CommandFailed(_) => SqliteIoError::IoErrRead,
        NvmeError::DeviceNotFound => SqliteIoError::CantOpen,
        NvmeError::NotInitialized => SqliteIoError::CantOpen,
        NvmeError::OutOfMemory => SqliteIoError::Full,
        NvmeError::MediaError => SqliteIoError::CorruptFs,
    }
}

pub open spec fn spec_nvme_to_sqlite_error(err: NvmeError) -> SqliteIoError {
    match err {
        NvmeError::ControllerFatal => SqliteIoError::Error,
        NvmeError::Timeout => SqliteIoError::Busy,
        NvmeError::CommandFailed(_) => SqliteIoError::IoErrRead,
        NvmeError::DeviceNotFound => SqliteIoError::CantOpen,
        NvmeError::NotInitialized => SqliteIoError::CantOpen,
        NvmeError::OutOfMemory => SqliteIoError::Full,
        NvmeError::MediaError => SqliteIoError::CorruptFs,
    }
}

/// Build the two PRP entries for a physically contiguous buffer whose
/// transfer spans at most two pages. One-page transfers leave `prp2`
/// clear; two-page transfers point it at the second page.
pub fn build_prp(base: PhysAddr, transfer_size: usize) -> (r: (PhysAddr, PhysAddr))
    requires
        transfer_size <= 2 * 4096,
        base.0 + 4096 <= u64::MAX,
    ensures
        r.0 == base,
        transfer_size <= 4096 ==> r.1 == PhysAddr(0),
        transfer_size > 4096 ==> r.1 == PhysAddr((base.0 + 4096) as u64),
{
    if transfer_size <= 4096 {
        (base, PhysAddr::new(0))
    } else {
        (base, PhysAddr::new(base.as_u64() + 4096))
    }
}

/// Build the PRP list for a physically contiguous buffer spanning more
/// than two pages: entry `i` holds the address of page `i + 1` (page 0
/// rides in PRP1). The caller copies the list into a page-aligned DMA
/// buffer whose lifetime covers command completion.
pub fn build_prp_list(base: PhysAddr, transfer_size: usize) -> (r: Vec<u64>)
    requires
        transfer_size > 2 * 4096,
        transfer_size <= 512 * 4096,
        base.0 + transfer_size as int + 4096 <= u64::MAX,
    ensures
        r@.len() == (transfer_size + 4095) / 4096 - 1,
        forall|i: int| 0 <= i < r@.len() ==> r@[i] == base.0 + 4096 * (i + 1),
{
    let num_pages = (transfer_size + 4095) / 4096;
    let mut list: Vec<u64> = Vec::new();
    let mut i: usize = 1;
    while i < num_pages
        invariant
            1 <= i <= num_pages,
            num_pages <= 512,
            base.0 + transfer_size as int + 4096 <= u64::MAX,
            num_pages == (transfer_size as int + 4095) / 4096,
            transfer_size <= 512 * 4096,
            list@.len() == i - 1,
            forall|k: int| 0 <= k < list@.len() ==> list@[k] == base.0 + 4096 * (k + 1),
        decreases num_pages - i,
    {
        list.push(base.as_u64() + (i as u64) * 4096);
        i += 1;
    }
    list
}

/// A higher-level NVM command; the driver converts it to a submission
/// entry.
pub struct NvmeCommand {
    pub opcode: NvmOpcode,
    pub nsid: u32,
    pub lba: u64,
    pub block_count: u16,
    pub prp1: PhysAddr,
    pub prp2: PhysAddr,
}

} // verus!

//! NVMe submission and completion queue structures.
//!
//! Per the NVMe contract a submission queue entry is 64 bytes and a
//! completion entry 16 bytes; the queues are circular rings. The ring
//! bookkeeping — command-id stamping, tail and head advance, phase-bit
//! detection — is modeled here; the rings' DMA placement and the doorbell
//! writes belong to the hardware driver.

use vstd::prelude::*;

use crate::phys::{AllocError, PhysAddr};

verus! {

/// NVMe submission queue entry — 64 bytes on the wire.
#[derive(Clone, Copy, PartialEq, Eq, Structural, Debug)]
pub struct SubmissionEntry {
    /// Command dword 0: opcode in bits 7:0, command id in bits 31:16.
    pub cdw0: u32,
    /// Namespace identifier.
    pub nsid: u32,
    pub cdw2: u32,
    pub cdw3: u32,
    /// Metadata pointer.
    pub mptr: u64,
    /// PRP entry 1.
    pub prp1: u64,
    /// PRP entry 2, or the PRP list pointer.
    pub prp2: u64,
    pub cdw10: u32,
    pub cdw11: u32,
    pub cdw12: u32,
    pub cdw13: u32,
    pub cdw14: u32,
    pub cdw15: u32,
}

impl SubmissionEntry {
    pub open spec fn spec_zeroed() -> SubmissionEntry {
        SubmissionEntry {
            cdw0: 0,
            nsid: 0,
            cdw2: 0,
            cdw3: 0,
            mptr: 0,
            prp1: 0,
            prp2: 0,
            cdw10: 0,
            cdw11: 0,
            cdw12: 0,
            cdw13: 0,
            cdw14: 0,
            cdw15: 0,
        }
    }

    pub fn zeroed() -> (r: Self)
        ensures
            r == SubmissionEntry::spec_zeroed(),
    {
        SubmissionEntry {
            cdw0: 0,
            nsid: 0,
            cdw2: 0,
            cdw3: 0,
            mptr: 0,
            prp1: 0,
            prp2: 0,
            cdw10: 0,
            cdw11: 0,
            cdw12: 0,
            cdw13: 0,
            cdw14: 0,
            cdw15: 0,
        }
    }

    /// An Identify admin command; `cns` 0 identifies a namespace, 1 the
    /// controller.
    pub fn identify(nsid: u32, cns: u32, data_phys: PhysAddr) -> (r: Self)
        ensures
            r == (SubmissionEntry {
                cdw0: 0x06,
                nsid,
                prp1: data_phys.0,
                cdw10: cns,
                ..SubmissionEntry::spec_zeroed()
            }),
    {
        SubmissionEntry {
            cdw0: 0x06,
            nsid,
            prp1: data_phys.as_u64(),
            cdw10: cns,
            ..SubmissionEntry::zeroed()
        }
    }

    /// A Create I/O Completion Queue admin command: queue size and id in
    /// dword 10, the physically-contiguous flag in dword 11.
    pub fn create_io_cq(qid: u16, size: u16, cq_phys: PhysAddr) -> (r: Self)
        requires
            size >= 1,
        ensures
            r == (SubmissionEntry {
                cdw0: 0x05,
                prp1: cq_phys.0,
                cdw10: (((size - 1) as u32) << 16) | qid as u32,
                cdw11: 0x01,
                ..SubmissionEntry::spec_zeroed()
            }),
    {
        SubmissionEntry {
            cdw0: 0x05,
            prp1: cq_phys.as_u64(),
            cdw10: ((size as u32 - 1) << 16) | qid as u32,
            cdw11: 0x01,
            ..SubmissionEntry::zeroed()
        }
    }

    /// A Create I/O Submission Queue admin command: size and id in dword
    /// 10, the bound completion queue and the contiguous flag in dword 11.
    pub fn create_io_sq(qid: u16, size: u16, sq_phys: PhysAddr, cqid: u16) -> (r: Self)
        requires
            size >= 1,
        ensures
            r == (SubmissionEntry {
                cdw0: 0x01,
                prp1: sq_phys.0,
                cdw10: (((size - 1) as u32) << 16) | qid as u32,
                cdw11: ((cqid as u32) << 16) | 0x01,
                ..SubmissionEntry::spec_zeroed()
            }),
    {
        SubmissionEntry {
            cdw0: 0x01,
            prp1: sq_phys.as_u64(),
            cdw10: ((size as u32 - 1) << 16) | qid as u32,
            cdw11: ((cqid as u32) << 16) | 0x01,
            ..SubmissionEntry::zeroed()
        }
    }

    /// An NVM Read command: starting LBA split across dwords 10 and 11,
    /// the zero-based block count in dword 12.
    pub fn read(nsid: u32, lba: u64, nlb: u16, prp1: PhysAddr, prp2: PhysAddr) -> (r: Self)
        ensures
            r == (SubmissionEntry {
                cdw0: 0x02,
                nsid,
                prp1: prp1.0,
                prp2: prp2.0,
                cdw10: lba as u32,
                cdw11: (lba >> 32) as u32,
                cdw12: nlb as u32,
                ..SubmissionEntry::spec_zeroed()
            }),
    {
        SubmissionEntry {
            cdw0: 0x02,
            nsid,
            prp1: prp1.as_u64(),
            prp2: prp2.as_u64(),
            cdw10: lba as u32,
            cdw11: (lba >> 32) as u32,
            cdw12: nlb as u32,
            ..SubmissionEntry::zeroed()
        }
    }

    /// An NVM Write command, laid out like the read command.
    pub fn write(nsid: u32, lba: u64, nlb: u16, prp1: PhysAddr, prp2: PhysAddr) -> (r: Self)
        ensures
            r == (SubmissionEntry {
                cdw0: 0x01,
                nsid,
                prp1: prp1.0,
                prp2: prp2.0,
                cdw10: lba as u32,
                cdw11: (lba >> 32) as u32,
                cdw12: nlb as u32,
                ..SubmissionEntry::spec_zeroed()
            }),
    {
        SubmissionEntry {
            cdw0: 0x01,
            nsid,
            prp1: prp1.as_u64(),
            prp2: prp2.as_u64(),
            cdw10: lba as u32,
            cdw11: (lba >> 32) as u32,
            cdw12: nlb as u32,
            ..SubmissionEntry::zeroed()
        }
    }

    /// An NVM Flush command — the durability barrier.
    pub fn flush(nsid: u32) -> (r: Self)
        ensures
            r == (SubmissionEntry { cdw0: 0x00, nsid, ..SubmissionEntry::spec_zeroed() }),
    {
        SubmissionEntry { cdw0: 0x00, nsid, ..SubmissionEntry::zeroed() }
    }
}

/// NVMe completion queue entry — 16 bytes on the wire.
#[derive(Clone, Copy, PartialEq, Eq, Structural, Debug)]
pub struct CompletionEntry {
    /// Command-specific result.
    pub dw0: u32,
    pub dw1: u32,
    /// Submission queue head in bits 15:0, queue id in bits 31:16.
    pub sq_head_sqid: u32,
    /// Command id in bits 15:0, phase tag in bit 16, status in bits 31:17.
    pub cid_status: u32,
}

impl CompletionEntry {
    pub fn zeroed() -> (r: Self)
        ensures
            r == (CompletionEntry { dw0: 0, dw1: 0, sq_head_sqid: 0, cid_status: 0 }),
    {
        CompletionEntry { dw0: 0, dw1: 0, sq_head_sqid: 0, cid_status: 0 }
    }

    pub open spec fn spec_phase(self) -> bool {
        self.cid_status & 1u32 != 0u32
    }

    /// The phase bit of this completion entry.
    pub fn phase(&self) -> (r: bool)
        ensures
            r == self.spec_phase(),
    {
        self.cid_status & 1 != 0
    }

    pub open spec fn spec_status(self) -> u16 {
        ((self.cid_status >> 1) & 0x7FFF) as u16
    }

    /// The 15-bit status field.
    pub fn status(&self) -> (r: u16)
        ensures
            r == self.spec_status(),
    {
        ((self.cid_status >> 1) & 0x7FFF) as u16
    }

    pub open spec fn spec_command_id(self) -> u16 {
        (self.cid_status >> 16) as u16
    }

    /// The command identifier.
    pub fn command_id(&self) -> (r: u16)
        ensures
            r == self.spec_command_id(),
    {
        (self.cid_status >> 16) as u16
    }
}

/// A queue pair: one submission ring and one completion ring of a shared
/// size, with the producer tail, consumer head, next command id and the
/// expected phase.
pub struct QueuePair {
    id: u16,
    sq: Vec<SubmissionEntry>,
    cq: Vec<CompletionEntry>,
    sq_tail: u16,
    cq_head: u16,
    size: u16,
    cq_phase: bool,
    next_cid: u16,
}

impl QueuePair {
    pub closed spec fn spec_id(self) -> u16 {
        self.id
    }

    pub closed spec fn spec_sq(self) -> Seq<SubmissionEntry> {
        self.sq@
    }

    pub closed spec fn spec_cq(self) -> Seq<CompletionEntry> {
        self.cq@
    }

    pub closed spec fn spec_sq_tail(self) -> u16 {
        self.sq_tail
    }

    pub closed spec fn spec_cq_head(self) -> u16 {
        self.cq_head
    }

    pub closed spec fn spec_size(self) -> u16 {
        self.size
    }

    pub closed spec fn spec_cq_phase(self) -> bool {
        self.cq_phase
    }

    pub closed spec fn spec_next_cid(self) -> u16 {
        self.next_cid
    }

    /// The rings match the queue size and the cursors stay inside them.
    pub open spec fn wf(self) -> bool {
        &&& self.spec_sq().len() == self.spec_size()
        &&& self.spec_cq().len() == self.spec_size()
        &&& self.spec_sq_tail() < self.spec_size()
        &&& self.spec_cq_head() < self.spec_size()
        &&& 1 <= self.spec_size()
    }

    /// Allocate a queue pair of `size` entries, zero-initialized, with
    /// the expected phase starting at one.
    pub fn new(id: u16, size: u16) -> (r: Result<Self, AllocError>)
        ensures
            match r {
                Ok(q) => {
                    &&& size >= 1
                    &&& q.wf()
                    &&& q.spec_id() == id
                    &&& q.spec_size() == size
                    &&& q.spec_sq_tail() == 0
                    &&& q.spec_cq_head() == 0
                    &&& q.spec_cq_phase()
                    &&& q.spec_next_cid() == 0
                    &&& forall|i: int|
                        0 <= i < size ==> #[trigger] q.spec_cq()[i] == (CompletionEntry {
                            dw0: 0,
                            dw1: 0,
                            sq_head_sqid: 0,
                            cid_status: 0,
                        })
                },
                Err(e) => size == 0 && e == AllocError::InvalidSize,
            },
    {
        if size == 0 {
            return Err(AllocError::InvalidSize);
        }
        let mut sq: Vec<SubmissionEntry> = Vec::new();
        let mut cq: Vec<CompletionEntry> = Vec::new();
        let mut i: usize = 0;
        while i < size as usize
            invariant
                i <= size as int,
                sq@.len() == i,
                cq@.len() == i,
                forall|k: int|
                    0 <= k < i ==> #[trigger] cq@[k] == (CompletionEntry {
                        dw0: 0,
                        dw1: 0,
                        sq_head_sqid: 0,
                        cid_status: 0,
                    }),
            decreases size as int - i,
        {
            sq.push(SubmissionEntry::zeroed());
            cq.push(CompletionEntry::zeroed());
            i += 1;
        }
        Ok(QueuePair { id, sq, cq, sq_tail: 0, cq_head: 0, size, cq_phase: true, next_cid: 0 })
    }

    pub fn id(&self) -> (r: u16)
        ensures
            r == self.spec_id(),
    {
        self.id
    }

    pub fn sq_tail(&self) -> (r: u16)
        ensures
            r == self.spec_sq_tail(),
    {
        self.sq_tail
    }

    pub fn cq_head(&self) -> (r: u16)
        ensures
            r == self.spec_cq_head(),
    {
        self.cq_head
    }

    /// Place an entry in the submission ring: stamp the next command id
    /// into bits 31:16 of dword 0, store at the tail, and advance the tail
    /// modulo the queue size. The caller rings the doorbell afterwards.
    pub fn submit(&mut self, entry: SubmissionEntry)
        requires
            old(self).wf(),
        ensures
            final(self).wf(),
            final(self).spec_id() == old(self).spec_id(),
            final(self).spec_size() == old(self).spec_size(),
            final(self).spec_cq() == old(self).spec_cq(),
            final(self).spec_cq_head() == old(self).spec_cq_head(),
            final(self).spec_cq_phase() == old(self).spec_cq_phase(),
            final(self).spec_next_cid() == old(self).spec_next_cid().wrapping_add(1),
            final(self).spec_sq() == old(self).spec_sq().update(
                old(self).spec_sq_tail() as int,
                SubmissionEntry {
                    cdw0: (entry.cdw0 & 0xFFFF) | ((old(self).spec_next_cid() as u32) << 16),
                    ..entry
                },
            ),
            final(self).spec_sq_tail() == (old(self).spec_sq_tail() + 1) % (old(self).spec_size() as int),
    {
        let cid = self.next_cid;
        self.next_cid = self.next_cid.wrapping_add(1);
        let mut e = entry;
        e.cdw0 = (entry.cdw0 & 0xFFFF) | ((cid as u32) << 16);
        let tail = self.sq_tail as usize;
        self.sq[tail] = e;
        self.sq_tail = (self.sq_tail + 1) % self.size;
    }

    /// Poll the completion ring: a new completion is one whose phase bit
    /// matches the expected phase. On a match the head advances modulo the
    /// size, the expected phase flips on wrap-around, and the status is
    /// returned; otherwise the ring is quiet. The caller rings the
    /// completion doorbell with the new head.
    pub fn poll_completion(&mut self) -> (r: Option<u16>)
        requires
            old(self).wf(),
        ensures
            final(self).wf(),
            final(self).spec_id() == old(self).spec_id(),
            final(self).spec_size() == old(self).spec_size(),
            final(self).spec_sq() == old(self).spec_sq(),
            final(self).spec_sq_tail() == old(self).spec_sq_tail(),
            final(self).spec_cq() == old(self).spec_cq(),
            final(self).spec_next_cid() == old(self).spec_next_cid(),
            ({
                let cqe = old(self).spec_cq()[old(self).spec_cq_head() as int];
                if cqe.spec_phase() == old(self).spec_cq_phase() {
                    &&& r == Some(cqe.spec_status())
                    &&& final(self).spec_cq_head() == (old(self).spec_cq_head() + 1) % (old(
                        self,
                    ).spec_size() as int)
                    &&& final(self).spec_cq_phase() == (if final(self).spec_cq_head() == 0 {
                        !old(self).spec_cq_phase()
                    } else {
                        old(self).spec_cq_phase()
                    })
                } else {
                    &&& r is None
                    &&& final(self).spec_cq_head() == old(self).spec_cq_head()
                    &&& final(self).spec_cq_phase() == old(self).spec_cq_phase()
                }
            }),
    {
        let head = self.cq_head as usize;
        let cqe = self.cq[head];
        if cqe.phase() == self.cq_phase {
            self.cq_head = (self.cq_head + 1) % self.size;
            if self.cq_head == 0 {
                self.cq_phase = !self.cq_phase;
            }
            Some(cqe.status())
        } else {
            None
        }
    }
}

/// The admin queue — the same ring structure behind an optional slot, so
/// the driver can exist before its queues do.
pub struct AdminQueue {
    inner: Option<QueuePair>,
}

impl AdminQueue {
    pub closed spec fn spec_inner(self) -> Option<QueuePair> {
        self.inner
    }

    pub open spec fn wf(self) -> bool {
        self.spec_inner() matches Some(q) && q.wf()
    }

    /// An admin queue with no rings yet.
    pub fn uninit() -> (r: Self)
        ensures
            r.spec_inner() is None,
    {
        AdminQueue { inner: None }
    }

    /// Allocate the admin queue pair (queue id 0).
    pub fn new(size: u16) -> (r: Result<Self, AllocError>)
        ensures
            match r {
                Ok(q) => {
                    &&& size >= 1
                    &&& q.wf()
                    &&& q.spec_inner() matches Some(p) && p.spec_id() == 0 && p.spec_size() == size
                        && p.spec_sq_tail() == 0 && p.spec_cq_head() == 0
                },
                Err(e) => size == 0 && e == AllocError::InvalidSize,
            },
    {
        match QueuePair::new(0, size) {
            Ok(q) => Ok(AdminQueue { inner: Some(q) }),
            Err(e) => Err(e),
        }
    }

    pub fn sq_tail(&self) -> (r: u16)
        requires
            self.wf(),
        ensures
            self.spec_inner() matches Some(q) && r == q.spec_sq_tail(),
    {
        match &self.inner {
            Some(q) => q.sq_tail(),
            None => 0,
        }
    }

    pub fn cq_head(&self) -> (r: u16)
        requires
            self.wf(),
        ensures
            self.spec_inner() matches Some(q) && r == q.spec_cq_head(),
    {
        match &self.inner {
            Some(q) => q.cq_head(),
            None => 0,
        }
    }

    /// Stamp and store an entry in the admin submission ring.
    pub fn submit(&mut self, entry: SubmissionEntry)
        requires
            old(self).wf(),
        ensures
            final(self).wf(),
            old(self).spec_inner() matches Some(p) && final(self).spec_inner() matches Some(q)
                && q.spec_sq() == p.spec_sq().update(
                p.spec_sq_tail() as int,
                SubmissionEntry {
                    cdw0: (entry.cdw0 & 0xFFFF) | ((p.spec_next_cid() as u32) << 16),
                    ..entry
                },
            ) && q.spec_sq_tail() == (p.spec_sq_tail() + 1) % (p.spec_size() as int) && q.spec_cq()
                == p.spec_cq(),
    {
        match &mut self.inner {
            Some(q) => q.submit(entry),
            None => (),
        }
    }

    /// Poll the admin completion ring.
    pub fn poll_completion(&mut self) -> (r: Option<u16>)
        requires
            old(self).wf(),
        ensures
            final(self).wf(),
            old(self).spec_inner() matches Some(p) && final(self).spec_inner() matches Some(q) && (
            {
                let cqe = p.spec_cq()[p.spec_cq_head() as int];
                if cqe.spec_phase() == p.spec_cq_phase() {
                    r == Some(cqe.spec_status()) && q.spec_cq_head() == (p.spec_cq_head() + 1)
                        % (p.spec_size() as int)
                } else {
                    r is None && q.spec_cq_head() == p.spec_cq_head()
                }
            }),
    {
        match &mut self.inner {
            Some(q) => q.poll_completion(),
            None => None,
        }
    }
}

/// Namespace identification data, parsed from an Identify Namespace
/// response: block count from NSZE, block size from the selected LBA
/// format's LBADS power of two.
#[derive(Clone, Copy, PartialEq, Eq, Structural, Debug)]
pub struct NamespaceInfo {
    pub nsid: u32,
    pub block_count: u64,
    pub block_size: u32,
    pub metadata_size: u32,
}

} // verus!

//! WAL shared memory: SQLite's WAL index regions and its eight-slot lock
//! array, with the usual reader/writer rules. In this single-address-space
//! design plain allocations back the shared regions.

use vstd::prelude::*;

use crate::vfs::{SQLITE_BUSY, SQLITE_OK};

verus! {

/// Number of WAL lock slots.
pub const SQLITE_SHM_NLOCK: usize = 8;

pub const SQLITE_SHM_UNLOCK: i32 = 1;

pub const SQLITE_SHM_LOCK: i32 = 2;

pub const SQLITE_SHM_SHARED: i32 = 4;

pub const SQLITE_SHM_EXCLUSIVE: i32 = 8;

/// One lock slot: a count of shared holders and at most one exclusive
/// holder, never both.
#[derive(Clone, Copy, PartialEq, Eq, Structural, Debug)]
pub struct ShmLockState {
    pub shared_count: u32,
    pub exclusive: bool,
}

impl ShmLockState {
    /// Shared and exclusive holders exclude each other.
    pub open spec fn wf(self) -> bool {
        self.exclusive ==> self.shared_count == 0
    }

    pub fn initial() -> (r: Self)
        ensures
            r.wf(),
            r.shared_count == 0,
            !r.exclusive,
    {
        ShmLockState { shared_count: 0, exclusive: false }
    }

    /// Take a shared lock; fails against an exclusive holder (or a full
    /// counter).
    pub fn try_shared(&mut self) -> (r: bool)
        requires
            old(self).wf(),
        ensures
            final(self).wf(),
            r == (!old(self).exclusive && old(self).shared_count < u32::MAX),
            r ==> *final(self) == (ShmLockState {
                shared_count: (old(self).shared_count + 1) as u32,
                exclusive: false,
            }),
            !r ==> *final(self) == *old(self),
    {
        if self.exclusive || self.shared_count == u32::MAX {
            return false;
        }
        self.shared_count = self.shared_count + 1;
        true
    }

    /// Take the exclusive lock; fails against any holder.
    pub fn try_exclusive(&mut self) -> (r: bool)
        requires
            old(self).wf(),
        ensures
            final(self).wf(),
            r == (!old(self).exclusive && old(self).shared_count == 0),
            r ==> *final(self) == (ShmLockState { shared_count: 0, exclusive: true }),
            !r ==> *final(self) == *old(self),
    {
        if self.exclusive || self.shared_count > 0 {
            return false;
        }
        self.exclusive = true;
        true
    }

    pub fn release_shared(&mut self)
        requires
            old(self).wf(),
            old(self).shared_count > 0,
        ensures
            final(self).wf(),
            *final(self) == (ShmLockState {
                shared_count: (old(self).shared_count - 1) as u32,
                exclusive: old(self).exclusive,
            }),
    {
        self.shared_count = self.shared_count - 1;
    }

    pub fn release_exclusive(&mut self)
        requires
            old(self).wf(),
            old(self).exclusive,
        ensures
            final(self).wf(),
            *final(self) == (ShmLockState { shared_count: 0, exclusive: false }),
    {
        self.exclusive = false;
    }
}

/// WAL shared-memory state: the mapped regions and the lock array.
pub struct WalShm {
    regions: Vec<Vec<u8>>,
    locks: Vec<ShmLockState>,
}

impl WalShm {
    pub closed spec fn spec_regions(self) -> Seq<Seq<u8>> {
        Seq::new(self.regions@.len(), |i: int| self.regions@[i]@)
    }

    pub closed spec fn locks(self) -> Seq<ShmLockState> {
        self.locks@
    }

    /// Every slot keeps readers and the writer apart.
    pub open spec fn wf(self) -> bool {
        &&& self.locks().len() == SQLITE_SHM_NLOCK
        &&& forall|i: int| 0 <= i < SQLITE_SHM_NLOCK ==> (#[trigger] self.locks()[i]).wf()
    }

    pub fn new() -> (r: Self)
        ensures
            r.wf(),
            r.spec_regions().len() == 0,
            forall|i: int|
                0 <= i < SQLITE_SHM_NLOCK ==> #[trigger] r.locks()[i] == (ShmLockState {
                    shared_count: 0,
                    exclusive: false,
                }),
    {
        let mut locks: Vec<ShmLockState> = Vec::new();
        let mut i: usize = 0;
        while i < SQLITE_SHM_NLOCK
            invariant
                i <= SQLITE_SHM_NLOCK,
                locks@.len() == i,
                forall|k: int|
                    0 <= k < i ==> #[trigger] locks@[k] == (ShmLockState {
                        shared_count: 0,
                        exclusive: false,
                    }),
            decreases SQLITE_SHM_NLOCK - i,
        {
            locks.push(ShmLockState::initial());
            i += 1;
        }
        WalShm { regions: Vec::new(), locks }
    }

    /// Map region `region`, lazily extending the vector with zero-filled
    /// regions of `region_size` bytes. Repeated calls see the same region.
    pub fn shm_map(&mut self, region: usize, region_size: usize) -> (r: i32)
        requires
            old(self).wf(),
            region < 0x1000,
            region_size <= 0x1_0000,
        ensures
            final(self).wf(),
            r == SQLITE_OK,
            final(self).locks() == old(self).locks(),
            final(self).spec_regions().len() > region,
            forall|i: int|
                0 <= i < old(self).spec_regions().len() ==> #[trigger] final(self).spec_regions()[
                    i] == old(self).spec_regions()[i],
            forall|i: int|
                old(self).spec_regions().len() <= i < final(self).spec_regions().len() ==> (
                #[trigger] final(self).spec_regions()[i]).len() == region_size && forall|k: int|
                    0 <= k < region_size ==> final(self).spec_regions()[i][k] == 0u8,
    {
        while self.regions.len() <= region
            invariant
                self.wf(),
                self.locks() == old(self).locks(),
                self.spec_regions().len() >= old(self).spec_regions().len(),
                forall|i: int|
                    0 <= i < old(self).spec_regions().len() ==> #[trigger] self.spec_regions()[i]
                        == old(self).spec_regions()[i],
                forall|i: int|
                    old(self).spec_regions().len() <= i < self.spec_regions().len() ==> (
                    #[trigger] self.spec_regions()[i]).len() == region_size && forall|k: int|
                        0 <= k < region_size ==> self.spec_regions()[i][k] == 0u8,
            decreases region + 1 - self.regions@.len(),
        {
            let mut reg: Vec<u8> = Vec::new();
            let mut k: usize = 0;
            while k < region_size
                invariant
                    k <= region_size,
                    reg@.len() == k,
                    forall|x: int| 0 <= x < k ==> reg@[x] == 0u8,
                decreases region_size - k,
            {
                reg.push(0u8);
                k += 1;
            }
            let ghost pre = *self;
            self.regions.push(reg);
            proof {
                assert forall|i: int|
                    0 <= i < pre.spec_regions().len() implies #[trigger] self.spec_regions()[i]
                    == pre.spec_regions()[i] by {}
                assert(self.spec_regions()[pre.spec_regions().len() as int] == reg@);
            }
        }
        SQLITE_OK
    }

    /// The mapped region at `idx`.
    pub fn region(&self, idx: usize) -> (r: &Vec<u8>)
        requires
            idx < self.spec_regions().len(),
        ensures
            r@ == self.spec_regions()[idx as int],
    {
        &self.regions[idx]
    }

    /// Apply the reader/writer rules to slots `[offset, offset + n)`.
    /// On a conflict every partial acquisition is rolled back and the call
    /// reports `SQLITE_BUSY`; no slot ever holds a reader and the writer
    /// at once.
    pub fn shm_lock(&mut self, offset: usize, n: usize, flags: i32) -> (r: i32)
        requires
            old(self).wf(),
            offset + n <= SQLITE_SHM_NLOCK,
            flags & SQLITE_SHM_LOCK == 0 ==> ({
                // Unlocking only what is actually held.
                &&& (flags & SQLITE_SHM_EXCLUSIVE != 0 ==> forall|i: int|
                    offset <= i < offset + n ==> (#[trigger] old(self).locks()[i]).exclusive)
                &&& (flags & SQLITE_SHM_EXCLUSIVE == 0 ==> forall|i: int|
                    offset <= i < offset + n ==> (#[trigger] old(self).locks()[i]).shared_count
                        > 0)
            }),
        ensures
            final(self).wf(),
            final(self).spec_regions() == old(self).spec_regions(),
            final(self).locks().len() == old(self).locks().len(),
            ({
                let after = final(self).locks();
                forall|i: int|
                    0 <= i < SQLITE_SHM_NLOCK && !(offset <= i < offset + n) ==> #[trigger] after[
                        i] == old(self).locks()[i]
            }),
            r == SQLITE_OK || r == SQLITE_BUSY,
            flags & SQLITE_SHM_LOCK != 0 && flags & SQLITE_SHM_EXCLUSIVE != 0 ==> ({
                let can = forall|i: int|
                    offset <= i < offset + n ==> !(#[trigger] old(self).locks()[i]).exclusive
                        && old(self).locks()[i].shared_count == 0;
                &&& r == SQLITE_OK <==> can
                &&& can ==> forall|i: int|
                    offset <= i < offset + n ==> #[trigger] final(self).locks()[i] == (
                    ShmLockState { shared_count: 0, exclusive: true })
                &&& !can ==> final(self).locks() == old(self).locks()
            }),
            flags & SQLITE_SHM_LOCK != 0 && flags & SQLITE_SHM_EXCLUSIVE == 0 ==> ({
                let can = forall|i: int|
                    offset <= i < offset + n ==> !(#[trigger] old(self).locks()[i]).exclusive
                        && old(self).locks()[i].shared_count < u32::MAX;
                &&& r == SQLITE_OK <==> can
                &&& can ==> forall|i: int|
                    offset <= i < offset + n ==> #[trigger] final(self).locks()[i] == (
                    ShmLockState {
                        shared_count: (old(self).locks()[i].shared_count + 1) as u32,
                        exclusive: false,
                    })
                &&& !can ==> final(self).locks() == old(self).locks()
            }),
            flags & SQLITE_SHM_LOCK == 0 ==> ({
                &&& r == SQLITE_OK
                &&& flags & SQLITE_SHM_EXCLUSIVE != 0 ==> forall|i: int|
                    offset <= i < offset + n ==> #[trigger] final(self).locks()[i] == (
                    ShmLockState { shared_count: 0, exclusive: false })
                &&& flags & SQLITE_SHM_EXCLUSIVE == 0 ==> forall|i: int|
                    offset <= i < offset + n ==> #[trigger] final(self).locks()[i] == (
                    ShmLockState {
                        shared_count: (old(self).locks()[i].shared_count - 1) as u32,
                        exclusive: old(self).locks()[i].exclusive,
                    })
            }),
    {
        let is_lock = flags & SQLITE_SHM_LOCK != 0;
        let is_exclusive = flags & SQLITE_SHM_EXCLUSIVE != 0;
        proof {
            assert(is_lock == (flags & SQLITE_SHM_LOCK != 0));
            assert(is_exclusive == (flags & SQLITE_SHM_EXCLUSIVE != 0));
        }

        if is_lock {
            // First pass: check that every slot can be taken.
            let mut i: usize = offset;
            while i < offset + n
                invariant
                    self.wf(),
                    *self == *old(self),
                    offset <= i <= offset + n,
                    offset + n <= SQLITE_SHM_NLOCK,
                    flags & SQLITE_SHM_LOCK != 0,
                    is_exclusive == (flags & SQLITE_SHM_EXCLUSIVE != 0),
                    forall|k: int|
                        offset <= k < i ==> !(#[trigger] self.locks()[k]).exclusive && (
                        if is_exclusive {
                            self.locks()[k].shared_count == 0
                        } else {
                            self.locks()[k].shared_count < u32::MAX
                        }),
                decreases offset + n - i,
            {
                let slot = &self.locks[i];
                let blocked = if is_exclusive {
                    slot.exclusive || slot.shared_count > 0
                } else {
                    slot.exclusive || slot.shared_count == u32::MAX
                };
                if blocked {
                    proof {
                        assert(self.locks()[i as int] == old(self).locks()[i as int]);
                        if is_exclusive {
                            assert(!(forall|k: int|
                                offset <= k < offset + n ==> !(#[trigger] old(self).locks()[
                                k]).exclusive && old(self).locks()[k].shared_count == 0)) by {
                                assert(old(self).locks()[i as int].exclusive || old(self).locks()[
                                    i as int].shared_count > 0);
                            }
                        } else {
                            assert(!(forall|k: int|
                                offset <= k < offset + n ==> !(#[trigger] old(self).locks()[
                                k]).exclusive && old(self).locks()[k].shared_count < u32::MAX))
                                by {
                                assert(old(self).locks()[i as int].exclusive || old(self).locks()[
                                    i as int].shared_count >= u32::MAX);
                            }
                        }
                    }
                    return SQLITE_BUSY;
                }
                i += 1;
            }
            // Second pass: take them all.
            let mut i: usize = offset;
            while i < offset + n
                invariant
                    self.wf(),
                    offset <= i <= offset + n,
                    offset + n <= SQLITE_SHM_NLOCK,
                    flags & SQLITE_SHM_LOCK != 0,
                    is_exclusive == (flags & SQLITE_SHM_EXCLUSIVE != 0),
                    self.locks().len() == SQLITE_SHM_NLOCK,
                    self.spec_regions() == old(self).spec_regions(),
                    forall|k: int|
                        0 <= k < SQLITE_SHM_NLOCK && !(offset <= k < i) ==> #[trigger] self.locks(
                        )[k] == old(self).locks()[k],
                    is_exclusive ==> forall|k: int|
                        offset <= k < i ==> #[trigger] self.locks()[k] == (ShmLockState {
                            shared_count: 0,
                            exclusive: true,
                        }),
                    !is_exclusive ==> forall|k: int|
                        offset <= k < i ==> #[trigger] self.locks()[k] == (ShmLockState {
                            shared_count: (old(self).locks()[k].shared_count + 1) as u32,
                            exclusive: false,
                        }),
                    forall|k: int|
                        i <= k < offset + n ==> !(#[trigger] self.locks()[k]).exclusive && (
                        if is_exclusive {
                            self.locks()[k].shared_count == 0
                        } else {
                            self.locks()[k].shared_count < u32::MAX
                        }),
                decreases offset + n - i,
            {
                let slot = &mut self.locks[i];
                if is_exclusive {
                    slot.try_exclusive();
                } else {
                    slot.try_shared();
                }
                i += 1;
            }
            SQLITE_OK
        } else {
            let mut i: usize = offset;
            while i < offset + n
                invariant
                    self.wf(),
                    offset <= i <= offset + n,
                    offset + n <= SQLITE_SHM_NLOCK,
                    flags & SQLITE_SHM_LOCK == 0,
                    is_exclusive == (flags & SQLITE_SHM_EXCLUSIVE != 0),
                    flags & SQLITE_SHM_EXCLUSIVE != 0 ==> forall|k: int|
                        i <= k < offset + n ==> (#[trigger] old(self).locks()[k]).exclusive,
                    flags & SQLITE_SHM_EXCLUSIVE == 0 ==> forall|k: int|
                        i <= k < offset + n ==> (#[trigger] old(self).locks()[k]).shared_count
                            > 0,
                    self.locks().len() == SQLITE_SHM_NLOCK,
                    self.spec_regions() == old(self).spec_regions(),
                    forall|k: int|
                        0 <= k < SQLITE_SHM_NLOCK && !(offset <= k < i) ==> #[trigger] self.locks(
                        )[k] == old(self).locks()[k],
                    is_exclusive ==> forall|k: int|
                        offset <= k < i ==> #[trigger] self.locks()[k] == (ShmLockState {
                            shared_count: 0,
                            exclusive: false,
                        }),
                    !is_exclusive ==> forall|k: int|
                        offset <= k < i ==> #[trigger] self.locks()[k] == (ShmLockState {
                            shared_count: (old(self).locks()[k].shared_count - 1) as u32,
                            exclusive: old(self).locks()[k].exclusive,
                        }),
                    is_exclusive ==> forall|k: int|
                        i <= k < offset + n ==> (#[trigger] self.locks()[k]).exclusive,
                    !is_exclusive ==> forall|k: int|
                        i <= k < offset + n ==> (#[trigger] self.locks()[k]).shared_count > 0,
                decreases offset + n - i,
            {
                let slot = &mut self.locks[i];
                if is_exclusive {
                    slot.release_exclusive();
                } else {
                    slot.release_shared();
                }
                i += 1;
            }
            SQLITE_OK
        }
    }

    /// Drop the regions when `delete_flag` is set.
    pub fn shm_unmap(&mut self, delete_flag: bool) -> (r: i32)
        requires
            old(self).wf(),
        ensures
            final(self).wf(),
            r == SQLITE_OK,
            final(self).locks() == old(self).locks(),
            delete_flag ==> final(self).spec_regions().len() == 0,
            !delete_flag ==> final(self).spec_regions() == old(self).spec_regions(),
    {
        if delete_flag {
            self.regions = Vec::new();
            proof {
                assert(self.spec_regions() =~= Seq::<Seq<u8>>::empty());
            }
        }
        SQLITE_OK
    }
}

} // verus!

//! Kernel heap sizing rules.
//!
//! The heap serves slab classes of 8 to 4096 bytes backed by page-sized
//! refills; each object carries a 16-byte header holding its size and
//! class so that freeing needs no size argument. Allocations above the
//! largest class bypass the slabs and take whole contiguous pages. The
//! free-list surgery itself is raw-pointer work and stays with the
//! platform layer; the sizing decisions it relies on are here.

use vstd::prelude::*;

verus! {

/// Bytes of bookkeeping in front of every heap object.
pub const HEADER_SIZE: usize = 16;

/// The slab class sizes, smallest first.
pub open spec fn spec_class_size(c: int) -> int {
    8 * vstd::arithmetic::power2::pow2((c) as nat) as int
}

/// Number of slab classes: 8, 16, 32, 64, 128, 256, 512, 1024, 2048, 4096.
pub const NUM_CLASSES: usize = 10;

/// The object size of slab class `c`.
pub fn class_size(c: usize) -> (r: usize)
    requires
        c < NUM_CLASSES,
    ensures
        r == spec_class_size(c as int),
        8 <= r <= 4096,
{
    proof {
        vstd::arithmetic::power2::lemma2_to64();
    }
    match c {
        0 => 8,
        1 => 16,
        2 => 32,
        3 => 64,
        4 => 128,
        5 => 256,
        6 => 512,
        7 => 1024,
        8 => 2048,
        _ => 4096,
    }
}

/// The smallest slab class that fits `size` bytes, or nothing when the
/// request must bypass the slabs.
pub fn class_for_size(size: usize) -> (r: Option<usize>)
    ensures
        match r {
            Some(c) => {
                &&& c < NUM_CLASSES
                &&& size <= spec_class_size(c as int)
                &&& c > 0 ==> size > spec_class_size(c as int - 1)
            },
            None => size > 4096,
        },
{
    proof {
        vstd::arithmetic::power2::lemma2_to64();
    }
    if size <= 8 {
        Some(0)
    } else if size <= 16 {
        Some(1)
    } else if size <= 32 {
        Some(2)
    } else if size <= 64 {
        Some(3)
    } else if size <= 128 {
        Some(4)
    } else if size <= 256 {
        Some(5)
    } else if size <= 512 {
        Some(6)
    } else if size <= 1024 {
        Some(7)
    } else if size <= 2048 {
        Some(8)
    } else if size <= 4096 {
        Some(9)
    } else {
        None
    }
}

/// How many header-prefixed objects of class `c` one 4096-byte refill
/// page carves.
pub fn objects_per_page(c: usize) -> (r: usize)
    requires
        c < NUM_CLASSES,
    ensures
        r == 4096int / (spec_class_size(c as int) + HEADER_SIZE as int),
        c < 9 ==> r >= 1,
    {
    let sz = class_size(c);
    let r = 4096 / (sz + HEADER_SIZE);
    proof {
        vstd::arithmetic::power2::lemma2_to64();
        if c < 9 {
            assert(sz + 16 <= 2064);
            assert(4096int / (sz as int + 16) >= 1) by (nonlinear_arith)
                requires
                    1 <= sz as int + 16 <= 2064,
            ;
        }
    }
    r
}

/// How many contiguous pages a large allocation of `size` bytes takes,
/// header included.
pub fn pages_for_large(size: usize) -> (r: usize)
    requires
        size <= usize::MAX - HEADER_SIZE - 4095,
    ensures
        r == (size + HEADER_SIZE + 4095) / 4096,
        r * 4096 >= size + HEADER_SIZE,
{
    let r = (size + HEADER_SIZE + 4095) / 4096;
    proof {
        let s = size as int;
        assert(((s + 16 + 4095) / 4096) * 4096 >= s + 16) by (nonlinear_arith)
            requires
                s >= 0,
        ;
    }
    r
}

} // verus!

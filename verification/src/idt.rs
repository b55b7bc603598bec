//! Interrupt descriptor table entries: the 16-byte x86-64 gate
//! descriptors, packed field by field. Loading the table into the CPU is
//! hardware work and stays with the platform layer.

use vstd::prelude::*;

verus! {

/// Kernel code segment selector.
pub const KERNEL_CS: u16 = 0x08;

/// IDT entry (16 bytes on x86-64).
#[derive(Clone, Copy, PartialEq, Eq, Structural, Debug)]
pub struct IdtEntry {
    pub offset_low: u16,
    pub selector: u16,
    pub ist: u8,
    pub type_attr: u8,
    pub offset_mid: u16,
    pub offset_high: u32,
    pub reserved: u32,
}

impl IdtEntry {
    /// A non-present entry.
    pub fn missing() -> (r: Self)
        ensures
            r == IdtEntry::spec_missing(),
    {
        IdtEntry {
            offset_low: 0,
            selector: 0,
            ist: 0,
            type_attr: 0,
            offset_mid: 0,
            offset_high: 0,
            reserved: 0,
        }
    }

    pub open spec fn spec_missing() -> IdtEntry {
        IdtEntry {
            offset_low: 0,
            selector: 0,
            ist: 0,
            type_attr: 0,
            offset_mid: 0,
            offset_high: 0,
            reserved: 0,
        }
    }

    /// The handler address reassembled from the three offset fields.
    pub open spec fn spec_handler(self) -> u64 {
        (self.offset_low as u64) | ((self.offset_mid as u64) << 16) | ((self.offset_high as u64)
            << 32)
    }

    /// A present interrupt gate entry (DPL = 0).
    pub fn interrupt_gate(handler: u64) -> (r: Self)
        ensures
            r.spec_handler() == handler,
            r.selector == KERNEL_CS,
            r.ist == 0,
            r.type_attr == 0x8E,
            r.reserved == 0,
    {
        let r = IdtEntry {
            offset_low: handler as u16,
            selector: KERNEL_CS,
            ist: 0,
            type_attr: 0x8E,
            offset_mid: (handler >> 16) as u16,
            offset_high: (handler >> 32) as u32,
            reserved: 0,
        };
        proof {
            lemma_handler_split(handler);
        }
        r
    }

    /// An interrupt gate that runs on IST entry `ist_index` (1 to 7).
    pub fn interrupt_gate_ist(handler: u64, ist_index: u8) -> (r: Self)
        ensures
            r.spec_handler() == handler,
            r.selector == KERNEL_CS,
            r.ist == ist_index & 0x7,
            r.type_attr == 0x8E,
            r.reserved == 0,
    {
        let r = IdtEntry {
            offset_low: handler as u16,
            selector: KERNEL_CS,
            ist: ist_index & 0x7,
            type_attr: 0x8E,
            offset_mid: (handler >> 16) as u16,
            offset_high: (handler >> 32) as u32,
            reserved: 0,
        };
        proof {
            lemma_handler_split(handler);
        }
        r
    }

    /// A trap gate entry (DPL = 0, interrupts stay enabled).
    pub fn trap_gate(handler: u64) -> (r: Self)
        ensures
            r.spec_handler() == handler,
            r.selector == KERNEL_CS,
            r.ist == 0,
            r.type_attr == 0x8F,
            r.reserved == 0,
    {
        let r = IdtEntry {
            offset_low: handler as u16,
            selector: KERNEL_CS,
            ist: 0,
            type_attr: 0x8F,
            offset_mid: (handler >> 16) as u16,
            offset_high: (handler >> 32) as u32,
            reserved: 0,
        };
        proof {
            lemma_handler_split(handler);
        }
        r
    }
}

/// Splitting an address into low, mid and high parts loses nothing.
proof fn lemma_handler_split(handler: u64)
    ensures
        ((handler as u16) as u64) | (((handler >> 16) as u16 as u64) << 16) | (((handler >> 32)
            as u32 as u64) << 32) == handler,
{
    assert(((handler as u16) as u64) | (((handler >> 16) as u16 as u64) << 16) | (((handler >> 32)
        as u32 as u64) << 32) == handler) by (bit_vector);
}

/// The IDT — 256 entries.
pub struct Idt {
    pub entries: [IdtEntry; 256],
}

impl Idt {
    /// A table of 256 non-present entries.
    pub fn new() -> (r: Self)
        ensures
            forall|i: int| 0 <= i < 256 ==> r.entries@[i] == IdtEntry::spec_missing(),
    {
        let e = IdtEntry::missing();
        let r = Idt { entries: [e; 256] };
        proof {
            vstd::array::axiom_spec_array_fill_for_copy_type::<IdtEntry, 256>(e);
        }
        r
    }
}

/// Interrupt stack frame pushed by the CPU before a handler runs.
#[derive(Clone, Copy, PartialEq, Eq, Structural, Debug)]
pub struct InterruptFrame {
    pub rip: u64,
    pub cs: u64,
    pub rflags: u64,
    pub rsp: u64,
    pub ss: u64,
}

} // verus!

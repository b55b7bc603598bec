//! Storage core of a bare-metal operating system that exposes a single
//! SQLite database as the user-visible filesystem.
//!
//! The stack, bottom up:
//! - a bitmap-based physical page allocator and DMA buffers,
//! - NVMe submission/completion queue structures and command encoding,
//! - an on-device block allocator (superblock + persistent free bitmap),
//! - a flat name-to-extent file table in a single device block,
//! - a SQLite VFS adapter translating byte-granular I/O into block I/O.
//!
//! Device I/O goes through the [`block_device::BlockDevice`] trait; the
//! RAM-backed [`mock_device::RamDisk`] implements it for testing.

pub mod api;
pub mod bits;
pub mod block_alloc;
pub mod block_device;
pub mod bytes;
pub mod clock;
pub mod der;
pub mod dma;
pub mod file_table;
pub mod heap;
pub mod http;
pub mod idt;
pub mod mock_device;
pub mod nvme_command;
pub mod nvme_ctrl;
pub mod nvme_queue;
pub mod phys;
pub mod styx;
pub mod vfs;
pub mod wal;

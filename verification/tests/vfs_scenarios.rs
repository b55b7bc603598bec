//! End-to-end scenarios through the VFS adapter over a RAM-backed device.

use heavenos_core::block_alloc::BlockAllocator;
use heavenos_core::file_table::FileTable;
use heavenos_core::mock_device::RamDisk;
use heavenos_core::vfs::{HeavenVfs, SQLITE_IOERR_SHORT_READ, SQLITE_OK, SQLITE_OPEN_CREATE};

/// Format a 1,024-block device and build a VFS over it.
fn fresh_vfs() -> (RamDisk, HeavenVfs) {
    let mut ram = RamDisk::new(1024, 4096);
    let alloc = BlockAllocator::format(&mut ram, 1024, 4096).unwrap();
    let ft_lba = alloc.data_start_lba() - 1;
    let ft = FileTable::new(ft_lba, 4096);
    (ram, HeavenVfs::new(alloc, ft))
}

#[test]
fn format_geometry() {
    let mut ram = RamDisk::new(1024, 4096);
    let alloc = BlockAllocator::format(&mut ram, 1024, 4096).unwrap();
    assert!(alloc.free_count() >= 1020);
    assert_eq!(alloc.data_start_lba(), 3);
    assert_eq!(alloc.block_size(), 4096);
    // Every data block starts free.
    let mut reread = BlockAllocator::load(&mut ram).unwrap();
    assert_eq!(reread.free_count(), alloc.free_count());
    let _ = reread.allocate(1).unwrap();
}

#[test]
fn create_write_sync_read_back() {
    let (mut ram, mut vfs) = fresh_vfs();
    let mut file = vfs.open(b"heaven.db", SQLITE_OPEN_CREATE).unwrap();

    let data = vec![0xABu8; 102400];
    assert_eq!(vfs.write(&mut ram, &mut file, &data, 0), SQLITE_OK);
    assert_eq!(vfs.sync(&mut ram, &file), SQLITE_OK);

    let mut back = vec![0u8; 102400];
    assert_eq!(vfs.read(&mut ram, &file, &mut back, 0), SQLITE_OK);
    assert_eq!(back, data);

    // The synced file table entry carries the byte length.
    let reopened = vfs.open(b"heaven.db", 0).unwrap();
    assert_eq!(reopened.byte_length, 102400);
}

#[test]
fn small_write_into_empty_file() {
    let (mut ram, mut vfs) = fresh_vfs();
    let mut file = vfs.open(b"t.db", SQLITE_OPEN_CREATE).unwrap();
    assert_eq!(file.byte_length, 0);

    let data = vec![0x7Eu8; 17];
    assert_eq!(vfs.write(&mut ram, &mut file, &data, 5), SQLITE_OK);
    assert_eq!(file.byte_length, 22);

    let mut back = vec![1u8; 17];
    assert_eq!(vfs.read(&mut ram, &file, &mut back, 5), SQLITE_OK);
    assert_eq!(back, data);

    // The gap before the written range reads as zeroes on a fresh device.
    let mut head = vec![1u8; 5];
    assert_eq!(vfs.read(&mut ram, &file, &mut head, 0), SQLITE_OK);
    assert_eq!(head, vec![0u8; 5]);
}

#[test]
fn growth_relocates_extent() {
    let (mut ram, mut vfs) = fresh_vfs();
    let mut file = vfs.open(b"grow.db", SQLITE_OPEN_CREATE).unwrap();
    assert_eq!(file.block_count, 16);
    let old_start = file.start_lba;
    let free_before = vfs.free_blocks();

    // 80 KiB does not fit the 16-block (64 KiB) initial extent.
    let data = vec![0x5Au8; 81920];
    assert_eq!(vfs.write(&mut ram, &mut file, &data, 0), SQLITE_OK);

    assert_eq!(file.block_count, 20);
    assert_ne!(file.start_lba, old_start);
    // The old extent went back to the allocator: net growth is 4 blocks.
    assert_eq!(vfs.free_blocks(), free_before - 4);

    let mut back = vec![0u8; 81920];
    assert_eq!(vfs.read(&mut ram, &file, &mut back, 0), SQLITE_OK);
    assert_eq!(back, data);

    // The file table entry moved with the handle.
    let reopened = vfs.open(b"grow.db", 0).unwrap();
    assert_eq!(reopened.start_lba, file.start_lba);
    assert_eq!(reopened.block_count, 20);
}

#[test]
fn sync_survives_cold_reload() {
    let (mut ram, mut vfs) = fresh_vfs();
    let mut file = vfs.open(b"persist.db", SQLITE_OPEN_CREATE).unwrap();

    let data = vec![0xC3u8; 4096];
    assert_eq!(vfs.write(&mut ram, &mut file, &data, 0), SQLITE_OK);
    assert_eq!(vfs.sync(&mut ram, &file), SQLITE_OK);

    // Cold reload: rebuild the allocator and the file table from LBAs.
    let alloc = BlockAllocator::load(&mut ram).unwrap();
    let ft_lba = alloc.data_start_lba() - 1;
    let ft = FileTable::load(&mut ram, ft_lba, 4096).unwrap();
    let mut vfs2 = HeavenVfs::new(alloc, ft);

    let file2 = vfs2.open(b"persist.db", 0).unwrap();
    assert_eq!(file2.byte_length, 4096);
    assert_eq!(file2.start_lba, file.start_lba);
    assert_eq!(file2.block_count, file.block_count);

    let mut back = vec![0u8; 4096];
    assert_eq!(vfs2.read(&mut ram, &file2, &mut back, 0), SQLITE_OK);
    assert_eq!(back, data);
}

#[test]
fn unaligned_write_preserves_neighbors() {
    let (mut ram, mut vfs) = fresh_vfs();
    let mut file = vfs.open(b"rmw.db", SQLITE_OPEN_CREATE).unwrap();

    // Pre-fill 8 KiB with 0x55.
    let fill = vec![0x55u8; 8192];
    assert_eq!(vfs.write(&mut ram, &mut file, &fill, 0), SQLITE_OK);

    // Unaligned 10-byte write spanning the block boundary at 4096.
    let patch = vec![0xA1u8; 10];
    assert_eq!(vfs.write(&mut ram, &mut file, &patch, 4090), SQLITE_OK);

    let mut window = vec![0u8; 30];
    assert_eq!(vfs.read(&mut ram, &file, &mut window, 4080), SQLITE_OK);
    assert_eq!(&window[0..10], &[0x55u8; 10]);
    assert_eq!(&window[10..20], &[0xA1u8; 10]);
    assert_eq!(&window[20..30], &[0x55u8; 10]);
}

#[test]
fn short_read_semantics() {
    let (mut ram, mut vfs) = fresh_vfs();
    let mut file = vfs.open(b"short.db", SQLITE_OPEN_CREATE).unwrap();
    let data = vec![9u8; 100];
    assert_eq!(vfs.write(&mut ram, &mut file, &data, 0), SQLITE_OK);

    // Entirely past end-of-file: zero-filled buffer, short read.
    let mut buf = vec![7u8; 16];
    assert_eq!(vfs.read(&mut ram, &file, &mut buf, 200), SQLITE_IOERR_SHORT_READ);
    assert_eq!(buf, vec![0u8; 16]);

    // Partially past end-of-file: the tail is zero.
    let mut buf2 = vec![7u8; 16];
    assert_eq!(vfs.read(&mut ram, &file, &mut buf2, 90), SQLITE_IOERR_SHORT_READ);
    assert_eq!(&buf2[0..10], &[9u8; 10]);
    assert_eq!(&buf2[10..16], &[0u8; 6]);
}

#[test]
fn delete_is_idempotent() {
    let (mut ram, mut vfs) = fresh_vfs();
    let mut file = vfs.open(b"gone.db", SQLITE_OPEN_CREATE).unwrap();
    let data = vec![1u8; 64];
    assert_eq!(vfs.write(&mut ram, &mut file, &data, 0), SQLITE_OK);
    let free_before_delete = vfs.free_blocks();

    assert_eq!(vfs.delete(b"gone.db"), SQLITE_OK);
    assert!(!vfs.access(b"gone.db"));
    assert_eq!(vfs.free_blocks(), free_before_delete + 16);
    // Deleting an absent name also succeeds.
    assert_eq!(vfs.delete(b"gone.db"), SQLITE_OK);
    assert_eq!(vfs.free_blocks(), free_before_delete + 16);
}

#[test]
fn truncate_shrinks_and_keeps_one_block() {
    let (mut ram, mut vfs) = fresh_vfs();
    let mut file = vfs.open(b"trunc.db", SQLITE_OPEN_CREATE).unwrap();
    let data = vec![4u8; 65536];
    assert_eq!(vfs.write(&mut ram, &mut file, &data, 0), SQLITE_OK);
    assert_eq!(file.block_count, 16);

    // Growing truncate is a no-op.
    assert_eq!(vfs.truncate(&mut file, 100000), SQLITE_OK);
    assert_eq!(file.byte_length, 65536);

    // Shrinking releases whole tail blocks.
    let free_before = vfs.free_blocks();
    assert_eq!(vfs.truncate(&mut file, 5000), SQLITE_OK);
    assert_eq!(file.byte_length, 5000);
    assert_eq!(file.block_count, 2);
    assert_eq!(vfs.free_blocks(), free_before + 14);

    // Truncating to zero keeps one block.
    assert_eq!(vfs.truncate(&mut file, 0), SQLITE_OK);
    assert_eq!(file.block_count, 1);
}

#[test]
fn write_full_leaves_everything_unchanged() {
    let (mut ram, mut vfs) = fresh_vfs();
    let mut file = vfs.open(b"big.db", SQLITE_OPEN_CREATE).unwrap();
    let before = (file.start_lba, file.block_count, file.byte_length, vfs.free_blocks());
    // More blocks than the device holds: exactly SQLITE_FULL, no change.
    let data = vec![1u8; 8 * 1024 * 1024];
    assert_eq!(vfs.write(&mut ram, &mut file, &data, 0), 13);
    assert_eq!(
        (file.start_lba, file.block_count, file.byte_length, vfs.free_blocks()),
        before
    );
}

#[test]
fn open_absent_without_create_fails() {
    let (_ram, mut vfs) = fresh_vfs();
    assert!(vfs.open(b"missing.db", 0).is_err());
    assert!(!vfs.access(b"missing.db"));
}

#[test]
fn close_writes_back_byte_length() {
    let (mut ram, mut vfs) = fresh_vfs();
    let mut file = vfs.open(b"close.db", SQLITE_OPEN_CREATE).unwrap();
    let data = vec![2u8; 300];
    assert_eq!(vfs.write(&mut ram, &mut file, &data, 0), SQLITE_OK);
    assert_eq!(vfs.close(&file), SQLITE_OK);

    let reopened = vfs.open(b"close.db", 0).unwrap();
    assert_eq!(reopened.byte_length, 300);
    assert_eq!(vfs.file_size(&reopened), Ok(300));
}

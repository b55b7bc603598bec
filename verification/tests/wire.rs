//! Wire formats and small components: HTTP responses, DER parsing, Styx
//! messages, NVMe queues, WAL locks, the page allocator and the clock.

use heavenos_core::clock::{bcd_to_bin, julian_ms, normalize_rtc};
use heavenos_core::der::{extract_spki, parse_length};
use heavenos_core::http::HttpResponse;
use heavenos_core::idt::{Idt, IdtEntry};
use heavenos_core::nvme_command::{build_prp, build_prp_list, classify_status, nvme_to_sqlite_error,
    NvmeError, SqliteIoError};
use heavenos_core::nvme_queue::{CompletionEntry, QueuePair, SubmissionEntry};
use heavenos_core::phys::{AllocError, PhysAddr, PhysPageAllocator};
use heavenos_core::styx::{encode, parse, Qid, StyxMsg, StyxMsgType};
use heavenos_core::wal::{WalShm, SQLITE_SHM_EXCLUSIVE, SQLITE_SHM_LOCK, SQLITE_SHM_SHARED,
    SQLITE_SHM_UNLOCK};

// ---- HTTP ----

#[test]
fn test_parse_200() {
    let raw = b"HTTP/1.1 200 OK\r\nContent-Type: text/event-stream\r\nX-Request-Id: abc\r\n\r\nbody";
    let resp = HttpResponse::parse(raw).unwrap();
    assert_eq!(resp.status, 200);
    assert_eq!(resp.header(b"content-type").unwrap().as_slice(), b"text/event-stream");
    assert_eq!(resp.header(b"x-request-id").unwrap().as_slice(), b"abc");
    assert_eq!(&raw[resp.body_start..], b"body");
    assert!(resp.error_message().is_none());
}

#[test]
fn test_parse_429() {
    let raw = b"HTTP/1.1 429 Too Many Requests\r\nRetry-After: 30\r\n\r\n{\"error\":\"rate_limited\"}";
    let resp = HttpResponse::parse(raw).unwrap();
    assert_eq!(resp.status, 429);
    assert!(resp.should_retry());
    assert_eq!(resp.retry_after_secs(), Some(30));
    assert_eq!(resp.error_message(), Some("rate limited — retry after delay"));
}

#[test]
fn test_parse_401() {
    let raw = b"HTTP/1.1 401 Unauthorized\r\n\r\n";
    let resp = HttpResponse::parse(raw).unwrap();
    assert_eq!(resp.status, 401);
    assert!(!resp.should_retry());
    assert_eq!(resp.error_message(), Some("API key invalid or missing"));
}

#[test]
fn test_incomplete() {
    let raw = b"HTTP/1.1 200 OK\r\nContent-Type: text";
    assert!(HttpResponse::parse(raw).is_err());
}

// ---- DER ----

#[test]
fn test_parse_length_short() {
    assert_eq!(parse_length(&[0x05]).unwrap(), (5, 1));
    assert_eq!(parse_length(&[0x7F]).unwrap(), (127, 1));
}

#[test]
fn test_parse_length_long() {
    assert_eq!(parse_length(&[0x81, 0x80]).unwrap(), (128, 2));
    assert_eq!(parse_length(&[0x82, 0x01, 0x00]).unwrap(), (256, 3));
}

#[test]
fn test_truncated() {
    assert!(extract_spki(&[]).is_err());
    assert!(extract_spki(&[0x30, 0x03, 0x30, 0x01]).is_err());
}

fn encode_length(out: &mut Vec<u8>, len: usize) {
    if len < 0x80 {
        out.push(len as u8);
    } else if len < 0x100 {
        out.push(0x81);
        out.push(len as u8);
    } else {
        out.push(0x82);
        out.push((len >> 8) as u8);
        out.push(len as u8);
    }
}

fn tagged(tag: u8, contents: &[u8]) -> Vec<u8> {
    let mut out = vec![tag];
    encode_length(&mut out, contents.len());
    out.extend_from_slice(contents);
    out
}

fn der_seq(contents: &[u8]) -> Vec<u8> {
    tagged(0x30, contents)
}

#[test]
fn extract_spki_from_synthetic_certificate() {
    // Certificate = SEQUENCE { tbsCertificate, signatureAlgorithm, signatureValue }
    let version = tagged(0xA0, &tagged(0x02, &[0x02]));
    let serial = tagged(0x02, &[0x01]);
    let sig_alg = der_seq(&tagged(0x06, &[0x2A, 0x86, 0x48, 0xCE, 0x3D, 0x04, 0x03, 0x02]));
    let name = der_seq(&tagged(
        0x31,
        &der_seq(
            &[tagged(0x06, &[0x55, 0x04, 0x03]).as_slice(), tagged(0x0C, b"test").as_slice()]
                .concat(),
        ),
    ));
    let validity = der_seq(
        &[tagged(0x17, b"250101000000Z").as_slice(), tagged(0x17, b"350101000000Z").as_slice()]
            .concat(),
    );
    let spki_content = [
        der_seq(&tagged(0x06, &[0x2A, 0x86, 0x48, 0xCE, 0x3D, 0x02, 0x01])).as_slice(),
        tagged(0x03, &[0x00, 0x04, 0xAA, 0xBB, 0xCC, 0xDD]).as_slice(),
    ]
    .concat();
    let spki = der_seq(&spki_content);

    let tbs_content = [
        version.as_slice(),
        serial.as_slice(),
        sig_alg.as_slice(),
        name.as_slice(),
        validity.as_slice(),
        name.as_slice(),
        spki.as_slice(),
    ]
    .concat();
    let tbs = der_seq(&tbs_content);

    let cert_content =
        [tbs.as_slice(), sig_alg.as_slice(), tagged(0x03, &[0x00, 0xDE, 0xAD]).as_slice()]
            .concat();
    let cert = der_seq(&cert_content);

    let extracted = extract_spki(&cert).expect("failed to extract SPKI");
    assert_eq!(extracted, spki.as_slice());
}

// ---- Styx ----

#[test]
fn styx_type_codes_round_trip() {
    for v in 0u8..=255 {
        match StyxMsgType::from_u8(v) {
            Some(t) => assert_eq!(t.code(), v),
            None => assert!(v < 100 || v == 106 || v > 127),
        }
    }
}

#[test]
fn styx_parse_tread() {
    // size[4]=23 type[1]=116 tag[2]=7 fid[4]=3 offset[8]=4096 count[4]=512
    let mut msg = vec![23, 0, 0, 0, 116, 7, 0];
    msg.extend_from_slice(&3u32.to_le_bytes());
    msg.extend_from_slice(&4096u64.to_le_bytes());
    msg.extend_from_slice(&512u32.to_le_bytes());
    match parse(&msg).unwrap() {
        StyxMsg::Tread { tag, fid, offset, count } => {
            assert_eq!(tag, 7);
            assert_eq!(fid, 3);
            assert_eq!(offset, 4096);
            assert_eq!(count, 512);
        }
        _ => panic!("wrong message"),
    }
}

#[test]
fn styx_parse_tversion() {
    let version = b"9P2000";
    let mut msg = vec![0, 0, 0, 0, 100, 1, 0];
    msg.extend_from_slice(&8192u32.to_le_bytes());
    msg.extend_from_slice(&(version.len() as u16).to_le_bytes());
    msg.extend_from_slice(version);
    let total = msg.len() as u32;
    msg[0..4].copy_from_slice(&total.to_le_bytes());
    match parse(&msg).unwrap() {
        StyxMsg::Tversion { tag, msize, version: v } => {
            assert_eq!(tag, 1);
            assert_eq!(msize, 8192);
            assert_eq!(v, version.to_vec());
        }
        _ => panic!("wrong message"),
    }
}

#[test]
fn styx_encode_rwrite() {
    let out = encode(&StyxMsg::Rwrite { tag: 5, count: 99 });
    assert_eq!(out.len(), 11);
    assert_eq!(&out[0..4], &11u32.to_le_bytes());
    assert_eq!(out[4], 119);
    assert_eq!(&out[5..7], &5u16.to_le_bytes());
    assert_eq!(&out[7..11], &99u32.to_le_bytes());
}

#[test]
fn styx_qid_encoding() {
    let q = Qid::dir(42);
    assert_eq!(q.qtype, 0x80);
    let mut buf = Vec::new();
    q.encode(&mut buf);
    assert_eq!(buf.len(), 13);
    assert_eq!(buf[0], 0x80);
    assert_eq!(&buf[5..13], &42u64.to_le_bytes());
    let f = Qid::file(7);
    assert_eq!(f.qtype, 0x00);
}

// ---- NVMe ----

#[test]
fn classify_status_cases() {
    assert!(classify_status(0).is_ok());
    // SCT=0, SC=0x80 (LBA out of range) -> media error.
    let lba_range: u16 = 0x80 << 1;
    assert!(matches!(classify_status(lba_range), Err(NvmeError::MediaError)));
    // SCT=2 -> media error.
    let sct2: u16 = 2 << 9 | (1 << 1);
    assert!(matches!(classify_status(sct2), Err(NvmeError::MediaError)));
    // Generic failure carries the raw status.
    let generic: u16 = 0x01 << 1;
    assert!(matches!(classify_status(generic), Err(NvmeError::CommandFailed(s)) if s == generic));
}

#[test]
fn sqlite_error_mapping() {
    assert_eq!(nvme_to_sqlite_error(&NvmeError::Timeout), SqliteIoError::Busy);
    assert_eq!(nvme_to_sqlite_error(&NvmeError::MediaError), SqliteIoError::CorruptFs);
    assert_eq!(SqliteIoError::IoErrFsync.code(), 1034);
    assert_eq!(SqliteIoError::Okay.code(), 0);
}

#[test]
fn prp_construction() {
    let base = PhysAddr::new(0x10000);
    let (p1, p2) = build_prp(base, 4096);
    assert_eq!(p1.as_u64(), 0x10000);
    assert_eq!(p2.as_u64(), 0);
    let (p1, p2) = build_prp(base, 8192);
    assert_eq!(p1.as_u64(), 0x10000);
    assert_eq!(p2.as_u64(), 0x11000);
    let list = build_prp_list(base, 3 * 4096);
    assert_eq!(list, vec![0x11000, 0x12000]);
}

#[test]
fn queue_submit_stamps_command_ids() {
    let mut q = QueuePair::new(1, 4).unwrap();
    assert_eq!(q.sq_tail(), 0);
    let e = SubmissionEntry::flush(1);
    q.submit(e);
    assert_eq!(q.sq_tail(), 1);
    q.submit(e);
    q.submit(e);
    q.submit(e);
    // The tail wraps modulo the queue size.
    assert_eq!(q.sq_tail(), 0);
    // A zeroed completion ring shows no completions at phase one.
    assert_eq!(q.poll_completion(), None);
    assert_eq!(q.cq_head(), 0);
}

#[test]
fn submission_entry_fields() {
    let e = SubmissionEntry::read(1, 0x1_0000_0002, 7, PhysAddr::new(0x2000), PhysAddr::new(0));
    assert_eq!(e.cdw0, 0x02);
    assert_eq!(e.nsid, 1);
    assert_eq!(e.cdw10, 2);
    assert_eq!(e.cdw11, 1);
    assert_eq!(e.cdw12, 7);
    let c = CompletionEntry { dw0: 0, dw1: 0, sq_head_sqid: 0, cid_status: (3 << 16) | (5 << 1) | 1 };
    assert!(c.phase());
    assert_eq!(c.status(), 5);
    assert_eq!(c.command_id(), 3);
}

// ---- WAL locks ----

#[test]
fn wal_lock_exclusion() {
    let mut shm = WalShm::new();
    // Two shared holders on slot 0.
    assert_eq!(shm.shm_lock(0, 1, SQLITE_SHM_LOCK | SQLITE_SHM_SHARED), 0);
    assert_eq!(shm.shm_lock(0, 1, SQLITE_SHM_LOCK | SQLITE_SHM_SHARED), 0);
    // An exclusive attempt on the same slot is busy.
    assert_eq!(shm.shm_lock(0, 1, SQLITE_SHM_LOCK | SQLITE_SHM_EXCLUSIVE), 5);
    // Release both shared holders; exclusive then succeeds.
    assert_eq!(shm.shm_lock(0, 1, SQLITE_SHM_UNLOCK | SQLITE_SHM_SHARED), 0);
    assert_eq!(shm.shm_lock(0, 1, SQLITE_SHM_UNLOCK | SQLITE_SHM_SHARED), 0);
    assert_eq!(shm.shm_lock(0, 1, SQLITE_SHM_LOCK | SQLITE_SHM_EXCLUSIVE), 0);
    // A shared attempt against the writer is busy.
    assert_eq!(shm.shm_lock(0, 1, SQLITE_SHM_LOCK | SQLITE_SHM_SHARED), 5);
}

#[test]
fn wal_lock_rollback_on_conflict() {
    let mut shm = WalShm::new();
    // Hold slot 2 exclusively.
    assert_eq!(shm.shm_lock(2, 1, SQLITE_SHM_LOCK | SQLITE_SHM_EXCLUSIVE), 0);
    // A multi-slot exclusive over 0..4 hits slot 2 and rolls back fully.
    assert_eq!(shm.shm_lock(0, 4, SQLITE_SHM_LOCK | SQLITE_SHM_EXCLUSIVE), 5);
    // Slots 0 and 1 stayed free.
    assert_eq!(shm.shm_lock(0, 2, SQLITE_SHM_LOCK | SQLITE_SHM_EXCLUSIVE), 0);
}

#[test]
fn wal_shm_map_regions() {
    let mut shm = WalShm::new();
    assert_eq!(shm.shm_map(2, 32768), 0);
    assert_eq!(shm.region(0).len(), 32768);
    assert_eq!(shm.region(2).len(), 32768);
    assert!(shm.region(2).iter().all(|b| *b == 0));
    assert_eq!(shm.shm_unmap(true), 0);
}

// ---- Physical page allocator ----

#[test]
fn phys_alloc_contiguous_aligned() {
    let mut pa = PhysPageAllocator::new();
    assert_eq!(pa.free_count(), 0);
    let regions = vec![(0u64, 1048576u64)]; // 256 usable pages
    pa.init(&regions);
    assert_eq!(pa.free_count(), 256);
    assert_eq!(pa.total_count(), 256);

    let a = pa.alloc_pages_contiguous(4, 4).unwrap();
    assert_eq!(a.as_u64() % (4 * 4096), 0);
    assert_eq!(pa.free_count(), 252);

    // Alignment must be a power of two; zero pages is invalid.
    assert_eq!(pa.alloc_pages_contiguous(1, 3), Err(AllocError::InvalidAlignment));
    assert_eq!(pa.alloc_pages_contiguous(0, 1), Err(AllocError::InvalidSize));

    // Double free is tolerated.
    pa.free_pages(a, 4);
    assert_eq!(pa.free_count(), 256);
    pa.free_pages(a, 4);
    assert_eq!(pa.free_count(), 256);

    // Reservations are idempotent too.
    pa.mark_used(PhysAddr::new(0), 2);
    pa.mark_used(PhysAddr::new(0), 2);
    assert_eq!(pa.free_count(), 254);
}

#[test]
fn phys_huge_alignment_uses_page_zero() {
    let mut pa = PhysPageAllocator::new();
    let regions = vec![(0u64, 1048576u64)];
    pa.init(&regions);
    // Page 0 is a multiple of every alignment, however large.
    let a = pa.alloc_pages_contiguous(1, 1 << 30).unwrap();
    assert_eq!(a.as_u64(), 0);
    // With page 0 taken, no other aligned candidate fits.
    assert_eq!(pa.alloc_pages_contiguous(1, 1 << 30), Err(AllocError::OutOfMemory));
}

// ---- Clock and IDT ----

#[test]
fn rtc_normalization() {
    // BCD mode (status bit 2 clear), 12-hour mode (status bit 1 clear),
    // PM flag set on the hour register: 03 PM becomes 15.
    let (y, mo, d, h, mi, se) = normalize_rtc(0x30, 0x45, 0x83, 0x18, 0x09, 0x26, 0x20, 0x00);
    assert_eq!((y, mo, d, h, mi, se), (2026, 9, 18, 15, 45, 30));
    // Binary mode, 24-hour mode: values pass through; zero century means
    // the twenty-first century.
    let (y2, mo2, d2, h2, mi2, se2) = normalize_rtc(7, 8, 23, 28, 2, 30, 0, 0x06);
    assert_eq!((y2, mo2, d2, h2, mi2, se2), (2030, 2, 28, 23, 8, 7));
}

#[test]
fn julian_epoch_values() {
    // 2000-01-01 00:00:00 UTC is Julian day 2451545 (at noon).
    let ms = julian_ms(2000, 1, 1, 0, 0, 0);
    assert_eq!(ms, (2451545 - 1) * 86_400_000 + 43_200_000);
    // One second later.
    assert_eq!(julian_ms(2000, 1, 1, 0, 0, 1), ms + 1000);
    assert_eq!(bcd_to_bin(0x59), 59);
    assert_eq!(bcd_to_bin(0x07), 7);
}

#[test]
fn idt_gate_packing() {
    let handler: u64 = 0xFFFF_8000_1234_5678;
    let e = IdtEntry::interrupt_gate(handler);
    assert_eq!(e.offset_low, 0x5678);
    assert_eq!(e.offset_mid, 0x1234);
    assert_eq!(e.offset_high, 0xFFFF_8000);
    assert_eq!(e.type_attr, 0x8E);
    let t = IdtEntry::trap_gate(handler);
    assert_eq!(t.type_attr, 0x8F);
    let i = IdtEntry::interrupt_gate_ist(handler, 0x0A);
    assert_eq!(i.ist, 2);
    let table = Idt::new();
    assert_eq!(table.entries.len(), 256);
    assert_eq!(table.entries[0], IdtEntry::missing());
}

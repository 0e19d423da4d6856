use cosmosguard::builder::{encode_all, RawRecord};
use cosmosguard::layout::{push_u16_le, push_u32_le, push_u64_le, RECORD_SIZE};
use cosmosguard::poll::{PollLoop, Step};
use cosmosguard::record::decode;
use cosmosguard::source::CaptureSource;

fn raw(pid: u32, source: u32, path: &str) -> RawRecord {
    RawRecord {
        pid,
        parent_pid: pid / 2,
        image_base: 0x1_0000_0000 + pid as u64,
        image_size: 0x2000 * pid as u64,
        capture_source: source,
        image_units: path.encode_utf16().collect(),
    }
}

#[test]
fn writers_put_the_low_byte_first() {
    let mut out = vec![0xeeu8];
    push_u16_le(&mut out, 0x1234);
    push_u32_le(&mut out, 0x89ab_cdef);
    push_u64_le(&mut out, 0x0102_0304_0506_0708);
    assert_eq!(
        out,
        vec![0xee, 0x34, 0x12, 0xef, 0xcd, 0xab, 0x89, 8, 7, 6, 5, 4, 3, 2, 1]
    );
}

#[test]
fn encoded_record_has_the_pinned_layout() {
    let record = RawRecord {
        pid: 0x0403_0201,
        parent_pid: 0x0807_0605,
        image_base: 0x1817_1615_1413_1211,
        image_size: 0x2827_2625_2423_2221,
        capture_source: 2,
        image_units: vec![0x0041, 0x263a],
    };
    let mut out = Vec::new();
    record.encode_into(&mut out);
    assert_eq!(out.len(), 552);
    assert_eq!(&out[0..4], &[1, 2, 3, 4]);
    assert_eq!(&out[4..8], &[5, 6, 7, 8]);
    assert_eq!(&out[8..16], &[0x11, 0x12, 0x13, 0x14, 0x15, 0x16, 0x17, 0x18]);
    assert_eq!(&out[16..24], &[0x21, 0x22, 0x23, 0x24, 0x25, 0x26, 0x27, 0x28]);
    assert_eq!(&out[24..28], &[2, 0, 0, 0]);
    assert_eq!(&out[28..32], &[0x41, 0x00, 0x3a, 0x26]);
    assert!(out[32..].iter().all(|b| *b == 0));
}

#[test]
fn encode_appends_to_what_is_there() {
    let mut out = vec![9u8, 9, 9];
    raw(1, 1, "a").encode_into(&mut out);
    assert_eq!(out.len(), 3 + RECORD_SIZE);
    assert_eq!(&out[0..3], &[9, 9, 9]);
    assert_eq!(out[3], 1);
}

#[test]
fn written_batch_decodes_to_what_was_written() {
    let raws = vec![
        raw(4, 0, "System"),
        raw(812, 1, "C:\\Windows\\explorer.exe"),
        raw(u32::MAX, 2, ""),
        raw(77, 3, "D:\\tools\\śledź.exe"),
        raw(78, 12, "x"),
    ];
    let bytes = encode_all(&raws);
    assert_eq!(bytes.len(), raws.len() * RECORD_SIZE);
    let records = decode(&bytes, RECORD_SIZE).unwrap();
    assert_eq!(records.len(), raws.len());
    for (record, written) in records.iter().zip(raws.iter()) {
        assert_eq!(record.pid, written.pid);
        assert_eq!(record.parent_pid, written.parent_pid);
        assert_eq!(record.image_base, written.image_base);
        assert_eq!(record.image_size, written.image_size);
        assert_eq!(record.capture_source, CaptureSource::from(written.capture_source));
        assert_eq!(record.image_path, String::from_utf16_lossy(&written.image_units));
    }
    assert_eq!(records[4].capture_source, CaptureSource::Unknown);
    assert_eq!(records[3].image_path, "D:\\tools\\śledź.exe");
}

#[test]
fn empty_batch_is_empty_response() {
    assert!(encode_all(&[]).is_empty());
}

#[test]
fn overlong_path_is_cut_to_the_field() {
    let long = "z".repeat(300);
    let bytes = encode_all(&[raw(1, 1, &long), raw(2, 1, "next")]);
    assert_eq!(bytes.len(), 2 * RECORD_SIZE);
    let records = decode(&bytes, RECORD_SIZE).unwrap();
    assert_eq!(records[0].image_path, "z".repeat(260));
    assert_eq!(records[1].pid, 2);
    assert_eq!(records[1].image_path, "next");
}

#[test]
fn written_batch_runs_through_the_loop() {
    let mut poll = PollLoop::new();
    poll.on_open(Ok(()));
    let bytes = encode_all(&[raw(10, 1, "a.exe"), raw(20, 2, "b.exe"), raw(10, 3, "c.exe")]);
    match poll.on_fetch(Ok(bytes)) {
        Step::Fetch { wait_ms, emit } => {
            assert_eq!(wait_ms, 200);
            assert_eq!(emit.len(), 2);
            assert_eq!((emit[0].pid, emit[0].image_path.as_str()), (10, "a.exe"));
            assert_eq!(emit[0].capture_source, CaptureSource::CreateNotify);
            assert_eq!((emit[1].pid, emit[1].image_path.as_str()), (20, "b.exe"));
            assert_eq!(emit[1].capture_source, CaptureSource::ImageLoad);
        }
        other => panic!("unexpected step {:?}", other),
    }
}

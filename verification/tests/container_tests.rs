use ghostline::container::{magic, FORMAT_VERSION};
use ghostline::frame::Frame;
use ghostline::reader::GhostlineReader;
use ghostline::writer::{GhostlineWriter, Header};
use ghostline::GhostError;

fn plain_header(started_at: u64) -> Header {
    Header { started_at, git_sha: None, parent_run_id: None, fork_at_step: None }
}

fn write_test_frames() -> Vec<u8> {
    let header = plain_header(1700000000000);
    let mut writer = GhostlineWriter::new(&header);

    for i in 0..3u64 {
        let frame = Frame::new(
            format!("request-{}", i).into_bytes(),
            format!("response-{}", i).into_bytes(),
            10 + i,
            1700000000000 + i,
        );
        writer.append(&frame).unwrap();
    }
    writer.finish().unwrap()
}

#[test]
fn read_frame_count() {
    let buf = write_test_frames();
    let reader = GhostlineReader::from_bytes(buf).unwrap();
    assert_eq!(reader.frame_count(), 3);
}

#[test]
fn read_all_frames() {
    let buf = write_test_frames();
    let reader = GhostlineReader::from_bytes(buf).unwrap();
    for i in 0..3 {
        let frame = reader.get_frame(i).unwrap();
        assert_eq!(frame.request_bytes, format!("request-{}", i).into_bytes());
        assert_eq!(frame.response_bytes, format!("response-{}", i).into_bytes());
        assert_eq!(frame.latency_ms, 10 + i as u64);
    }
}

#[test]
fn lookup_by_hash_works() {
    let buf = write_test_frames();
    let reader = GhostlineReader::from_bytes(buf).unwrap();

    let expected_hash = Frame::hash_request(b"request-1");
    let frame = reader.lookup_by_hash(&expected_hash).unwrap().unwrap();
    assert_eq!(frame.request_bytes, b"request-1");
}

#[test]
fn lookup_by_hash_not_found() {
    let buf = write_test_frames();
    let reader = GhostlineReader::from_bytes(buf).unwrap();
    let fake_hash = [0u8; 32];
    assert!(reader.lookup_by_hash(&fake_hash).unwrap().is_none());
}

#[test]
fn roundtrip_request_bytes() {
    let originals: Vec<Vec<u8>> = (0..3)
        .map(|i| format!("request-{}", i).into_bytes())
        .collect();

    let buf = write_test_frames();
    let reader = GhostlineReader::from_bytes(buf).unwrap();

    for i in 0..3 {
        let frame = reader.get_frame(i).unwrap();
        assert_eq!(frame.request_bytes, originals[i]);
    }
}

#[test]
fn write_and_verify_structure() {
    let header = plain_header(1700000000000);
    let mut writer = GhostlineWriter::new(&header);

    let frame = Frame::new(b"req".to_vec(), b"res".to_vec(), 10, 1700000000000);
    writer.append(&frame).unwrap();
    writer.append(&frame).unwrap();
    let buf = writer.finish().unwrap();

    // Verify magic bytes
    assert_eq!(&buf[..8], magic().as_slice());
    // Verify version
    assert_eq!(u32::from_le_bytes(buf[8..12].try_into().unwrap()), FORMAT_VERSION);

    // Verify index offset is stored in last 8 bytes
    let len = buf.len();
    let index_offset = u64::from_le_bytes(buf[len - 8..len].try_into().unwrap());
    // Verify entry count (4 bytes before index_offset)
    let entry_count = u32::from_le_bytes(buf[len - 12..len - 8].try_into().unwrap());
    assert_eq!(entry_count, 2);
    assert!(index_offset > 0 && index_offset < len as u64);
}

#[test]
fn empty_container() {
    let header = plain_header(1_700_000_000_000);
    let writer = GhostlineWriter::new(&header);
    let buf = writer.finish().unwrap();

    let len = buf.len();
    let index_start = u64::from_le_bytes(buf[len - 8..len].try_into().unwrap());
    let count = u32::from_le_bytes(buf[len - 12..len - 8].try_into().unwrap());
    assert_eq!(count, 0);
    assert!(index_start > 20);

    let reader = GhostlineReader::from_bytes(buf).unwrap();
    assert_eq!(reader.frame_count(), 0);
    assert_eq!(reader.started_at, 1_700_000_000_000);
    assert!(reader.git_sha.is_none());
    assert_eq!(reader.get_frame(0).err(), Some(GhostError::OutOfRange));
}

#[test]
fn three_frame_round_trip() {
    let header = plain_header(1700000000000);
    let mut writer = GhostlineWriter::new(&header);
    for i in 0..3u64 {
        let frame = Frame::new(
            format!("request-{}", i).into_bytes(),
            format!("response-{}", i).into_bytes(),
            i,
            i,
        );
        writer.append(&frame).unwrap();
        assert_eq!(writer.frame_count(), (i + 1) as usize);
    }
    let buf = writer.finish().unwrap();
    let reader = GhostlineReader::from_bytes(buf).unwrap();
    for i in 0..3u64 {
        let frame = reader.get_frame(i as usize).unwrap();
        assert_eq!(frame.request_bytes, format!("request-{}", i).into_bytes());
    }
    let frame = reader
        .lookup_by_hash(&Frame::hash_request(b"request-1"))
        .unwrap()
        .unwrap();
    assert_eq!(frame.response_bytes, b"response-1");
}

#[test]
fn bad_magic_rejected() {
    let mut buf = b"NOTGHOST".to_vec();
    buf.extend_from_slice(&[0u8; 64]);
    assert_eq!(
        GhostlineReader::from_bytes(buf).err(),
        Some(GhostError::BadMagic)
    );
}

#[test]
fn unsupported_version_rejected() {
    let mut buf = write_test_frames();
    // Bump the version field (u32 LE at offset 8).
    buf[8] = 2;
    assert_eq!(
        GhostlineReader::from_bytes(buf).err(),
        Some(GhostError::UnsupportedVersion)
    );
}

#[test]
fn truncated_container_rejected() {
    let buf = write_test_frames();
    let truncated = buf[..15].to_vec();
    assert_eq!(
        GhostlineReader::from_bytes(truncated).err(),
        Some(GhostError::Malformed)
    );
    assert_eq!(
        GhostlineReader::from_bytes(Vec::new()).err(),
        Some(GhostError::Malformed)
    );
}

#[test]
fn bad_flag_rejected() {
    let mut buf = write_test_frames();
    // The git-sha flag byte must be 0 or 1.
    buf[20] = 7;
    assert_eq!(
        GhostlineReader::from_bytes(buf).err(),
        Some(GhostError::Malformed)
    );
}

#[test]
fn corrupt_blob_is_isolated() {
    let buf = write_test_frames();
    let reader = GhostlineReader::from_bytes(buf).unwrap();
    let second_offset = reader.index_entries()[1].offset as usize;
    let mut buf = write_test_frames();
    // Scramble the second frame's compressed payload.
    for b in &mut buf[second_offset + 4..second_offset + 8] {
        *b ^= 0xff;
    }
    let reader = GhostlineReader::from_bytes(buf).unwrap();
    assert_eq!(reader.get_frame(1).err(), Some(GhostError::MalformedFrame));
    // Adjacent frames remain readable.
    assert_eq!(
        reader.get_frame(0).unwrap().request_bytes,
        b"request-0".to_vec()
    );
    assert_eq!(
        reader.get_frame(2).unwrap().request_bytes,
        b"request-2".to_vec()
    );
}

#[test]
fn blob_is_zstd_compressed() {
    let header = plain_header(5);
    let mut writer = GhostlineWriter::new(&header);
    let frame = Frame::new(vec![b'a'; 4096], b"res".to_vec(), 1, 2);
    writer.append(&frame).unwrap();
    let buf = writer.finish().unwrap();

    // The frame region starts right after the 23-byte minimal header.
    let clen = u32::from_le_bytes(buf[23..27].try_into().unwrap()) as usize;
    let blob = &buf[27..27 + clen];
    // The blob really is a zstd block of the MessagePack encoding.
    let decompressed = zstd::bulk::decompress(blob, 10 * 1024 * 1024).unwrap();
    assert_eq!(decompressed, frame.to_msgpack());
    // And it is genuinely compressed, not stored.
    assert!(clen < 4096);
}

#[test]
fn header_with_git_sha_round_trips() {
    let header = Header {
        started_at: 77,
        git_sha: Some(vec![0xabu8; 20]),
        parent_run_id: None,
        fork_at_step: None,
    };
    let mut writer = GhostlineWriter::new(&header);
    let frame = Frame::new(b"x".to_vec(), b"y".to_vec(), 0, 0);
    writer.append(&frame).unwrap();
    let buf = writer.finish().unwrap();
    let reader = GhostlineReader::from_bytes(buf).unwrap();
    assert_eq!(reader.started_at, 77);
    assert_eq!(reader.git_sha, Some(vec![0xabu8; 20]));
    assert!(reader.parent_run_id.is_none());
    assert!(reader.fork_at_step.is_none());
}

#[test]
fn header_write_to_layout() {
    let header = plain_header(0x0102030405060708);
    let mut out: Vec<u8> = Vec::new();
    header.write_to(&mut out);
    assert_eq!(out.len(), 23);
    assert_eq!(&out[..8], magic().as_slice());
    assert_eq!(u32::from_le_bytes(out[8..12].try_into().unwrap()), 1);
    assert_eq!(
        u64::from_le_bytes(out[12..20].try_into().unwrap()),
        0x0102030405060708
    );
    assert_eq!(out[20], 0); // no git sha
    assert_eq!(out[21], 0); // no parent run id
    assert_eq!(out[22], 0); // no fork step
}

#[test]
fn record_exchange_appends_a_frame() {
    let header = plain_header(9);
    let mut writer = GhostlineWriter::new(&header);
    ghostline::record::record_exchange(&mut writer, b"the request".to_vec(), b"the response".to_vec(), 12, 34)
        .unwrap();
    assert_eq!(writer.frame_count(), 1);
    let buf = writer.finish().unwrap();
    let reader = GhostlineReader::from_bytes(buf).unwrap();
    let frame = reader.get_frame(0).unwrap();
    assert_eq!(frame.request_bytes, b"the request".to_vec());
    assert_eq!(frame.response_bytes, b"the response".to_vec());
    assert_eq!(frame.latency_ms, 12);
    assert_eq!(frame.timestamp, 34);
    assert_eq!(frame.request_hash, Frame::hash_request(b"the request"));
}

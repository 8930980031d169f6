use ghostline::fork::fork_frames;
use ghostline::frame::Frame;
use ghostline::reader::GhostlineReader;
use ghostline::writer::{GhostlineWriter, Header};
use ghostline::GhostError;
use sha2::Digest;

fn source_container() -> GhostlineReader {
    let header = Header {
        started_at: 1700000000000,
        git_sha: Some(vec![7u8; 20]),
        parent_run_id: None,
        fork_at_step: None,
    };
    let mut writer = GhostlineWriter::new(&header);
    for i in 0..3u64 {
        let frame = Frame::new(
            format!("request-{}", i).into_bytes(),
            format!("response-{}", i).into_bytes(),
            i,
            100 + i,
        );
        writer.append(&frame).unwrap();
    }
    GhostlineReader::from_bytes(writer.finish().unwrap()).unwrap()
}

#[test]
fn fork_at_step_one() {
    let source = source_container();
    let out = fork_frames(&source, 1).unwrap();
    let fork = GhostlineReader::from_bytes(out).unwrap();

    assert_eq!(fork.frame_count(), 2);
    for i in 0..2 {
        let a = source.get_frame(i).unwrap();
        let b = fork.get_frame(i).unwrap();
        assert_eq!(a.request_hash, b.request_hash);
        assert_eq!(a.request_bytes, b.request_bytes);
        assert_eq!(a.response_bytes, b.response_bytes);
        assert_eq!(a.latency_ms, b.latency_ms);
        assert_eq!(a.timestamp, b.timestamp);
    }
    assert_eq!(fork.started_at, source.started_at);
    assert_eq!(fork.git_sha, Some(vec![7u8; 20]));
    assert_eq!(fork.fork_at_step, Some(1));

    // parent_run_id == SHA-256(started_at LE || frame0.request_hash)
    let mut hasher = sha2::Sha256::new();
    hasher.update(source.started_at.to_le_bytes());
    hasher.update(&source.get_frame(0).unwrap().request_hash);
    let expected: Vec<u8> = hasher.finalize().to_vec();
    assert_eq!(fork.parent_run_id, Some(expected));
}

#[test]
fn fork_out_of_range() {
    let source = source_container();
    assert_eq!(fork_frames(&source, 3), Err(GhostError::OutOfRange));
    assert_eq!(fork_frames(&source, 100), Err(GhostError::OutOfRange));
}

#[test]
fn fork_of_fork_keeps_provenance_fields() {
    let source = source_container();
    let first = GhostlineReader::from_bytes(fork_frames(&source, 2).unwrap()).unwrap();
    let second = GhostlineReader::from_bytes(fork_frames(&first, 0).unwrap()).unwrap();
    assert_eq!(second.frame_count(), 1);
    assert_eq!(second.fork_at_step, Some(0));
    assert!(second.parent_run_id.is_some());
}

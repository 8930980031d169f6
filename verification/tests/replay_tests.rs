use ghostline::frame::Frame;
use ghostline::reader::GhostlineReader;
use ghostline::replay::{load_cache, miss_body, status_body, ReplayResponse};
use ghostline::writer::{GhostlineWriter, Header};
use sha2::Digest;

fn container_with(frames: &[(&[u8], &[u8])]) -> GhostlineReader {
    let header = Header { started_at: 1, git_sha: None, parent_run_id: None, fork_at_step: None };
    let mut writer = GhostlineWriter::new(&header);
    for (req, resp) in frames {
        let frame = Frame::new(req.to_vec(), resp.to_vec(), 5, 6);
        writer.append(&frame).unwrap();
    }
    GhostlineReader::from_bytes(writer.finish().unwrap()).unwrap()
}

#[test]
fn duplicate_hash_replay() {
    let reader = container_with(&[(b"ping", b"A"), (b"ping", b"B")]);
    let mut cache = load_cache(&reader).unwrap();
    assert_eq!(cache.frames.len(), 1, "earliest frame wins on duplicate hashes");

    match cache.respond(b"ping") {
        ReplayResponse::Hit { response_bytes, latency_ms } => {
            assert_eq!(response_bytes, b"A".to_vec());
            assert_eq!(latency_ms, 5);
        }
        ReplayResponse::Miss { .. } => panic!("expected a hit"),
    }
    match cache.respond(b"ping") {
        ReplayResponse::Hit { response_bytes, .. } => {
            assert_eq!(response_bytes, b"A".to_vec(), "earliest wins on every call");
        }
        ReplayResponse::Miss { .. } => panic!("expected a hit"),
    }
    assert_eq!(cache.hits, 2);
    assert_eq!(cache.misses, 0);
}

#[test]
fn replay_miss() {
    let reader = container_with(&[(b"ping", b"A")]);
    let mut cache = load_cache(&reader).unwrap();

    let mut hasher = sha2::Sha256::new();
    hasher.update(b"pong");
    let expected_hex = hex::encode(hasher.finalize());

    match cache.respond(b"pong") {
        ReplayResponse::Hit { .. } => panic!("expected a miss"),
        ReplayResponse::Miss { request_hash_hex } => {
            assert_eq!(request_hash_hex, expected_hex);
            assert_eq!(request_hash_hex.len(), 64);
            assert!(request_hash_hex
                .chars()
                .all(|c| c.is_ascii_digit() || ('a'..='f').contains(&c)));
            let body = miss_body(&request_hash_hex);
            assert_eq!(
                body,
                format!(
                    "{{\"error\":\"no cached response for this request\",\"request_hash\":\"{}\"}}",
                    expected_hex
                )
            );
        }
    }
    assert_eq!(cache.hits, 0);
    assert_eq!(cache.misses, 1);
}

#[test]
fn miss_leaves_cache_intact() {
    let reader = container_with(&[(b"ping", b"A")]);
    let mut cache = load_cache(&reader).unwrap();

    match cache.respond(b"pong") {
        ReplayResponse::Miss { .. } => {}
        ReplayResponse::Hit { .. } => panic!("expected a miss"),
    }
    assert_eq!(cache.frames.len(), 1, "a miss does not mutate the cached frames");

    // A hit after the miss is unaffected.
    match cache.respond(b"ping") {
        ReplayResponse::Hit { response_bytes, .. } => assert_eq!(response_bytes, b"A".to_vec()),
        ReplayResponse::Miss { .. } => panic!("expected a hit"),
    }
    assert_eq!(cache.hits, 1);
    assert_eq!(cache.misses, 1);
}

#[test]
fn status_body_format() {
    assert_eq!(
        status_body(3, 1, 2),
        "{\"ok\":true,\"cached_frames\":3,\"hits\":1,\"misses\":2}"
    );
    assert_eq!(
        status_body(0, 0, 10234),
        "{\"ok\":true,\"cached_frames\":0,\"hits\":0,\"misses\":10234}"
    );
}

#[test]
fn cache_lookup_counts() {
    let reader = container_with(&[(b"a", b"ra"), (b"b", b"rb")]);
    let mut cache = load_cache(&reader).unwrap();
    assert_eq!(cache.frames.len(), 2);
    assert_eq!(cache.hits, 0);
    assert_eq!(cache.misses, 0);

    let hit = cache.lookup(&Frame::hash_request(b"b")).unwrap();
    assert_eq!(hit.request_bytes, b"b".to_vec());
    assert_eq!(hit.response_bytes, b"rb".to_vec());
    assert_eq!(cache.hits, 1);

    assert!(cache.lookup(&[0u8; 32]).is_none());
    assert_eq!(cache.misses, 1);
}

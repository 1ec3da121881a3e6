use scanner::persist::CheckpointError;
use scanner::scanner::{Checkpoint, ScanSession, SessionState};
use scanner::scoring::ScoringWeights;

fn key(score: f64) -> u64 {
    score.to_bits()
}

fn sample_session() -> ScanSession {
    let mut s =
        ScanSession::with_config("sess-7".to_string(), ScoringWeights::default(), 3, key(0.8))
            .unwrap();
    s.start().unwrap();
    s.record(vec![1u8; 32], false, "A".to_string(), key(0.9));
    s.record(vec![2u8; 32], false, "B".to_string(), key(0.5));
    s.record(vec![3u8; 32], false, "C".to_string(), key(0.7));
    s.record(vec![4u8; 32], false, "D".to_string(), key(0.6));
    s
}

fn word(x: u64) -> Vec<u8> {
    x.to_le_bytes().to_vec()
}

fn small_bytes() -> Vec<u8> {
    let mut bytes = Vec::new();
    bytes.extend(word(5));
    bytes.extend(word(2));
    bytes.extend(word(2));
    bytes.extend(b"id");
    bytes.extend(word(1));
    bytes.push(0xAB);
    bytes.extend(word(1));
    bytes.extend(word(9));
    bytes.extend(word(1));
    bytes.extend(b"x");
    bytes
}

#[test]
fn save_captures_the_session() {
    let s = sample_session();
    let cp = Checkpoint::save(&s);
    assert_eq!(cp.session_id, "sess-7");
    assert_eq!(cp.keys_tested, 4);
    assert_eq!(cp.last_key, vec![4u8; 32]);
    assert_eq!(cp.top_capacity, 3);
    assert_eq!(cp.top_scores, s.tracker.top().to_vec());
    assert_eq!(s.keys_tested, 4);
}

#[test]
fn resume_of_save_continues_the_session() {
    let s = sample_session();
    let resumed = ScanSession::resume_from_checkpoint(&Checkpoint::save(&s));
    assert_eq!(resumed.session_id, s.session_id);
    assert_eq!(resumed.state, SessionState::Idle);
    assert_eq!(resumed.keys_tested, 4);
    assert_eq!(resumed.last_key, s.last_key);
    assert_eq!(resumed.tracker.capacity, 3);
    assert_eq!(
        resumed.tracker.top().to_vec(),
        vec![
            ("A".to_string(), key(0.9)),
            ("C".to_string(), key(0.7)),
            ("D".to_string(), key(0.6))
        ]
    );
}

#[test]
fn resumed_session_goes_on_counting() {
    let s = sample_session();
    let mut resumed = ScanSession::resume_from_checkpoint(&Checkpoint::save(&s));
    resumed.start().unwrap();
    resumed.record(vec![5u8; 32], false, "E".to_string(), key(0.6));
    assert_eq!(resumed.keys_tested, 5);
    assert_eq!(resumed.tracker.top().len(), 3);
    assert_eq!(resumed.tracker.top()[2], ("D".to_string(), key(0.6)));
}

#[test]
fn bytes_round_trip() {
    let cp = Checkpoint::save(&sample_session());
    let bytes = cp.to_bytes();
    let back = Checkpoint::load(Some(&bytes)).unwrap();
    assert_eq!(back.session_id, cp.session_id);
    assert_eq!(back.keys_tested, cp.keys_tested);
    assert_eq!(back.last_key, cp.last_key);
    assert_eq!(back.top_capacity, cp.top_capacity);
    assert_eq!(back.top_scores, cp.top_scores);
}

#[test]
fn text_beyond_ascii_round_trips() {
    let cp = Checkpoint {
        session_id: "sitzung-\u{e4}\u{20ac}".to_string(),
        keys_tested: u64::MAX,
        last_key: vec![],
        top_capacity: 2,
        top_scores: vec![("\u{1f511}key".to_string(), 7), ("z".to_string(), 7)],
    };
    let back = Checkpoint::from_bytes(&cp.to_bytes()).unwrap();
    assert_eq!(back.session_id, "sitzung-\u{e4}\u{20ac}");
    assert_eq!(back.keys_tested, u64::MAX);
    assert_eq!(back.top_scores, cp.top_scores);
}

#[test]
fn layout_is_as_documented() {
    let cp = Checkpoint {
        session_id: "id".to_string(),
        keys_tested: 5,
        last_key: vec![0xAB],
        top_capacity: 2,
        top_scores: vec![("x".to_string(), 9)],
    };
    assert_eq!(cp.to_bytes(), small_bytes());
    let back = Checkpoint::from_bytes(&small_bytes()).unwrap();
    assert_eq!(back.session_id, "id");
    assert_eq!(back.keys_tested, 5);
    assert_eq!(back.last_key, vec![0xAB]);
    assert_eq!(back.top_capacity, 2);
    assert_eq!(back.top_scores, vec![("x".to_string(), 9)]);
}

#[test]
fn unknown_identifier_is_not_found() {
    assert!(matches!(Checkpoint::load(None), Err(CheckpointError::NotFound)));
}

#[test]
fn truncated_bytes_are_corrupt() {
    let bytes = small_bytes();
    for len in 0..bytes.len() {
        assert!(matches!(
            Checkpoint::load(Some(&bytes[..len])),
            Err(CheckpointError::Corrupt)
        ));
    }
}

#[test]
fn trailing_bytes_are_corrupt() {
    let mut bytes = small_bytes();
    bytes.push(0);
    assert!(matches!(Checkpoint::from_bytes(&bytes), Err(CheckpointError::Corrupt)));
}

#[test]
fn invalid_utf8_is_corrupt() {
    let mut bytes = small_bytes();
    let last = bytes.len() - 1;
    bytes[last] = 0xFF;
    assert!(matches!(Checkpoint::from_bytes(&bytes), Err(CheckpointError::Corrupt)));
    let mut bytes = small_bytes();
    bytes[24] = 0xC0;
    assert!(matches!(Checkpoint::from_bytes(&bytes), Err(CheckpointError::Corrupt)));
}

#[test]
fn ranking_beyond_capacity_is_corrupt() {
    let cp = Checkpoint {
        session_id: "id".to_string(),
        keys_tested: 1,
        last_key: vec![],
        top_capacity: 1,
        top_scores: vec![("a".to_string(), 9), ("b".to_string(), 8)],
    };
    assert!(matches!(Checkpoint::from_bytes(&cp.to_bytes()), Err(CheckpointError::Corrupt)));
}

#[test]
fn unsorted_ranking_is_corrupt() {
    let cp = Checkpoint {
        session_id: "id".to_string(),
        keys_tested: 1,
        last_key: vec![],
        top_capacity: 4,
        top_scores: vec![("a".to_string(), 8), ("b".to_string(), 9)],
    };
    assert!(matches!(Checkpoint::from_bytes(&cp.to_bytes()), Err(CheckpointError::Corrupt)));
}

#[test]
fn oversized_length_is_corrupt() {
    let mut bytes = Vec::new();
    bytes.extend(word(5));
    bytes.extend(word(2));
    bytes.extend(word(u64::MAX));
    bytes.extend(b"id");
    assert!(matches!(Checkpoint::from_bytes(&bytes), Err(CheckpointError::Corrupt)));
}

#[test]
fn checkpoint_well_formedness_is_checked() {
    let mut cp = Checkpoint::save(&sample_session());
    assert!(cp.is_wf());
    cp.top_capacity = 2;
    assert!(!cp.is_wf());
    cp.top_capacity = 3;
    cp.top_scores.swap(0, 2);
    assert!(!cp.is_wf());
}

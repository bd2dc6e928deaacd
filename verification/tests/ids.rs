//! Identifiers and their text.

use chronicle_worker::ids::{ChunkId, ChunkSeq, PseudoId, SessionId};
use uuid::Uuid;

#[test]
fn session_text_is_the_uuid() {
    let u = Uuid::new_v4();
    let id = SessionId::from(u.as_u128());
    assert_eq!(id.to_text(), u.to_string());
    assert_eq!(id.as_uuid(), u.as_u128());
    assert_eq!(
        SessionId::new(0xffee_ddcc_bbaa_9988_7766_5544_3322_1100).to_text(),
        "ffeeddcc-bbaa-9988-7766-554433221100"
    );
}

#[test]
fn different_sessions_have_different_text() {
    assert_ne!(SessionId(1).to_text(), SessionId(2).to_text());
    assert_ne!(SessionId(1 << 127).to_text(), SessionId(0).to_text());
}

#[test]
fn chunk_text_joins_its_parts() {
    let id = ChunkId::new(
        SessionId(5),
        PseudoId::new("aabbccdd".to_string()),
        ChunkSeq::new(120),
    );
    assert_eq!(id.to_text(), "00000000-0000-0000-0000-000000000005/aabbccdd/120");
    assert_eq!(id.seq.as_u32(), 120);
    assert_eq!(id.pseudo.as_str(), "aabbccdd");
    assert!(id == id.clone());
}

#[test]
fn sequence_numbers_are_ordered() {
    assert!(ChunkSeq::new(9) < ChunkSeq::new(10));
    assert_eq!(ChunkSeq::new(0).to_text(), "0");
    assert_eq!(ChunkSeq::new(u32::MAX).to_text(), "4294967295");
}

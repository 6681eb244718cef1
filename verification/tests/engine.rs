use tezos_conversation::{
    ChunkInfo, ConsumeResult, Conversation, Decipher, DirectBuffer, Identity, NonceAddition,
    Packet, Sender,
};
use tezos_conversation::cipher::{check_proof_of_work, decrypt_of_encrypt, proof_of_work_value};
use tezos_conversation::dissector::chunks_after_in;

fn chunk(start: usize, end: usize, continuation: bool, incomplete: bool) -> ChunkInfo {
    ChunkInfo::new(start, end, continuation, incomplete)
}

/// A connection-message body: 2-byte port, 32-byte public key, 24-byte
/// proof-of-work nonce, then the version descriptor.
fn cm_body(port: u16, public_key: [u8; 32], version: &[u8]) -> Vec<u8> {
    let mut body = vec![(port >> 8) as u8, port as u8];
    body.extend_from_slice(&public_key);
    body.extend_from_slice(&[7u8; 24]);
    body.extend_from_slice(version);
    body
}

/// Frames a body as one wire chunk: big-endian 16-bit length prefix, then the
/// body.
fn frame(body: &[u8]) -> Vec<u8> {
    let mut wire = vec![(body.len() >> 8) as u8, body.len() as u8];
    wire.extend_from_slice(body);
    wire
}

fn packet(number: u64, source: u64, destination: u64, payload: Vec<u8>) -> Packet {
    Packet { number, source, destination, payload }
}

#[test]
fn framing_ranges_strictly_increase() {
    let mut buffer = DirectBuffer::new();
    // Three chunks with bodies of 3, 0 and 4 bytes, split oddly over packets.
    let mut wire = Vec::new();
    wire.extend_from_slice(&frame(&[1, 2, 3]));
    wire.extend_from_slice(&frame(&[]));
    wire.extend_from_slice(&frame(&[4, 5, 6, 7]));
    buffer.consume(&wire[..4], 1);
    buffer.consume(&wire[4..9], 2);
    buffer.consume(&wire[9..], 3);
    let chunks = buffer.chunks();
    assert_eq!(chunks.len(), 3);
    assert_eq!(chunks[0].range(), (0, 5));
    assert_eq!(chunks[1].range(), (5, 7));
    assert_eq!(chunks[2].range(), (7, 13));
    // Strictly increasing, non-overlapping, tiling the stream.
    for i in 1..chunks.len() {
        assert_eq!(chunks[i].start, chunks[i - 1].end);
        assert!(chunks[i].start < chunks[i].end);
    }
    assert_eq!(buffer.packet(1), (0, 4));
    assert_eq!(buffer.packet(2), (4, 9));
    assert_eq!(buffer.packet(3), (9, 13));
    assert_eq!(buffer.data(), &wire[..]);
}

#[test]
fn length_prefix_alone_declares_an_incomplete_chunk() {
    let mut buffer = DirectBuffer::new();
    // A segment carrying only the 2-byte length prefix 0x00 0x03: the chunk's
    // range is declared as [0, 5) although no body byte has arrived.
    buffer.consume(&[0x00, 0x03], 1);
    let chunks = buffer.chunks();
    assert_eq!(chunks.len(), 1);
    assert_eq!(chunks[0].range(), (0, 5));
    assert!(chunks[0].incomplete());
    // Decryption makes no progress on an incomplete chunk.
    let decipher = Decipher::from_key(vec![9u8; 32]);
    assert_eq!(buffer.decrypt(&decipher, Sender::Initiator), Ok(()));
    assert_eq!(buffer.decrypted(), 1);
    // Once the declared bytes arrive the chunk is complete.
    buffer.consume(&[0xaa, 0xbb, 0xcc], 2);
    assert!(!buffer.chunks()[0].incomplete());
    assert_eq!(buffer.chunks().len(), 1);
}

#[test]
fn round_trip_and_tamper_detection() {
    let decipher = Decipher::from_key((0u8..32).collect());
    let plain = b"chunk body payload";
    let nonce = NonceAddition::Initiator(0);
    let sealed = decipher.encrypt(plain, nonce);
    assert_eq!(sealed.len(), plain.len() + 16);
    // The ciphertext is not the plaintext handed back unchanged.
    assert_ne!(&sealed[..plain.len()], &plain[..]);
    // Round trip.
    assert_eq!(decipher.decrypt(&sealed, nonce), Some(plain.to_vec()));
    assert_eq!(decrypt_of_encrypt(&decipher, plain, nonce), plain.to_vec());
    // A mismatched nonce fails authentication.
    assert_eq!(decipher.decrypt(&sealed, NonceAddition::Initiator(1)), None);
    assert_eq!(decipher.decrypt(&sealed, NonceAddition::Responder(0)), None);
    // A tampered ciphertext fails authentication.
    let mut tampered = sealed.clone();
    tampered[0] ^= 1;
    assert_eq!(decipher.decrypt(&tampered, nonce), None);
    // A tampered tag fails authentication.
    let mut bad_tag = sealed;
    let last = bad_tag.len() - 1;
    bad_tag[last] ^= 1;
    assert_eq!(decipher.decrypt(&bad_tag, nonce), None);
}

#[test]
fn proof_of_work_boundary() {
    let public_key = [1u8; 32];
    let nonce = [2u8; 24];
    let v = proof_of_work_value(&public_key, &nonce);
    // The digest is not the input handed back unchanged: the first 8 bytes
    // of the input are all 0x01.
    assert_ne!(v, 0x0101_0101_0101_0101);
    // A pair meets its own value as a target; tightening the target by one
    // rejects it.
    assert!(v > 0);
    assert!(check_proof_of_work(&public_key, &nonce, v));
    assert!(!check_proof_of_work(&public_key, &nonce, v - 1));
    assert!(check_proof_of_work(&public_key, &nonce, u64::MAX));
}

#[test]
fn identity_requires_32_byte_keys() {
    assert!(Identity::new(vec![1u8; 32], vec![2u8; 32], 10).is_some());
    assert!(Identity::new(vec![1u8; 31], vec![2u8; 32], 10).is_none());
    assert!(Identity::new(vec![1u8; 32], vec![2u8; 33], 10).is_none());
}

#[test]
fn derive_deciphers_requires_matching_key() {
    let identity = Identity::new(vec![5u8; 32], vec![6u8; 32], u64::MAX).unwrap();
    let own_pk = [6u8; 32];
    let peer_pk = [8u8; 32];
    assert!(identity.derive_deciphers(&own_pk, &peer_pk).is_some());
    assert!(identity.derive_deciphers(&peer_pk, &own_pk).is_some());
    assert!(identity.derive_deciphers(&peer_pk, &peer_pk).is_none());
}

#[test]
fn chunks_after_walks_back_over_continuations() {
    let chunks = [
        chunk(0, 5, false, false),
        chunk(5, 10, true, false),
        chunk(10, 15, false, true),
        chunk(15, 20, false, false),
    ];
    // Offset inside the continuation chunk: report from the chunk it
    // continues.
    let (start, tail) = chunks_after_in(&chunks, 6).unwrap();
    assert_eq!(start, 0);
    assert_eq!(tail.len(), 4);
    // Offset inside a plain chunk: report from it.
    let (start, tail) = chunks_after_in(&chunks, 12).unwrap();
    assert_eq!(start, 2);
    assert_eq!(tail.len(), 2);
    // Offset inside the chunk after an incomplete one: the incomplete run is
    // included.
    let (start, tail) = chunks_after_in(&chunks, 17).unwrap();
    assert_eq!(start, 2);
    assert_eq!(tail.len(), 2);
    // Offset inside the first chunk.
    let (start, _) = chunks_after_in(&chunks, 0).unwrap();
    assert_eq!(start, 0);
    // Offset beyond every chunk.
    assert!(chunks_after_in(&chunks, 100).is_none());
}

#[test]
fn chunks_after_is_idempotent() {
    let chunks = [
        chunk(0, 5, false, true),
        chunk(5, 10, false, false),
        chunk(10, 15, true, false),
    ];
    for offset in 0..20 {
        let first = chunks_after_in(&chunks, offset);
        let second = chunks_after_in(&chunks, offset);
        assert_eq!(first, second);
    }
}

/// Builds a conversation in Streaming state: the local identity is the
/// initiator, both connection messages are delivered, and the directional
/// deciphers are derived the same way by the test and by the engine.
fn streaming_setup() -> (Conversation, Identity, Decipher, Decipher) {
    let secret = [3u8; 32];
    let pk_initiator = [4u8; 32];
    let pk_responder = [5u8; 32];
    let identity = Identity::new(secret.to_vec(), pk_initiator.to_vec(), u64::MAX).unwrap();
    let mut conversation = Conversation::new(u64::MAX);

    let body_i = cm_body(9732, pk_initiator, b"ver1");
    let body_r = cm_body(9732, pk_responder, b"ver1");
    let (r1, s1, _) = conversation.add(Some(&identity), &packet(1, 100, 200, frame(&body_i)));
    assert!(matches!(r1, ConsumeResult::ConnectionMessage { pow_ok: true, .. }));
    assert_eq!(s1, Sender::Initiator);
    let (r2, s2, _) = conversation.add(Some(&identity), &packet(2, 200, 100, frame(&body_r)));
    assert!(matches!(r2, ConsumeResult::ConnectionMessage { pow_ok: true, .. }));
    assert_eq!(s2, Sender::Responder);
    assert!(conversation.is_streaming());

    let (dec_i, dec_r) = identity.derive_deciphers(&pk_initiator, &pk_responder).unwrap();
    (conversation, identity, dec_i, dec_r)
}

#[test]
fn two_connection_messages_fix_roles_and_start_streaming() {
    let (conversation, _identity, _dec_i, _dec_r) = streaming_setup();
    assert!(conversation.is_streaming());
    assert!(!conversation.is_invalid());
    // Both connection messages are framed as the first chunk of their
    // direction.
    assert_eq!(conversation.buffer(Sender::Initiator).chunks().len(), 1);
    assert_eq!(conversation.buffer(Sender::Responder).chunks().len(), 1);
}

#[test]
fn streaming_chunk_is_decrypted_in_place() {
    let (mut conversation, identity, dec_i, _dec_r) = streaming_setup();
    let plain = b"the first encrypted message";
    let sealed = dec_i.encrypt(plain, NonceAddition::Initiator(0));
    let (r, s, range) = conversation.add(Some(&identity), &packet(3, 100, 200, frame(&sealed)));
    assert_eq!(s, Sender::Initiator);
    match r {
        ConsumeResult::Chunks { regular } => {
            assert_eq!(regular.len(), 1);
            let (body_start, body_end) = regular[0].body();
            let data = conversation.buffer(Sender::Initiator).data();
            assert_eq!(&data[body_start..body_end - 16], &plain[..]);
        },
        other => panic!("expected decrypted chunks, got {:?}", variant_name(&other)),
    }
    assert!(range.0 < range.1);
    assert_eq!(conversation.buffer(Sender::Initiator).decrypted(), 2);
}

#[test]
fn decryption_resumes_when_a_split_chunk_completes() {
    let (mut conversation, identity, dec_i, _dec_r) = streaming_setup();
    let plain = b"split across two packets";
    let sealed = dec_i.encrypt(plain, NonceAddition::Initiator(0));
    let wire = frame(&sealed);
    // First half: the chunk range is declared but not decryptable yet.
    let (r1, _, _) = conversation.add(Some(&identity), &packet(3, 100, 200, wire[..10].to_vec()));
    assert!(matches!(r1, ConsumeResult::NothingNew));
    assert_eq!(conversation.buffer(Sender::Initiator).decrypted(), 1);
    // Second half: the chunk completes and is decrypted.
    let (r2, _, _) = conversation.add(Some(&identity), &packet(4, 100, 200, wire[10..].to_vec()));
    match r2 {
        ConsumeResult::Chunks { regular } => {
            assert_eq!(regular.len(), 1);
            let (body_start, body_end) = regular[0].body();
            let data = conversation.buffer(Sender::Initiator).data();
            assert_eq!(&data[body_start..body_end - 16], &plain[..]);
        },
        other => panic!("expected decrypted chunks, got {:?}", variant_name(&other)),
    }
    assert_eq!(conversation.buffer(Sender::Initiator).decrypted(), 2);
}

#[test]
fn authentication_failure_is_terminal() {
    let (mut conversation, identity, dec_i, _dec_r) = streaming_setup();
    // Chunk 1 decrypts; chunk 2 is sealed under the wrong nonce counter and
    // fails authentication.
    let good = dec_i.encrypt(b"good chunk", NonceAddition::Initiator(0));
    let bad = dec_i.encrypt(b"bad nonce", NonceAddition::Initiator(7));
    let mut wire = frame(&good);
    wire.extend_from_slice(&frame(&bad));
    let (r, s, _) = conversation.add(Some(&identity), &packet(3, 100, 200, wire));
    match r {
        ConsumeResult::DecryptionFailed { error } => {
            assert_eq!(error.sender, Sender::Initiator);
            assert_eq!(error.chunk_number, 2);
        },
        other => panic!("expected a decryption failure, got {:?}", variant_name(&other)),
    }
    assert_eq!(s, Sender::Initiator);
    // The processed cursor stopped before the failing chunk.
    assert_eq!(conversation.buffer(Sender::Initiator).decrypted(), 2);
    assert!(conversation.is_invalid());
    // A subsequent delivery is a no-op.
    let before_len = conversation.buffer(Sender::Initiator).data().len();
    let (r2, _, range2) = conversation.add(Some(&identity), &packet(4, 100, 200, frame(b"more")));
    assert!(matches!(r2, ConsumeResult::InvalidConversation));
    assert_eq!(range2, (0, 0));
    assert_eq!(conversation.buffer(Sender::Initiator).data().len(), before_len);
}

#[test]
fn missing_identity_reports_structural_chunks() {
    let mut conversation = Conversation::new(u64::MAX);
    let body_i = cm_body(9732, [4u8; 32], b"v");
    let body_r = cm_body(9732, [5u8; 32], b"v");
    let (r1, _, _) = conversation.add(None, &packet(1, 100, 200, frame(&body_i)));
    assert!(matches!(r1, ConsumeResult::ConnectionMessage { pow_ok: true, .. }));
    let (r2, _, _) = conversation.add(None, &packet(2, 200, 100, frame(&body_r)));
    assert!(matches!(r2, ConsumeResult::ConnectionMessage { pow_ok: true, .. }));
    // Without an identity no keys are derived; further chunks are framed but
    // only surfaced structurally.
    assert!(!conversation.is_streaming());
    let (r3, _, _) = conversation.add(None, &packet(3, 100, 200, frame(b"opaque bytes")));
    match r3 {
        ConsumeResult::StructuralOnly { chunks } => assert_eq!(chunks.len(), 1),
        other => panic!("expected structural chunks, got {:?}", variant_name(&other)),
    }
}

#[test]
fn failed_proof_of_work_blocks_decryption() {
    // Target 0 is met by (almost) no pair; the handshake is rejected but
    // framing continues.
    let identity = Identity::new(vec![3u8; 32], vec![4u8; 32], 0).unwrap();
    let mut conversation = Conversation::new(0);
    let body_i = cm_body(9732, [4u8; 32], b"v");
    let (r1, _, _) = conversation.add(Some(&identity), &packet(1, 100, 200, frame(&body_i)));
    assert!(matches!(r1, ConsumeResult::ConnectionMessage { pow_ok: false, .. }));
    let body_r = cm_body(9732, [5u8; 32], b"v");
    let (_r2, _, _) = conversation.add(Some(&identity), &packet(2, 200, 100, frame(&body_r)));
    assert!(!conversation.is_streaming());
    assert!(!conversation.is_invalid());
}

fn variant_name(r: &ConsumeResult) -> &'static str {
    match r {
        ConsumeResult::ConnectionMessage { .. } => "ConnectionMessage",
        ConsumeResult::Chunks { .. } => "Chunks",
        ConsumeResult::StructuralOnly { .. } => "StructuralOnly",
        ConsumeResult::NothingNew => "NothingNew",
        ConsumeResult::DecryptionFailed { .. } => "DecryptionFailed",
        ConsumeResult::InvalidConversation => "InvalidConversation",
    }
}

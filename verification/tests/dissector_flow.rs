use tezos_conversation::{ConsumeResult, Packet, Sender, Storage, TezosDissector};
use tezos_conversation::chunk_info::{u16_be, ChunkInfo};
use tezos_conversation::conversation::parse_connection_message;

fn packet(number: u64, source: u64, destination: u64, payload: Vec<u8>) -> Packet {
    Packet { number, source, destination, payload }
}

#[test]
fn u16_be_reads_big_endian() {
    assert_eq!(u16_be(0x00, 0x03), 3);
    assert_eq!(u16_be(0x01, 0x00), 256);
    assert_eq!(u16_be(0xff, 0xff), 0xffff);
}

#[test]
fn connection_message_fields_are_cut_exactly() {
    let mut body = vec![0x26, 0x04];
    body.extend_from_slice(&[9u8; 32]);
    body.extend_from_slice(&[8u8; 24]);
    body.extend_from_slice(b"v1");
    let cm = parse_connection_message(&body).unwrap();
    assert_eq!(cm.port, 9732);
    assert_eq!(cm.public_key, vec![9u8; 32]);
    assert_eq!(cm.pow_nonce, vec![8u8; 24]);
    assert_eq!(cm.version, b"v1".to_vec());
    // One byte short of the fixed part: rejected.
    assert!(parse_connection_message(&body[..57]).is_none());
}

#[test]
fn dissector_routes_and_skips_duplicates() {
    let mut dissector = TezosDissector::new();
    let mut body = vec![0x26, 0x04];
    body.extend_from_slice(&[9u8; 32]);
    body.extend_from_slice(&[8u8; 24]);
    let mut wire = vec![(body.len() >> 8) as u8, body.len() as u8];
    wire.extend_from_slice(&body);

    let first = dissector.consume_packet(17, &packet(1, 100, 200, wire.clone()));
    match first {
        Some((ConsumeResult::ConnectionMessage { pow_ok, .. }, sender, range)) => {
            assert!(pow_ok);
            assert_eq!(sender, Sender::Initiator);
            assert_eq!(range, (0, wire.len()));
        },
        _ => panic!("expected a connection message"),
    }
    // The same packet number again: already recorded, nothing is re-applied.
    let again = dissector.consume_packet(17, &packet(1, 100, 200, wire.clone()));
    assert!(again.is_none());
    // A different conversation key starts its own engine.
    let other = dissector.consume_packet(18, &packet(1, 300, 400, wire));
    assert!(other.is_some());
}

#[test]
fn storage_answers_packet_and_chunk_queries() {
    let mut storage = Storage::new();
    let chunks = [
        ChunkInfo::new(0, 5, false, false),
        ChunkInfo::new(5, 12, false, false),
    ];
    storage.record(Sender::Initiator, &chunks, 1, (0, 7));
    storage.record(Sender::Initiator, &[], 2, (7, 12));
    assert_eq!(storage.packet_range(1), Some((0, 7)));
    assert_eq!(storage.packet_range(2), Some((7, 12)));
    assert_eq!(storage.packet_range(3), None);
    let (start, tail) = storage.chunks_after(Sender::Initiator, 7).unwrap();
    assert_eq!(start, 1);
    assert_eq!(tail.len(), 1);
    // The other direction has no chunks at all.
    assert!(storage.chunks_after(Sender::Responder, 0).is_none());
}

use bpm::communication::common::{
    reassemble_chunks, split_message, ChunkPayload, Command, MessageChunk, CHUNK_PAYLOAD_CAPACITY,
};

#[test]
fn test_encode_decode_payload() {
    let test_str = "test_process_name";
    let encoded = Command::encode_payload(test_str);
    let decoded = Command::decode_payload(&encoded).unwrap();
    assert_eq!(decoded, test_str);
}

#[test]
fn test_encode_decode_empty() {
    let test_str = "";
    let encoded = Command::encode_payload(test_str);
    let decoded = Command::decode_payload(&encoded).unwrap();
    assert_eq!(decoded, test_str);
}

#[test]
fn test_encode_decode_long_string() {
    let test_str = "a".repeat(CHUNK_PAYLOAD_CAPACITY - 1);
    let encoded = Command::encode_payload(&test_str);
    let decoded = Command::decode_payload(&encoded).unwrap();
    assert_eq!(decoded, test_str);
}

#[test]
fn test_encode_decode_multibyte() {
    let test_str = "wörker-αβγ";
    let encoded = Command::encode_payload(test_str);
    let decoded = Command::decode_payload(&encoded).unwrap();
    assert_eq!(decoded, test_str);
}

#[test]
fn test_encode_truncates_at_capacity() {
    let test_str = "b".repeat(CHUNK_PAYLOAD_CAPACITY + 100);
    let encoded = Command::encode_payload(&test_str);
    assert_eq!(encoded.len(), CHUNK_PAYLOAD_CAPACITY);
    let decoded = Command::decode_payload(&encoded).unwrap();
    assert_eq!(decoded, "b".repeat(CHUNK_PAYLOAD_CAPACITY));
}

#[test]
fn test_decode_stops_at_first_zero_byte() {
    // a zero byte inside the argument ends it on decode, so only strings
    // without embedded zero bytes round-trip
    let encoded = Command::encode_payload("a\u{0}b");
    let decoded = Command::decode_payload(&encoded).unwrap();
    assert_eq!(decoded, "a");
}

#[test]
fn test_decode_rejects_invalid_utf8() {
    let mut payload = vec![0u8; CHUNK_PAYLOAD_CAPACITY];
    payload[0] = 0xff;
    payload[1] = 0xfe;
    assert!(Command::decode_payload(&payload).is_err());
}

#[test]
fn test_command_constructors() {
    let name = "test_app";

    let cmd = Command::new_status(name);
    if let Command::Status(payload) = cmd {
        assert_eq!(Command::decode_payload(&payload).unwrap(), name);
    } else {
        panic!("Expected Status command");
    }

    let cmd = Command::new_start(name);
    if let Command::Start(payload) = cmd {
        assert_eq!(Command::decode_payload(&payload).unwrap(), name);
    } else {
        panic!("Expected Start command");
    }

    let cmd = Command::new_stop(name);
    if let Command::Stop(payload) = cmd {
        assert_eq!(Command::decode_payload(&payload).unwrap(), name);
    } else {
        panic!("Expected Stop command");
    }
}

#[test]
fn test_message_chunk_default() {
    let chunk = MessageChunk::default();
    assert_eq!(chunk.sequence_number, 0);
    assert!(!chunk.is_last);
    assert_eq!(chunk.used_payload_size, 0);
}

#[test]
fn test_message_chunk_new() {
    let data = b"test data".to_vec();
    let chunk = MessageChunk::new(1, true, data.len() as u32, data.clone());

    assert_eq!(chunk.sequence_number, 1);
    assert!(chunk.is_last);
    assert_eq!(chunk.used_payload_size, data.len() as u32);
    assert_eq!(&chunk.payload[..data.len()], &data[..]);
}

#[test]
fn test_framed_reply_reassembly() {
    // a 10,000-byte body splits into ceil(10000/CAP) frames, numbered from
    // zero, with the last-frame flag only on the final one, and reassembles
    // exactly
    let body: Vec<u8> = (0..10000u32).map(|i| (i % 251) as u8).collect();
    let expected_chunks = 10000usize.div_ceil(CHUNK_PAYLOAD_CAPACITY);
    let chunks = split_message(&body);
    assert_eq!(chunks.len(), expected_chunks);
    for (i, c) in chunks.iter().enumerate() {
        assert_eq!(c.sequence_number as usize, i);
        assert_eq!(c.is_last, i == expected_chunks - 1);
    }
    let rebuilt = reassemble_chunks(&chunks).unwrap();
    assert_eq!(rebuilt, body);
}

#[test]
fn test_reassembly_out_of_order() {
    let body: Vec<u8> = (0..9000u32).map(|i| (i % 97) as u8).collect();
    let mut chunks = split_message(&body);
    chunks.reverse();
    let rebuilt = reassemble_chunks(&chunks).unwrap();
    assert_eq!(rebuilt, body);
}

#[test]
fn test_reassembly_empty_body() {
    let chunks = split_message(&[]);
    assert_eq!(chunks.len(), 1);
    assert!(chunks[0].is_last);
    assert_eq!(chunks[0].used_payload_size, 0);
    let rebuilt = reassemble_chunks(&chunks).unwrap();
    assert!(rebuilt.is_empty());
}

#[test]
fn test_reassembly_incomplete_fails() {
    let body: Vec<u8> = vec![7u8; 3 * CHUNK_PAYLOAD_CAPACITY];
    let mut chunks = split_message(&body);
    chunks.remove(1);
    assert!(reassemble_chunks(&chunks).is_err());
}

#[test]
fn test_reassembly_without_final_chunk_fails() {
    let body: Vec<u8> = vec![9u8; 2 * CHUNK_PAYLOAD_CAPACITY];
    let mut chunks = split_message(&body);
    chunks.pop();
    assert!(reassemble_chunks(&chunks).is_err());
}

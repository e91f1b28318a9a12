//! Round trips and error handling of the datagram wire codec.

use pspdrp::codec::{
    DecodeError, DiscoveryRequest, DiscoveryResponse, GameInfo, Heartbeat, IconChunk, IconEnd,
    IconRequest, MessageType, PspState, StatsResponse, StatsUpload, encode_ack,
    encode_stats_request, parse_packet,
};

fn payload_of(packet: &[u8], expected: MessageType) -> Vec<u8> {
    let (t, payload) = parse_packet(packet).expect("packet must parse");
    assert_eq!(t, expected);
    payload.to_vec()
}

#[test]
fn heartbeat_round_trip() {
    let h = Heartbeat { uptime_seconds: 123456, wifi_strength: 87 };
    let packet = h.encode();
    let payload = payload_of(&packet, MessageType::Heartbeat);
    let back = Heartbeat::decode(&payload).unwrap();
    assert_eq!(back, h);
}

#[test]
fn game_info_round_trip() {
    let g = GameInfo {
        game_id: "ULUS10336".to_string(),
        title: "Crisis Core".to_string(),
        start_time: 1700000000,
        state: PspState::Game,
        has_icon: true,
        persistent: false,
        psp_name: "My PSP".to_string(),
    };
    let packet = g.encode();
    let payload = payload_of(&packet, MessageType::GameInfo);
    let back = GameInfo::decode(&payload).unwrap();
    assert_eq!(back, g);
}

#[test]
fn game_info_boundary_lengths() {
    // Empty strings, and a game id that fills its field with no trailing NUL.
    let g = GameInfo {
        game_id: "ABCDEFGHIJ".to_string(),
        title: String::new(),
        start_time: 0,
        state: PspState::Xmb,
        has_icon: false,
        persistent: true,
        psp_name: String::new(),
    };
    let packet = g.encode();
    let payload = payload_of(&packet, MessageType::GameInfo);
    let back = GameInfo::decode(&payload).unwrap();
    assert_eq!(back, g);
}

#[test]
fn game_info_short_payload_defaults() {
    // A 144-byte payload from an older sender: persistent defaults to
    // false and the device name to empty.
    let g = GameInfo {
        game_id: "XY".to_string(),
        title: "t".to_string(),
        start_time: 7,
        state: PspState::Video,
        has_icon: false,
        persistent: true,
        psp_name: "name".to_string(),
    };
    let packet = g.encode();
    let payload = &packet[5..5 + 144];
    let back = GameInfo::decode(payload).unwrap();
    assert!(!back.persistent);
    assert_eq!(back.psp_name, "");
    assert_eq!(back.game_id, "XY");
}

#[test]
fn icon_chunk_round_trip() {
    let c = IconChunk {
        game_id: "ULUS10336".to_string(),
        chunk_index: 2,
        total_chunks: 5,
        data: vec![1, 2, 3, 4, 5, 0, 7],
    };
    let packet = c.encode();
    let payload = payload_of(&packet, MessageType::IconChunk);
    let back = IconChunk::decode(&payload).unwrap();
    assert_eq!(back, c);
}

#[test]
fn icon_end_round_trip() {
    let e = IconEnd { game_id: "GAME01".to_string(), total_size: 3000, crc32: 0xDEADBEEF };
    let packet = e.encode();
    let payload = payload_of(&packet, MessageType::IconEnd);
    let back = IconEnd::decode(&payload).unwrap();
    assert_eq!(back, e);
}

#[test]
fn discovery_response_round_trip() {
    let d = DiscoveryResponse {
        psp_name: "Living Room PSP".to_string(),
        version: "1.0.0".to_string(),
        battery_percent: 73,
    };
    let packet = d.encode();
    let payload = payload_of(&packet, MessageType::DiscoveryResponse);
    let back = DiscoveryResponse::decode(&payload).unwrap();
    assert_eq!(back, d);
}

#[test]
fn discovery_request_round_trip() {
    let d = DiscoveryRequest::new(9276);
    assert_eq!(d.version, "1.0.0");
    let packet = d.encode();
    assert_eq!(packet.len(), 15);
    let payload = payload_of(&packet, MessageType::DiscoveryRequest);
    let back = DiscoveryRequest::decode(&payload).unwrap();
    assert_eq!(back, d);
}

#[test]
fn icon_request_round_trip() {
    let q = IconRequest::new("ULUS10336");
    let packet = q.encode();
    assert_eq!(packet.len(), 15);
    let payload = payload_of(&packet, MessageType::IconRequest);
    let back = IconRequest::decode(&payload).unwrap();
    assert_eq!(back, q);
}

#[test]
fn stats_upload_round_trip() {
    let u = StatsUpload {
        last_updated: 1700001234,
        chunk_index: 1,
        total_chunks: 3,
        json_data: b"{\"games\":[]}".to_vec(),
    };
    let packet = u.encode();
    let payload = payload_of(&packet, MessageType::StatsUpload);
    let back = StatsUpload::decode(&payload).unwrap();
    assert_eq!(back, u);
}

#[test]
fn stats_response_round_trip() {
    let s = StatsResponse {
        total_games: 12,
        total_playtime: 98700,
        chunk_index: 0,
        total_chunks: 1,
        json_data: b"{}".to_vec(),
    };
    let packet = s.encode();
    let payload = payload_of(&packet, MessageType::StatsResponse);
    let back = StatsResponse::decode(&payload).unwrap();
    assert_eq!(back, s);
}

#[test]
fn new_chunks_splits_and_rejoins() {
    let data: Vec<u8> = (0..2500u32).map(|i| (i % 251) as u8).collect();
    let chunks = StatsResponse::new_chunks(&data, 9, 4242);
    assert_eq!(chunks.len(), 3);
    let mut joined = Vec::new();
    for (i, c) in chunks.iter().enumerate() {
        assert_eq!(c.chunk_index as usize, i);
        assert_eq!(c.total_chunks, 3);
        assert_eq!(c.total_games, 9);
        assert_eq!(c.total_playtime, 4242);
        assert!(c.json_data.len() <= 1024);
        joined.extend_from_slice(&c.json_data);
    }
    assert_eq!(joined, data);
}

#[test]
fn new_chunks_empty_payload_still_sends_one() {
    let chunks = StatsResponse::new_chunks(&[], 0, 0);
    assert_eq!(chunks.len(), 1);
    assert_eq!(chunks[0].chunk_index, 0);
    assert_eq!(chunks[0].total_chunks, 1);
    assert!(chunks[0].json_data.is_empty());
}

#[test]
fn parse_packet_rejects_bad_input() {
    assert_eq!(parse_packet(b"PSP"), Err(DecodeError::TooShort));
    assert_eq!(parse_packet(b"JUNK\x01rest"), Err(DecodeError::BadMagic));
    assert_eq!(parse_packet(b"PSPR\x7Frest"), Err(DecodeError::UnknownType));
}

#[test]
fn decoders_reject_short_payloads() {
    assert_eq!(Heartbeat::decode(&[0; 4]), Err(DecodeError::TooShort));
    assert_eq!(GameInfo::decode(&[0; 143]), Err(DecodeError::TooShort));
    assert_eq!(IconChunk::decode(&[0; 15]), Err(DecodeError::TooShort));
    assert_eq!(IconEnd::decode(&[0; 17]), Err(DecodeError::TooShort));
    assert_eq!(DiscoveryResponse::decode(&[0; 40]), Err(DecodeError::TooShort));
    assert_eq!(StatsUpload::decode(&[0; 13]), Err(DecodeError::TooShort));
    // A chunk whose declared data length runs past the buffer is also short.
    let mut chunk_payload = vec![0u8; 16];
    chunk_payload[14] = 5;
    assert_eq!(IconChunk::decode(&chunk_payload), Err(DecodeError::TooShort));
}

#[test]
fn fixed_packets_have_expected_bytes() {
    assert_eq!(encode_ack(), vec![0x50, 0x53, 0x50, 0x52, 0x10]);
    assert_eq!(encode_stats_request(), vec![0x50, 0x53, 0x50, 0x52, 0x05]);
}

#[test]
fn state_codes_are_stable() {
    assert_eq!(PspState::from_code(0), PspState::Xmb);
    assert_eq!(PspState::from_code(1), PspState::Game);
    assert_eq!(PspState::from_code(4), PspState::Music);
    // Unknown state bytes fall back to browsing.
    assert_eq!(PspState::from_code(200), PspState::Xmb);
    assert_eq!(PspState::Game.as_str(), "Playing");
    assert_eq!(MessageType::from_code(0x02), Some(MessageType::GameInfo));
    assert_eq!(MessageType::from_code(0x7F), None);
    assert_eq!(MessageType::StatsUpload.code(), 0x06);
}

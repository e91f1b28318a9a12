//! The USB framing: parsing, offset-addressed icon accumulation, and the
//! ACK-gated statistics chunks.

use pspdrp::usb::{
    encode_ack, encode_icon_request, encode_stats_response_chunks, parse_packet,
    try_parse_icon_chunk, IconAssembler, IconChunk, UsbEvent,
};

fn usb_header(packet_type: u8) -> Vec<u8> {
    vec![0x44, 0x50, 0x53, 0x50, packet_type, 0, 0, 0]
}

fn usb_game_info_packet() -> Vec<u8> {
    let mut p = usb_header(0x02);
    let mut game_id = [0u8; 10];
    game_id[..5].copy_from_slice(b"GAME1");
    p.extend_from_slice(&game_id);
    let mut title = [0u8; 64];
    title[..5].copy_from_slice(b"Title");
    p.extend_from_slice(&title);
    p.push(1); // state
    p.push(1); // has_icon
    p.extend_from_slice(&777u32.to_le_bytes());
    p.push(0); // persistent
    let mut name = [0u8; 32];
    name[..3].copy_from_slice(b"PSP");
    p.extend_from_slice(&name);
    p.extend_from_slice(&[0u8; 7]);
    p
}

#[test]
fn parse_game_info_packet() {
    let p = usb_game_info_packet();
    match parse_packet(&p) {
        Some(UsbEvent::GameInfo(g)) => {
            assert_eq!(g.game_id, "GAME1");
            assert_eq!(g.title, "Title");
            assert_eq!(g.state, 1);
            assert!(g.has_icon);
            assert_eq!(g.start_time, 777);
            assert!(!g.persistent);
            assert_eq!(g.psp_name, "PSP");
        },
        other => panic!("unexpected parse {:?}", other),
    }
}

fn usb_icon_chunk_packet(
    game_id: &str,
    total_size: u16,
    offset: u16,
    num: u8,
    total: u8,
    data: &[u8],
) -> Vec<u8> {
    let mut p = usb_header(0x03);
    let mut id = [0u8; 10];
    id[..game_id.len()].copy_from_slice(game_id.as_bytes());
    p.extend_from_slice(&id);
    p.extend_from_slice(&total_size.to_le_bytes());
    p.extend_from_slice(&offset.to_le_bytes());
    p.extend_from_slice(&(data.len() as u16).to_le_bytes());
    p.push(num);
    p.push(total);
    p.extend_from_slice(data);
    p
}

#[test]
fn single_chunk_icon_parses_directly() {
    let p = usb_icon_chunk_packet("G1", 4, 0, 0, 1, &[9, 8, 7, 6]);
    match parse_packet(&p) {
        Some(UsbEvent::IconData { game_id, data }) => {
            assert_eq!(game_id, "G1");
            assert_eq!(data, vec![9, 8, 7, 6]);
        },
        other => panic!("unexpected parse {:?}", other),
    }
}

#[test]
fn multi_chunk_icon_goes_through_the_assembler() {
    let p0 = usb_icon_chunk_packet("G1", 6, 0, 0, 2, &[1, 2, 3]);
    let p1 = usb_icon_chunk_packet("G1", 6, 3, 1, 2, &[4, 5, 6]);
    assert!(parse_packet(&p0).is_none());

    let c0 = try_parse_icon_chunk(&p0).unwrap();
    let c1 = try_parse_icon_chunk(&p1).unwrap();
    assert_eq!(c0.total_size, 6);
    assert_eq!(c1.chunk_offset, 3);

    let mut assembler = IconAssembler::new();
    assert!(assembler.insert_chunk(&c1).is_none());
    let (game_id, data) = assembler.insert_chunk(&c0).unwrap();
    assert_eq!(game_id, "G1");
    assert_eq!(data, vec![1, 2, 3, 4, 5, 6]);
}

#[test]
fn oversized_chunk_offset_is_dropped() {
    let mut assembler = IconAssembler::new();
    let chunk = IconChunk {
        game_id: "G".to_string(),
        total_size: 4,
        chunk_offset: 3,
        chunk_data: vec![1, 2, 3],
        chunk_num: 0,
        total_chunks: 1,
    };
    assert!(assembler.insert_chunk(&chunk).is_none());
}

#[test]
fn non_icon_packets_do_not_parse_as_chunks() {
    assert!(try_parse_icon_chunk(&usb_game_info_packet()).is_none());
    assert!(try_parse_icon_chunk(b"short").is_none());
    assert!(parse_packet(&usb_header(0x01)).is_none());
    assert!(parse_packet(b"nope").is_none());
}

#[test]
fn stats_request_and_upload_parse() {
    let mut req = usb_header(0x05);
    req.extend_from_slice(&123456789u64.to_le_bytes());
    match parse_packet(&req) {
        Some(UsbEvent::StatsRequested { psp_name, local_timestamp }) => {
            assert_eq!(psp_name, "");
            assert_eq!(local_timestamp, 123456789);
        },
        other => panic!("unexpected parse {:?}", other),
    }

    let mut up = usb_header(0x06);
    up.extend_from_slice(&42u64.to_le_bytes());
    up.extend_from_slice(&0u16.to_le_bytes()); // chunk_index
    up.extend_from_slice(&1u16.to_le_bytes()); // total_chunks
    up.extend_from_slice(&2u16.to_le_bytes()); // data_len
    up.extend_from_slice(b"{}");
    match parse_packet(&up) {
        Some(UsbEvent::StatsUploaded { last_updated, json_data }) => {
            assert_eq!(last_updated, 42);
            assert_eq!(json_data, "{}");
        },
        other => panic!("unexpected parse {:?}", other),
    }
}

#[test]
fn encoded_fixed_packets() {
    assert_eq!(encode_ack(), vec![0x44, 0x50, 0x53, 0x50, 0x10, 0, 0, 0]);
    let req = encode_icon_request("ULUS10000");
    assert_eq!(req.len(), 24);
    assert_eq!(&req[..5], &[0x44, 0x50, 0x53, 0x50, 0x11]);
    assert_eq!(&req[8..17], b"ULUS10000");
    assert_eq!(req[17], 0);
}

#[test]
fn stats_response_chunks_are_fixed_size_and_rejoin() {
    let data: Vec<u8> = (0..1000u32).map(|i| (i % 97) as u8).collect();
    let packets = encode_stats_response_chunks(55, &data);
    assert_eq!(packets.len(), 3);
    let mut joined = Vec::new();
    for (i, p) in packets.iter().enumerate() {
        assert_eq!(p.len(), 512);
        assert_eq!(&p[..5], &[0x44, 0x50, 0x53, 0x50, 0x12]);
        assert_eq!(u64::from_le_bytes(p[8..16].try_into().unwrap()), 55);
        assert_eq!(u32::from_le_bytes(p[16..20].try_into().unwrap()), 1000);
        assert_eq!(u16::from_le_bytes(p[20..22].try_into().unwrap()), i as u16);
        assert_eq!(u16::from_le_bytes(p[22..24].try_into().unwrap()), 3);
        let len = u16::from_le_bytes(p[24..26].try_into().unwrap()) as usize;
        joined.extend_from_slice(&p[26..26 + len]);
    }
    assert_eq!(joined, data);

    assert!(encode_stats_response_chunks(1, &[]).is_empty());
}

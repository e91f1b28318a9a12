//! The handheld's statistics sync: the request packet and the chunked
//! response collector.

use pspdrp::codec::StatsResponse;
use pspdrp::netclient::{NetworkManager, StatsCollector};

#[test]
fn manager_holds_the_companion_address() {
    let mut m = NetworkManager::new();
    assert_eq!(m.companion_ip, [0, 0, 0, 0]);
    assert_eq!(m.companion_port, 9276);
    m.set_companion_ip([192, 168, 1, 50]);
    m.set_companion_port(9999);
    assert_eq!(m.companion_ip, [192, 168, 1, 50]);
    assert_eq!(m.companion_port, 9999);
    assert_eq!(m.build_stats_request(), vec![0x50, 0x53, 0x50, 0x52, 0x05]);
}

#[test]
fn collector_reassembles_a_chunked_response() {
    let data: Vec<u8> = (0..1500u32).map(|i| (i % 113) as u8).collect();
    let chunks = StatsResponse::new_chunks(&data, 4, 777);
    assert_eq!(chunks.len(), 2);

    let mut col = StatsCollector::new();
    assert!(!col.is_complete());
    for c in &chunks {
        let packet = c.encode();
        assert!(col.feed(&packet));
    }
    assert!(col.is_complete());
    assert_eq!(col.into_json(), Some(data));
}

#[test]
fn collector_ignores_noise() {
    let mut col = StatsCollector::new();
    assert!(!col.feed(b"tiny"));
    assert!(!col.feed(b"JUNKJUNKJUNKJUNKJUNKJUNK"));
    // A heartbeat packet padded out: right magic, wrong type.
    let mut wrong_type = vec![0x50, 0x53, 0x50, 0x52, 0x01];
    wrong_type.extend_from_slice(&[0u8; 20]);
    assert!(!col.feed(&wrong_type));
    // A response header whose declared data runs past the datagram.
    let mut truncated = vec![0x50, 0x53, 0x50, 0x52, 0x12];
    truncated.extend_from_slice(&[0u8; 14]); // total_games..total_chunks
    truncated.extend_from_slice(&50u16.to_le_bytes()); // declares 50 bytes
    assert!(!col.feed(&truncated));
    assert!(!col.is_complete());
    assert_eq!(col.into_json(), None);
}

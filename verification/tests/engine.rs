//! End-to-end scenarios through the packet dispatch and the session
//! registry.

use pspdrp::codec::{GameInfo, Heartbeat, IconChunk, IconEnd, PspState, StatsUpload};
use pspdrp::engine::{handle_packet, ServerAction, ServerEvent};
use pspdrp::registry::{DeviceId, IconOutcome, SessionRegistry};

fn device(port: u16) -> DeviceId {
    DeviceId { host: 0xC0A8_0105, port }
}

fn game(game_id: &str) -> GameInfo {
    GameInfo {
        game_id: game_id.to_string(),
        title: format!("Title of {}", game_id),
        start_time: 1000,
        state: PspState::Game,
        has_icon: true,
        persistent: false,
        psp_name: "PSP-TEST".to_string(),
    }
}

#[test]
fn icon_transfer_in_order_2_0_1_with_good_checksum() {
    // Three chunks of one icon totaling 300 bytes arrive out of order,
    // then an end marker with the right checksum: exactly one icon-ready
    // event carrying the 300 assembled bytes.
    let mut reg = SessionRegistry::new();
    let id = device(5000);
    let hb = Heartbeat { uptime_seconds: 1, wifi_strength: 50 }.encode();
    handle_packet(&mut reg, id, &hb, 10, false);

    let part0: Vec<u8> = vec![0xAA; 100];
    let part1: Vec<u8> = vec![0xBB; 100];
    let part2: Vec<u8> = vec![0xCC; 100];
    let mut full = Vec::new();
    full.extend_from_slice(&part0);
    full.extend_from_slice(&part1);
    full.extend_from_slice(&part2);
    let crc = crc32fast::hash(&full);

    let mut icon_events = 0;
    for (idx, data) in [(2u16, part2.clone()), (0u16, part0.clone()), (1u16, part1.clone())] {
        let chunk = IconChunk {
            game_id: "ULUS10000".to_string(),
            chunk_index: idx,
            total_chunks: 3,
            data,
        }
        .encode();
        let out = handle_packet(&mut reg, id, &chunk, 11, false);
        icon_events += out
            .events
            .iter()
            .filter(|e| matches!(e, ServerEvent::IconReceived { .. }))
            .count();
        assert_eq!(out.actions, vec![ServerAction::SendAck { id }]);
    }
    assert_eq!(icon_events, 0);

    let end = IconEnd { game_id: "ULUS10000".to_string(), total_size: 300, crc32: crc }.encode();
    let out = handle_packet(&mut reg, id, &end, 12, false);
    assert_eq!(out.events.len(), 1);
    match &out.events[0] {
        ServerEvent::IconReceived { game_id, data } => {
            assert_eq!(game_id, "ULUS10000");
            assert_eq!(data.len(), 300);
            assert_eq!(*data, full);
        },
        other => panic!("unexpected event {:?}", other),
    }
}

#[test]
fn icon_transfer_with_wrong_checksum_is_discarded() {
    let mut reg = SessionRegistry::new();
    let id = device(5001);
    let hb = Heartbeat { uptime_seconds: 1, wifi_strength: 50 }.encode();
    handle_packet(&mut reg, id, &hb, 10, false);

    let data: Vec<u8> = vec![0x11; 300];
    let good_crc = crc32fast::hash(&data);
    for idx in [2u16, 0, 1] {
        let chunk = IconChunk {
            game_id: "ULUS10000".to_string(),
            chunk_index: idx,
            total_chunks: 3,
            data: vec![0x11; 100],
        }
        .encode();
        handle_packet(&mut reg, id, &chunk, 11, false);
    }
    let end = IconEnd {
        game_id: "ULUS10000".to_string(),
        total_size: 300,
        crc32: good_crc.wrapping_add(1),
    }
    .encode();
    let out = handle_packet(&mut reg, id, &end, 12, false);
    assert_eq!(out.events.len(), 0);

    // The buffer is gone: presenting the end marker again finds nothing.
    let out2 = handle_packet(&mut reg, id, &IconEnd {
        game_id: "ULUS10000".to_string(),
        total_size: 300,
        crc32: good_crc,
    }
    .encode(), 13, false);
    assert_eq!(out2.events.len(), 0);
}

#[test]
fn checksum_gate_via_registry() {
    let mut reg = SessionRegistry::new();
    let id = device(5002);
    reg.touch(id, 0, false);
    let chunk = IconChunk {
        game_id: "G".to_string(),
        chunk_index: 0,
        total_chunks: 1,
        data: vec![1, 2, 3],
    };
    reg.insert_icon_chunk(id, &chunk);
    let bad = IconEnd { game_id: "G".to_string(), total_size: 3, crc32: 0 };
    assert_eq!(reg.finish_icon(id, &bad), IconOutcome::ChecksumMismatch);
    assert_eq!(reg.finish_icon(id, &bad), IconOutcome::NoTransfer);

    reg.insert_icon_chunk(id, &chunk);
    let good = IconEnd {
        game_id: "G".to_string(),
        total_size: 3,
        crc32: crc32fast::hash(&[1, 2, 3]),
    };
    assert_eq!(reg.finish_icon(id, &good), IconOutcome::Ready(vec![1, 2, 3]));
}

#[test]
fn game_change_edge_is_reported_once() {
    let mut reg = SessionRegistry::new();
    let id = device(5003);

    let changed = |reg: &mut SessionRegistry, g: &GameInfo, now| -> bool {
        let out = handle_packet(reg, id, &g.encode(), now, false);
        assert_eq!(out.events.len(), 1);
        match &out.events[0] {
            ServerEvent::GameInfoUpdated { game_changed, .. } => *game_changed,
            other => panic!("unexpected event {:?}", other),
        }
    };

    let abc = game("ABC");
    let xyz = game("XYZ");
    assert!(changed(&mut reg, &abc, 10));
    assert!(!changed(&mut reg, &abc, 11));
    assert!(changed(&mut reg, &xyz, 12));
    assert!(!changed(&mut reg, &xyz, 13));
}

#[test]
fn discovery_request_sent_once_per_new_address() {
    let mut reg = SessionRegistry::new();
    let id = device(5004);
    let hb = Heartbeat { uptime_seconds: 1, wifi_strength: 9 }.encode();

    let out = handle_packet(&mut reg, id, &hb, 10, true);
    assert_eq!(
        out.actions,
        vec![ServerAction::SendAck { id }, ServerAction::SendDiscoveryRequest { id }]
    );

    let out2 = handle_packet(&mut reg, id, &hb, 11, true);
    assert_eq!(out2.actions, vec![ServerAction::SendAck { id }]);

    // Another address gets its own single discovery request.
    let other = device(5005);
    let out3 = handle_packet(&mut reg, other, &hb, 12, true);
    assert_eq!(
        out3.actions,
        vec![ServerAction::SendAck { id: other }, ServerAction::SendDiscoveryRequest { id: other }]
    );
}

#[test]
fn stalled_stats_upload_never_fires_and_survives_sweeps() {
    let mut reg = SessionRegistry::new();
    let id = device(5006);
    let hb = Heartbeat { uptime_seconds: 1, wifi_strength: 9 }.encode();
    handle_packet(&mut reg, id, &hb, 10, false);

    let chunk0 = StatsUpload {
        last_updated: 777,
        chunk_index: 0,
        total_chunks: 2,
        json_data: b"{\"games\":".to_vec(),
    }
    .encode();
    let out = handle_packet(&mut reg, id, &chunk0, 11, false);
    assert!(out.events.iter().all(|e| !matches!(e, ServerEvent::StatsUploaded { .. })));

    // Sweeps inside the timeout: the session and its half-done upload stay.
    for now in [20u64, 40, 60] {
        let evicted = reg.evict_stale(now, 90);
        assert!(evicted.is_empty());
        assert_eq!(reg.session_count(), 1);
    }
}

#[test]
fn completed_stats_upload_fires_once() {
    let mut reg = SessionRegistry::new();
    let id = device(5007);
    let hb = Heartbeat { uptime_seconds: 1, wifi_strength: 9 }.encode();
    handle_packet(&mut reg, id, &hb, 10, false);

    let c0 = StatsUpload {
        last_updated: 777,
        chunk_index: 0,
        total_chunks: 2,
        json_data: b"{\"a\":".to_vec(),
    }
    .encode();
    let c1 = StatsUpload {
        last_updated: 777,
        chunk_index: 1,
        total_chunks: 2,
        json_data: b"1}".to_vec(),
    }
    .encode();
    let out0 = handle_packet(&mut reg, id, &c0, 11, false);
    assert_eq!(out0.events.len(), 0);
    let out1 = handle_packet(&mut reg, id, &c1, 12, false);
    assert_eq!(out1.events.len(), 1);
    match &out1.events[0] {
        ServerEvent::StatsUploaded { last_updated, json_data, .. } => {
            assert_eq!(*last_updated, 777);
            assert_eq!(json_data, b"{\"a\":1}");
        },
        other => panic!("unexpected event {:?}", other),
    }
}

#[test]
fn timeout_eviction_and_persistent_exemption() {
    let mut reg = SessionRegistry::new();
    let stale_id = device(6000);
    let fresh_id = device(6001);
    let persistent_id = device(6002);
    reg.touch(stale_id, 0, false);
    reg.touch(fresh_id, 95, false);
    reg.touch(persistent_id, 0, false);
    reg.mark_persistent(persistent_id);

    let evicted = reg.evict_stale(100, 90);
    assert_eq!(evicted.len(), 1);
    assert_eq!(evicted[0].identity, stale_id);
    assert_eq!(evicted[0].name, "PSP-6000");
    assert_eq!(reg.session_count(), 2);
    assert!(!reg.contains(stale_id));
    assert!(reg.contains(fresh_id));
    assert!(reg.contains(persistent_id));

    // Much later, the persistent session still survives.
    let evicted2 = reg.evict_stale(1_000_000, 90);
    assert_eq!(evicted2.len(), 1);
    assert_eq!(evicted2[0].identity, fresh_id);
    assert!(reg.contains(persistent_id));
    assert_eq!(reg.session_count(), 1);
}

#[test]
fn malformed_packets_change_nothing() {
    let mut reg = SessionRegistry::new();
    let id = device(7000);
    for bytes in [&b"PSP"[..], &b"JUNK\x01xx"[..], &b"PSPR\x7Fxx"[..], &b"PSPR\x01\x00"[..]] {
        let out = handle_packet(&mut reg, id, bytes, 5, true);
        assert!(out.events.is_empty());
        assert!(out.actions.is_empty());
        assert_eq!(reg.session_count(), 0);
    }
}

#[test]
fn discovery_response_names_the_session() {
    let mut reg = SessionRegistry::new();
    let id = device(7001);
    let resp = pspdrp::codec::DiscoveryResponse {
        psp_name: "Bedroom PSP".to_string(),
        version: "1.0.0".to_string(),
        battery_percent: 42,
    }
    .encode();
    let out = handle_packet(&mut reg, id, &resp, 10, true);
    assert_eq!(out.events.len(), 1);
    match &out.events[0] {
        ServerEvent::PspConnected { name, battery, .. } => {
            assert_eq!(name, "Bedroom PSP");
            assert_eq!(*battery, 42);
        },
        other => panic!("unexpected event {:?}", other),
    }
    assert_eq!(reg.session_name(id), Some("Bedroom PSP".to_string()));
}

#[test]
fn stats_request_reports_session_name() {
    let mut reg = SessionRegistry::new();
    let id = device(7002);
    handle_packet(&mut reg, id, &Heartbeat { uptime_seconds: 0, wifi_strength: 0 }.encode(), 1, false);
    let req = pspdrp::codec::encode_stats_request();
    let out = handle_packet(&mut reg, id, &req, 2, false);
    assert_eq!(out.events.len(), 1);
    match &out.events[0] {
        ServerEvent::StatsRequested { psp_name, .. } => assert_eq!(psp_name, "PSP-7002"),
        other => panic!("unexpected event {:?}", other),
    }
}

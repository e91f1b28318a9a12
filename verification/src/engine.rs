//! Packet-to-event dispatch shared by both transports.
//!
//! A transport adapter hands every inbound datagram here together with the
//! peer's identity and the current time; the engine decodes it, updates the
//! session registry, and returns the higher-level events to report and the
//! transport actions (acknowledgement, discovery request) to perform.  A
//! malformed packet is dropped silently: it produces no event, no action
//! and no state change.

use vstd::prelude::*;

verus! {

use crate::codec::{
    MessageType, Heartbeat, GameInfo, GameInfoView, IconChunk, IconChunkView, IconEnd, IconEndView,
    DiscoveryResponse, StatsUpload, StatsUploadView, parse_packet, spec_parse_packet,
    spec_decode_heartbeat, spec_decode_game_info, spec_decode_icon_chunk, spec_decode_icon_end,
    spec_decode_discovery_response, spec_decode_stats_upload,
};
use crate::registry::{
    DeviceId, Session, SessionRegistry, IconOutcome, updated_at, same_except_icons,
    session_touched, fresh_session, touch_post, discovered_post, spec_would_discover,
    spec_game_changed, spec_default_name, icon_chunk_post, stats_ignored, stats_completes,
    stats_applied, stats_base_total, stats_base_timestamp, same_except_stats,
};
use crate::reassembly::spec_assembled;
use crate::crc::crc32_of;

/// A higher-level event the engine reports outward.
#[derive(Debug, PartialEq)]
pub enum ServerEvent {
    /// A device answered discovery and is now known by name.
    PspConnected { id: DeviceId, name: String, battery: u8 },
    /// A session timed out; carries the last known display name.
    PspDisconnected { id: DeviceId, name: String },
    /// A game update arrived; `game_changed` marks the edge the rest of
    /// the system uses to request a new icon and roll sessions over.
    GameInfoUpdated { id: DeviceId, info: GameInfo, game_changed: bool },
    /// A liveness message arrived.
    HeartbeatReceived { id: DeviceId, heartbeat: Heartbeat },
    /// An icon transfer completed and passed its checksum.
    IconReceived { game_id: String, data: Vec<u8> },
    /// The device asked for the desktop's statistics.
    StatsRequested { id: DeviceId, psp_name: String },
    /// A statistics upload completed.
    StatsUploaded { id: DeviceId, psp_name: String, last_updated: u64, json_data: Vec<u8> },
}

/// A transport action the engine asks its caller to perform.
#[derive(Debug, Clone, Copy, PartialEq, Eq, Structural)]
pub enum ServerAction {
    /// Acknowledge the packet to its sender.
    SendAck { id: DeviceId },
    /// Send a one-shot discovery request to the sender's discovery port.
    SendDiscoveryRequest { id: DeviceId },
}

/// What the engine returns for one inbound packet.
pub struct HandleOutcome {
    /// The events to report outward, in order.
    pub events: Vec<ServerEvent>,
    /// The transport actions to perform, in order.
    pub actions: Vec<ServerAction>,
}

/// The actions for an acknowledged device-to-host packet: the ACK, then a
/// discovery request when one is due.
pub open spec fn ack_actions(a: SessionRegistry, id: DeviceId, auto: bool) -> Seq<ServerAction> {
    if spec_would_discover(a, id, auto) {
        seq![ServerAction::SendAck { id }, ServerAction::SendDiscoveryRequest { id }]
    } else {
        seq![ServerAction::SendAck { id }]
    }
}

/// Whether a game update changes the current game of the session this
/// identity has — an unknown identity always counts as a change.
pub open spec fn spec_game_edge(a: SessionRegistry, id: DeviceId, game_id: Seq<char>) -> bool {
    if a.has_session(id) {
        spec_game_changed(a.session_of(id), game_id)
    } else {
        true
    }
}

/// What a game update packet does to the registry: the session is touched
/// and the update stored, or a fresh session is created around it.
pub open spec fn game_packet_post(
    a: SessionRegistry,
    b: SessionRegistry,
    id: DeviceId,
    gv: GameInfoView,
    now: u64,
    auto: bool,
) -> bool {
    if a.has_session(id) {
        let i = a.session_index(id);
        let old_s = a.sessions@[i];
        &&& updated_at(a, b, i)
        &&& ({
            let s = b.sessions@[i];
            &&& s.identity == old_s.identity
            &&& s.name@ == if gv.psp_name.len() > 0 {
                gv.psp_name
            } else {
                old_s.name@
            }
            &&& s.last_seen == now
            &&& s.current_game matches Some(g) && g@ == gv
            &&& s.icon_transfers == old_s.icon_transfers
            &&& s.stats_upload == old_s.stats_upload
            &&& s.discovery_sent == (old_s.discovery_sent || auto)
            &&& s.persistent == (old_s.persistent || gv.persistent)
        })
    } else {
        &&& b.sessions@.len() == a.sessions@.len() + 1
        &&& (forall|k: int| 0 <= k < a.sessions@.len() ==> b.sessions@[k] == a.sessions@[k])
        &&& ({
            let s = b.sessions@.last();
            &&& s.identity == id
            &&& s.name@ == if gv.psp_name.len() > 0 {
                gv.psp_name
            } else {
                spec_default_name(id.port)
            }
            &&& s.last_seen == now
            &&& s.current_game matches Some(g) && g@ == gv
            &&& s.icon_transfers@.len() == 0
            &&& s.stats_upload is None
            &&& s.discovery_sent == auto
            &&& s.persistent == gv.persistent
        })
    }
}

/// What an icon chunk does to the registry: it lands in this identity's
/// session, or nowhere.
pub open spec fn reg_icon_chunk_post(
    a: SessionRegistry,
    b: SessionRegistry,
    id: DeviceId,
    cv: IconChunkView,
) -> bool {
    if a.has_session(id) {
        let i = a.session_index(id);
        updated_at(a, b, i) && icon_chunk_post(a.sessions@[i], b.sessions@[i], cv)
    } else {
        b == a
    }
}

/// What an end marker does to a session's state, result aside.
pub open spec fn icon_end_state(old_s: Session, new_s: Session, ev: IconEndView) -> bool {
    if old_s.has_icon_transfer(ev.game_id) {
        let j = old_s.icon_index(ev.game_id);
        same_except_icons(old_s, new_s) && new_s.icon_transfers@ == old_s.icon_transfers@.remove(j)
    } else {
        new_s == old_s
    }
}

/// What an end marker does to the registry: the transfer it closes is
/// removed from this identity's session, or nothing happens.
pub open spec fn reg_icon_end_post(
    a: SessionRegistry,
    b: SessionRegistry,
    id: DeviceId,
    ev: IconEndView,
) -> bool {
    if a.has_session(id) {
        let i = a.session_index(id);
        updated_at(a, b, i) && icon_end_state(a.sessions@[i], b.sessions@[i], ev)
    } else {
        b == a
    }
}

/// The bytes an end marker would release: the session's transfer for that
/// game, assembled in index order.
pub open spec fn spec_icon_data(a: SessionRegistry, id: DeviceId, ev: IconEndView) -> Seq<u8> {
    spec_assembled(a.session_of(id).icon_buffer_of(ev.game_id)@)
}

/// Whether an end marker releases an icon: the identity has a session, a
/// transfer for that game is in flight, and the assembled bytes checksum
/// to the declared value.
pub open spec fn icon_released(a: SessionRegistry, id: DeviceId, ev: IconEndView) -> bool {
    &&& a.has_session(id)
    &&& a.session_of(id).has_icon_transfer(ev.game_id)
    &&& crc32_of(spec_icon_data(a, id, ev)) == ev.crc32
}

/// What an upload chunk does to a session's state, result aside.
pub open spec fn stats_state(old_s: Session, new_s: Session, uv: StatsUploadView) -> bool {
    if stats_ignored(old_s, uv) {
        new_s == old_s
    } else {
        &&& same_except_stats(old_s, new_s)
        &&& if stats_completes(old_s, uv) {
            new_s.stats_upload is None
        } else {
            new_s.stats_upload matches Some((bf, t)) && bf@ == stats_applied(old_s, uv)
                && bf.total_chunks == stats_base_total(old_s, uv) && t == stats_base_timestamp(
                old_s,
                uv,
            )
        }
    }
}

/// What an upload chunk does to the registry: it lands in this identity's
/// session, or nowhere.
pub open spec fn reg_stats_post(
    a: SessionRegistry,
    b: SessionRegistry,
    id: DeviceId,
    uv: StatsUploadView,
) -> bool {
    if a.has_session(id) {
        let i = a.session_index(id);
        updated_at(a, b, i) && stats_state(a.sessions@[i], b.sessions@[i], uv)
    } else {
        b == a
    }
}

/// Whether an upload chunk completes the upload of this identity's
/// session.
pub open spec fn stats_released(a: SessionRegistry, id: DeviceId, uv: StatsUploadView) -> bool {
    &&& a.has_session(id)
    &&& !stats_ignored(a.session_of(id), uv)
    &&& stats_completes(a.session_of(id), uv)
}

/// What handling one packet does: the registry transition, the events
/// reported and the actions requested, for every shape the bytes can take.
pub open spec fn handle_post(
    a: SessionRegistry,
    b: SessionRegistry,
    id: DeviceId,
    data: Seq<u8>,
    now: u64,
    auto: bool,
    events: Seq<ServerEvent>,
    actions: Seq<ServerAction>,
) -> bool {
    match spec_parse_packet(data) {
        Err(_) => b == a && events.len() == 0 && actions.len() == 0,
        Ok((t, p)) => match t {
            MessageType::Heartbeat => match spec_decode_heartbeat(p) {
                Err(_) => b == a && events.len() == 0 && actions.len() == 0,
                Ok(h) => {
                    &&& touch_post(a, b, id, now, auto)
                    &&& actions == ack_actions(a, id, auto)
                    &&& events.len() == 1
                    &&& events[0] == ServerEvent::HeartbeatReceived { id, heartbeat: h }
                },
            },
            MessageType::GameInfo => match spec_decode_game_info(p) {
                Err(_) => b == a && events.len() == 0 && actions.len() == 0,
                Ok(gv) => {
                    &&& game_packet_post(a, b, id, gv, now, auto)
                    &&& actions == ack_actions(a, id, auto)
                    &&& events.len() == 1
                    &&& events[0] matches ServerEvent::GameInfoUpdated {
                        id: eid,
                        info,
                        game_changed,
                    } && eid == id && info@ == gv && game_changed == spec_game_edge(
                        a,
                        id,
                        gv.game_id,
                    )
                },
            },
            MessageType::IconChunk => match spec_decode_icon_chunk(p) {
                Err(_) => b == a && events.len() == 0 && actions.len() == 0,
                Ok(cv) => {
                    &&& reg_icon_chunk_post(a, b, id, cv)
                    &&& actions == seq![ServerAction::SendAck { id }]
                    &&& events.len() == 0
                },
            },
            MessageType::IconEnd => match spec_decode_icon_end(p) {
                Err(_) => b == a && events.len() == 0 && actions.len() == 0,
                Ok(ev) => {
                    &&& reg_icon_end_post(a, b, id, ev)
                    &&& actions == seq![ServerAction::SendAck { id }]
                    &&& if icon_released(a, id, ev) {
                        events.len() == 1 && (events[0] matches ServerEvent::IconReceived {
                            game_id,
                            data,
                        } && game_id@ == ev.game_id && data@ == spec_icon_data(a, id, ev))
                    } else {
                        events.len() == 0
                    }
                },
            },
            MessageType::DiscoveryResponse => match spec_decode_discovery_response(p) {
                Err(_) => b == a && events.len() == 0 && actions.len() == 0,
                Ok(dv) => {
                    &&& discovered_post(a, b, id, dv.psp_name, now)
                    &&& actions == seq![ServerAction::SendAck { id }]
                    &&& events.len() == 1
                    &&& events[0] matches ServerEvent::PspConnected { id: eid, name, battery }
                        && eid == id && name@ == dv.psp_name && battery == dv.battery_percent
                },
            },
            MessageType::StatsRequest => {
                &&& b == a
                &&& actions == seq![ServerAction::SendAck { id }]
                &&& events.len() == 1
                &&& events[0] matches ServerEvent::StatsRequested { id: eid, psp_name } && eid == id
                    && psp_name@ == if a.has_session(id) {
                    a.session_of(id).name@
                } else {
                    Seq::<char>::empty()
                }
            },
            MessageType::StatsUpload => match spec_decode_stats_upload(p) {
                Err(_) => b == a && events.len() == 0 && actions.len() == 0,
                Ok(uv) => {
                    &&& reg_stats_post(a, b, id, uv)
                    &&& actions == seq![ServerAction::SendAck { id }]
                    &&& if stats_released(a, id, uv) {
                        events.len() == 1 && (events[0] matches ServerEvent::StatsUploaded {
                            id: eid,
                            psp_name,
                            last_updated,
                            json_data,
                        } && eid == id && psp_name@ == a.session_of(id).name@ && last_updated
                            == stats_base_timestamp(a.session_of(id), uv) && json_data@
                            == spec_assembled(stats_applied(a.session_of(id), uv)))
                    } else {
                        events.len() == 0
                    }
                },
            },
            _ => b == a && events.len() == 0 && actions.len() == 0,
        },
    }
}

/// Handles one inbound packet from the given identity: decodes it, updates
/// the registry, and returns the events to report and the actions to
/// perform.  Malformed or unexpected packets are dropped without a trace.
pub fn handle_packet(
    reg: &mut SessionRegistry,
    id: DeviceId,
    data: &[u8],
    now: u64,
    auto_discovery: bool,
) -> (r: HandleOutcome)
    requires
        old(reg).wf(),
    ensures
        final(reg).wf(),
        handle_post(*old(reg), *final(reg), id, data@, now, auto_discovery, r.events@, r.actions@),
{
    let mut events: Vec<ServerEvent> = Vec::new();
    let mut actions: Vec<ServerAction> = Vec::new();
    let parsed = parse_packet(data);
    match parsed {
        Err(_) => HandleOutcome { events, actions },
        Ok((t, payload)) => match t {
            MessageType::Heartbeat => match Heartbeat::decode(payload) {
                Err(_) => HandleOutcome { events, actions },
                Ok(heartbeat) => {
                    actions.push(ServerAction::SendAck { id });
                    let send = reg.touch(id, now, auto_discovery);
                    if send {
                        actions.push(ServerAction::SendDiscoveryRequest { id });
                    }
                    events.push(ServerEvent::HeartbeatReceived { id, heartbeat });
                    proof {
                        assert(actions@ =~= ack_actions(*old(reg), id, auto_discovery));
                    }
                    HandleOutcome { events, actions }
                },
            },
            MessageType::GameInfo => match GameInfo::decode(payload) {
                Err(_) => HandleOutcome { events, actions },
                Ok(info) => {
                    actions.push(ServerAction::SendAck { id });
                    let send = reg.touch(id, now, auto_discovery);
                    if send {
                        actions.push(ServerAction::SendDiscoveryRequest { id });
                    }
                    let ghost mid = *reg;
                    proof {
                        lemma_session_index_after_touch(*old(reg), mid, id, now, auto_discovery);
                    }
                    let outcome = reg.update_game(id, &info, now);
                    events.push(
                        ServerEvent::GameInfoUpdated {
                            id,
                            info,
                            game_changed: outcome.game_changed,
                        },
                    );
                    proof {
                        assert(actions@ =~= ack_actions(*old(reg), id, auto_discovery));
                    }
                    HandleOutcome { events, actions }
                },
            },
            MessageType::IconChunk => match IconChunk::decode(payload) {
                Err(_) => HandleOutcome { events, actions },
                Ok(chunk) => {
                    actions.push(ServerAction::SendAck { id });
                    reg.insert_icon_chunk(id, &chunk);
                    proof {
                        assert(actions@ =~= seq![ServerAction::SendAck { id }]);
                    }
                    HandleOutcome { events, actions }
                },
            },
            MessageType::IconEnd => match IconEnd::decode(payload) {
                Err(_) => HandleOutcome { events, actions },
                Ok(end) => {
                    actions.push(ServerAction::SendAck { id });
                    let outcome = reg.finish_icon(id, &end);
                    if let IconOutcome::Ready(icon) = outcome {
                        events.push(
                            ServerEvent::IconReceived { game_id: end.game_id, data: icon },
                        );
                    }
                    proof {
                        assert(actions@ =~= seq![ServerAction::SendAck { id }]);
                    }
                    HandleOutcome { events, actions }
                },
            },
            MessageType::DiscoveryResponse => match DiscoveryResponse::decode(payload) {
                Err(_) => HandleOutcome { events, actions },
                Ok(resp) => {
                    actions.push(ServerAction::SendAck { id });
                    reg.register_discovered(id, resp.psp_name.as_str(), now);
                    events.push(
                        ServerEvent::PspConnected {
                            id,
                            name: resp.psp_name,
                            battery: resp.battery_percent,
                        },
                    );
                    proof {
                        assert(actions@ =~= seq![ServerAction::SendAck { id }]);
                    }
                    HandleOutcome { events, actions }
                },
            },
            MessageType::StatsRequest => {
                actions.push(ServerAction::SendAck { id });
                let psp_name = match reg.session_name(id) {
                    Some(name) => name,
                    None => String::new(),
                };
                events.push(ServerEvent::StatsRequested { id, psp_name });
                proof {
                    assert(actions@ =~= seq![ServerAction::SendAck { id }]);
                }
                HandleOutcome { events, actions }
            },
            MessageType::StatsUpload => match StatsUpload::decode(payload) {
                Err(_) => HandleOutcome { events, actions },
                Ok(upload) => {
                    actions.push(ServerAction::SendAck { id });
                    let psp_name = match reg.session_name(id) {
                        Some(name) => name,
                        None => String::new(),
                    };
                    let finished = reg.insert_stats_chunk(id, upload);
                    if let Some((json_data, last_updated)) = finished {
                        events.push(
                            ServerEvent::StatsUploaded { id, psp_name, last_updated, json_data },
                        );
                    }
                    proof {
                        assert(actions@ =~= seq![ServerAction::SendAck { id }]);
                    }
                    HandleOutcome { events, actions }
                },
            },
            _ => HandleOutcome { events, actions },
        },
    }
}

/// A discovery request goes out at most once per session: when one touch
/// reports that a request is due, no later touch of the same session does,
/// however much time passes — the sent flag latches until the session is
/// evicted.
pub proof fn lemma_discovery_once(
    a: SessionRegistry,
    b: SessionRegistry,
    id: DeviceId,
    now1: u64,
    now2: u64,
    auto: bool,
)
    requires
        a.wf(),
        b.wf(),
        touch_post(a, b, id, now1, auto),
        spec_would_discover(a, id, auto),
    ensures
        !spec_would_discover(b, id, auto),
{
    lemma_session_index_after_touch(a, b, id, now1, auto);
    if a.has_session(id) {
        let i = a.session_index(id);
        assert(b.sessions@[i].discovery_sent == (a.sessions@[i].discovery_sent || auto));
        assert(b.session_of(id) == b.sessions@[i]);
    } else {
        let n = a.sessions@.len() as int;
        assert(b.sessions@[n].discovery_sent == auto);
        assert(b.session_of(id) == b.sessions@[n]);
    }
}

/// After a touch, the identity's session sits where it sat before — or at
/// the end, if it is new — and the registry is still uniquely keyed.
pub proof fn lemma_session_index_after_touch(
    a: SessionRegistry,
    b: SessionRegistry,
    id: DeviceId,
    now: u64,
    auto: bool,
)
    requires
        a.wf(),
        b.wf(),
        touch_post(a, b, id, now, auto),
    ensures
        b.has_session(id),
        a.has_session(id) ==> b.session_index(id) == a.session_index(id),
        !a.has_session(id) ==> b.session_index(id) == a.sessions@.len(),
{
    if a.has_session(id) {
        let i = a.session_index(id);
        assert(b.sessions@[i].identity == id);
        let i2 = b.session_index(id);
        assert(b.sessions@[i2].identity == id);
        if i != i2 {
            assert(b.sessions@[i].identity != b.sessions@[i2].identity);
        }
    } else {
        let n = a.sessions@.len() as int;
        assert(b.sessions@[n].identity == id);
        let i2 = b.session_index(id);
        assert(b.sessions@[i2].identity == id);
        if i2 != n {
            assert(b.sessions@[i2] == a.sessions@[i2]);
            assert(a.has_session(id));
        }
    }
}

} // verus!

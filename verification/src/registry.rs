//! Per-device session state and the registry that owns it.
//!
//! A session is created implicitly on the first packet from an unknown
//! identity, refreshed by every inbound packet, and destroyed by the
//! timeout sweep — unless the device declared itself persistent.  The
//! registry also owns all in-flight reassembly buffers, so destroying a
//! session discards its partial transfers.

use vstd::prelude::*;

verus! {

use crate::codec::{GameInfo, GameInfoView, IconChunk, IconChunkView, IconEnd, IconEndView, StatsUpload, StatsUploadView};
use crate::reassembly::{ReassemblyBuffer, count_filled, spec_assembled};
use vstd::seq_lib::*;
use crate::crc::{crc32_of, checksum_matches};
use crate::strutil::{push_decimal, spec_decimal};

/// A transport-level identity: the host and port a datagram peer speaks
/// from.  The USB transport serves a single device and uses a fixed
/// identity.
#[derive(Debug, Clone, Copy, PartialEq, Eq, Hash, Structural)]
pub struct DeviceId {
    pub host: u128,
    pub port: u16,
}

/// One in-flight icon transfer, keyed by the game it belongs to.
pub struct IconTransfer {
    pub game_id: String,
    pub buffer: ReassemblyBuffer,
}

/// Per-device connection state.
pub struct Session {
    /// The transport-level identity the device speaks from.
    pub identity: DeviceId,
    /// The device's display name, upgraded whenever a packet carries a
    /// better one.
    pub name: String,
    /// When the device was last heard from, in seconds.
    pub last_seen: u64,
    /// The last game update received, if any.
    pub current_game: Option<GameInfo>,
    /// In-flight icon transfers, one per game id.
    pub icon_transfers: Vec<IconTransfer>,
    /// The in-flight statistics upload, with its declared timestamp; at
    /// most one per session.
    pub stats_upload: Option<(ReassemblyBuffer, u64)>,
    /// Whether a discovery request was already sent to this device.
    pub discovery_sent: bool,
    /// Whether the device declared it will send no further liveness
    /// traffic; exempts the session from timeout eviction.
    pub persistent: bool,
}

impl Session {
    /// The session's internal invariant: icon transfers are keyed
    /// uniquely, and every buffer is well formed.
    pub open spec fn wf(self) -> bool {
        &&& forall|i: int, j: int|
            0 <= i < j < self.icon_transfers@.len() ==> self.icon_transfers@[i].game_id@
                != self.icon_transfers@[j].game_id@
        &&& forall|i: int|
            0 <= i < self.icon_transfers@.len() ==> (#[trigger] self.icon_transfers@[i]).buffer.wf()
        &&& match self.stats_upload {
            Some(b) => b.0.wf(),
            None => true,
        }
    }

    /// Whether an icon transfer for this game is in flight.
    pub open spec fn has_icon_transfer(self, key: Seq<char>) -> bool {
        exists|i: int| 0 <= i < self.icon_transfers@.len() && self.icon_transfers@[i].game_id@ == key
    }

    /// The position of the in-flight icon transfer for this game.
    pub open spec fn icon_index(self, key: Seq<char>) -> int {
        choose|i: int|
            0 <= i < self.icon_transfers@.len() && self.icon_transfers@[i].game_id@ == key
    }

    /// The in-flight icon buffer for this game.
    pub open spec fn icon_buffer_of(self, key: Seq<char>) -> ReassemblyBuffer {
        self.icon_transfers@[self.icon_index(key)].buffer
    }
}

/// An all-empty slot sequence for a transfer of `total` chunks.
pub open spec fn fresh_slots(total: u16) -> Seq<Option<Seq<u8>>> {
    Seq::new(total as nat, |i: int| Option::<Seq<u8>>::None)
}

/// The slots of a buffer after one chunk lands: the slot at the chunk's
/// index is filled, and an index past the declared total is ignored.
pub open spec fn slots_after_insert(base: Seq<Option<Seq<u8>>>, index: u16, data: Seq<u8>) -> Seq<
    Option<Seq<u8>>,
> {
    if (index as int) < base.len() {
        base.update(index as int, Some(data))
    } else {
        base
    }
}

/// The two sessions agree on everything but the icon transfers.
pub open spec fn same_except_icons(a: Session, b: Session) -> bool {
    &&& b.identity == a.identity
    &&& b.name == a.name
    &&& b.last_seen == a.last_seen
    &&& b.current_game == a.current_game
    &&& b.stats_upload == a.stats_upload
    &&& b.discovery_sent == a.discovery_sent
    &&& b.persistent == a.persistent
}

/// The two sessions agree on everything but the statistics upload.
pub open spec fn same_except_stats(a: Session, b: Session) -> bool {
    &&& b.identity == a.identity
    &&& b.name == a.name
    &&& b.last_seen == a.last_seen
    &&& b.current_game == a.current_game
    &&& b.icon_transfers == a.icon_transfers
    &&& b.discovery_sent == a.discovery_sent
    &&& b.persistent == a.persistent
}

/// What one icon chunk does to a session: the transfer for the chunk's
/// game gains the chunk (created from the chunk's declared total if it was
/// not in flight), and every other transfer stays as it was.
pub open spec fn icon_chunk_post(old_s: Session, new_s: Session, chunk: IconChunkView) -> bool {
    let key = chunk.game_id;
    &&& same_except_icons(old_s, new_s)
    &&& if old_s.has_icon_transfer(key) {
        let j = old_s.icon_index(key);
        &&& new_s.icon_transfers@.len() == old_s.icon_transfers@.len()
        &&& forall|i: int|
            0 <= i < old_s.icon_transfers@.len() && i != j ==> new_s.icon_transfers@[i]
                == old_s.icon_transfers@[i]
        &&& new_s.icon_transfers@[j].game_id@ == key
        &&& new_s.icon_transfers@[j].buffer.total_chunks == old_s.icon_transfers@[j].buffer.total_chunks
        &&& new_s.icon_transfers@[j].buffer@ == slots_after_insert(
            old_s.icon_transfers@[j].buffer@,
            chunk.chunk_index,
            chunk.data,
        )
    } else {
        &&& new_s.icon_transfers@.len() == old_s.icon_transfers@.len() + 1
        &&& forall|i: int|
            0 <= i < old_s.icon_transfers@.len() ==> new_s.icon_transfers@[i]
                == old_s.icon_transfers@[i]
        &&& new_s.icon_transfers@.last().game_id@ == key
        &&& new_s.icon_transfers@.last().buffer.total_chunks == chunk.total_chunks
        &&& new_s.icon_transfers@.last().buffer@ == slots_after_insert(
            fresh_slots(chunk.total_chunks),
            chunk.chunk_index,
            chunk.data,
        )
    }
}

/// The result of presenting an end marker.
#[derive(Debug, PartialEq, Eq)]
pub enum IconOutcome {
    /// No transfer for that game was in flight; nothing happens.
    NoTransfer,
    /// The assembled bytes did not checksum to the declared value; the
    /// transfer is discarded and no icon is reported.
    ChecksumMismatch,
    /// The assembled bytes checksum to the declared value.
    Ready(Vec<u8>),
}

/// What an end marker does to a session: the transfer for its game — if
/// one is in flight — is removed, its slots are assembled in index order,
/// and the result is released only if it checksums to the declared value.
pub open spec fn icon_end_post(old_s: Session, new_s: Session, end: IconEndView, r: IconOutcome) -> bool {
    let key = end.game_id;
    if old_s.has_icon_transfer(key) {
        let j = old_s.icon_index(key);
        let assembled = spec_assembled(old_s.icon_transfers@[j].buffer@);
        &&& same_except_icons(old_s, new_s)
        &&& new_s.icon_transfers@ == old_s.icon_transfers@.remove(j)
        &&& if crc32_of(assembled) == end.crc32 {
            r matches IconOutcome::Ready(d) && d@ == assembled
        } else {
            r == IconOutcome::ChecksumMismatch
        }
    } else {
        new_s == old_s && r == IconOutcome::NoTransfer
    }
}

/// Whether an upload chunk lands nowhere: it does not start a fresh
/// buffer and none is in flight.
pub open spec fn stats_ignored(s: Session, u: StatsUploadView) -> bool {
    s.stats_upload is None && u.chunk_index != 0
}

/// The slots an upload chunk lands in: a fresh buffer for chunk index
/// zero, else the buffer already in flight.
pub open spec fn stats_base_slots(s: Session, u: StatsUploadView) -> Seq<Option<Seq<u8>>> {
    if u.chunk_index == 0 {
        fresh_slots(u.total_chunks)
    } else {
        s.stats_upload.unwrap().0@
    }
}

/// The declared chunk count of the buffer an upload chunk lands in.
pub open spec fn stats_base_total(s: Session, u: StatsUploadView) -> u16 {
    if u.chunk_index == 0 {
        u.total_chunks
    } else {
        s.stats_upload.unwrap().0.total_chunks
    }
}

/// The timestamp the finished upload will carry.
pub open spec fn stats_base_timestamp(s: Session, u: StatsUploadView) -> u64 {
    if u.chunk_index == 0 {
        u.last_updated
    } else {
        s.stats_upload.unwrap().1
    }
}

/// The slots after the upload chunk lands.
pub open spec fn stats_applied(s: Session, u: StatsUploadView) -> Seq<Option<Seq<u8>>> {
    slots_after_insert(stats_base_slots(s, u), u.chunk_index, u.json_data)
}

/// Whether the upload completes with this chunk.
pub open spec fn stats_completes(s: Session, u: StatsUploadView) -> bool {
    count_filled(stats_applied(s, u)) == stats_base_total(s, u)
}

/// What one statistics-upload chunk does to a session.  Chunk index zero
/// starts a fresh buffer from the chunk's declared total; any other index
/// lands in the buffer already in flight, or is dropped if none is.  When
/// the buffer completes, its assembled bytes and the upload's timestamp
/// are released and the buffer is removed.
pub open spec fn stats_chunk_post(
    old_s: Session,
    new_s: Session,
    upload: StatsUploadView,
    r: Option<(Vec<u8>, u64)>,
) -> bool {
    if stats_ignored(old_s, upload) {
        new_s == old_s && r is None
    } else {
        let applied = stats_applied(old_s, upload);
        let timestamp = stats_base_timestamp(old_s, upload);
        &&& same_except_stats(old_s, new_s)
        &&& if stats_completes(old_s, upload) {
            &&& new_s.stats_upload is None
            &&& r matches Some((d, t)) && d@ == spec_assembled(applied) && t == timestamp
        } else {
            &&& r is None
            &&& new_s.stats_upload matches Some((b, t)) && b@ == applied && b.total_chunks
                == stats_base_total(old_s, upload) && t == timestamp
        }
    }
}

/// The position of the transfer for `key` among `transfers`, if any.
fn icon_position(transfers: &Vec<IconTransfer>, key: &String) -> (r: Option<usize>)
    ensures
        match r {
            Some(j) => j < transfers@.len() && transfers@[j as int].game_id@ == key@ && (forall|
                i: int,
            |
                0 <= i < j ==> transfers@[i].game_id@ != key@),
            None => forall|i: int| 0 <= i < transfers@.len() ==> transfers@[i].game_id@ != key@,
        },
{
    let mut j: usize = 0;
    let mut res: Option<usize> = None;
    while j < transfers.len()
        invariant
            0 <= j <= transfers@.len(),
            match res {
                Some(k) => k < j && transfers@[k as int].game_id@ == key@ && (forall|i: int|
                    0 <= i < k ==> transfers@[i].game_id@ != key@),
                None => forall|i: int| 0 <= i < j ==> transfers@[i].game_id@ != key@,
            },
        decreases transfers@.len() - j,
    {
        if res.is_none() && transfers[j].game_id == *key {
            res = Some(j);
        }
        j += 1;
    }
    res
}

impl Session {
    /// Stores one icon chunk, opening a transfer for its game if none is
    /// in flight.
    pub fn insert_icon_chunk(&mut self, chunk: &IconChunk)
        requires
            old(self).wf(),
        ensures
            final(self).wf(),
            icon_chunk_post(*old(self), *final(self), chunk@),
    {
        match icon_position(&self.icon_transfers, &chunk.game_id) {
            Some(j) => {
                proof {
                    assert(old(self).has_icon_transfer(chunk.game_id@));
                    assert(old(self).icon_index(chunk.game_id@) == j as int);
                }
                let mut entry = self.icon_transfers.remove(j);
                entry.buffer.insert(chunk.chunk_index, chunk.data.clone());
                self.icon_transfers.insert(j, entry);
                proof {
                    assert(forall|i: int|
                        0 <= i < old(self).icon_transfers@.len() && i != j
                            ==> self.icon_transfers@[i] == old(self).icon_transfers@[i]);
                }
            },
            None => {
                proof {
                    assert(!old(self).has_icon_transfer(chunk.game_id@));
                }
                let mut buffer = ReassemblyBuffer::new(chunk.total_chunks);
                proof {
                    assert(buffer@ =~= fresh_slots(chunk.total_chunks));
                }
                buffer.insert(chunk.chunk_index, chunk.data.clone());
                let entry = IconTransfer { game_id: chunk.game_id.clone(), buffer };
                self.icon_transfers.push(entry);
            },
        }
    }

    /// Presents an end marker: removes the transfer for its game, if one
    /// is in flight, and releases the assembled bytes only when they
    /// checksum to the declared value.
    pub fn finish_icon(&mut self, end: &IconEnd) -> (r: IconOutcome)
        requires
            old(self).wf(),
        ensures
            final(self).wf(),
            icon_end_post(*old(self), *final(self), end@, r),
    {
        match icon_position(&self.icon_transfers, &end.game_id) {
            Some(j) => {
                proof {
                    assert(old(self).has_icon_transfer(end.game_id@));
                    assert(old(self).icon_index(end.game_id@) == j as int);
                }
                let entry = self.icon_transfers.remove(j);
                let data = entry.buffer.assemble();
                if checksum_matches(data.as_slice(), end.crc32) {
                    IconOutcome::Ready(data)
                } else {
                    IconOutcome::ChecksumMismatch
                }
            },
            None => {
                proof {
                    assert(!old(self).has_icon_transfer(end.game_id@));
                }
                IconOutcome::NoTransfer
            },
        }
    }

    /// Stores one statistics-upload chunk and releases the assembled
    /// payload with its timestamp once the upload completes.
    pub fn insert_stats_chunk(&mut self, upload: StatsUpload) -> (r: Option<(Vec<u8>, u64)>)
        requires
            old(self).wf(),
        ensures
            final(self).wf(),
            stats_chunk_post(*old(self), *final(self), upload@, r),
    {
        let index = upload.chunk_index;
        if index == 0 {
            let buffer = ReassemblyBuffer::new(upload.total_chunks);
            proof {
                assert(buffer@ =~= fresh_slots(upload.total_chunks));
            }
            self.stats_upload = Some((buffer, upload.last_updated));
        }
        let pair = match self.stats_upload.take() {
            None => {
                return None;
            },
            Some(p) => p,
        };
        let mut buffer = pair.0;
        let timestamp = pair.1;
        let complete = buffer.insert(index, upload.json_data);
        if complete {
            let data = buffer.assemble();
            Some((data, timestamp))
        } else {
            self.stats_upload = Some((buffer, timestamp));
            None
        }
    }
}

/// No two sessions share an identity.
pub open spec fn ids_unique(s: Seq<Session>) -> bool {
    forall|i: int, j: int| 0 <= i < j < s.len() ==> s[i].identity != s[j].identity
}

/// The display name a session starts with before the device names itself:
/// a placeholder derived from the peer's port.
pub open spec fn spec_default_name(port: u16) -> Seq<char> {
    "PSP-"@ + spec_decimal(port as nat)
}

/// The placeholder name for an anonymous peer.
pub fn default_session_name(port: u16) -> (r: String)
    ensures
        r@ == spec_default_name(port),
{
    let mut name = String::from_str("PSP-");
    push_decimal(&mut name, port as u64);
    name
}

/// What a liveness refresh does to a session: only the last-seen time
/// moves, and the discovery flag latches once a request goes out.
pub open spec fn session_touched(a: Session, b: Session, now: u64, auto: bool) -> bool {
    &&& b.identity == a.identity
    &&& b.name == a.name
    &&& b.last_seen == now
    &&& b.current_game == a.current_game
    &&& b.icon_transfers == a.icon_transfers
    &&& b.stats_upload == a.stats_upload
    &&& b.discovery_sent == (a.discovery_sent || auto)
    &&& b.persistent == a.persistent
}

/// A session created implicitly by the first packet from an unknown
/// identity: anonymous name, nothing in flight, not persistent.
pub open spec fn fresh_session(s: Session, id: DeviceId, now: u64, auto: bool) -> bool {
    &&& s.identity == id
    &&& s.name@ == spec_default_name(id.port)
    &&& s.last_seen == now
    &&& s.current_game is None
    &&& s.icon_transfers@.len() == 0
    &&& s.stats_upload is None
    &&& s.discovery_sent == auto
    &&& s.persistent == false
}

/// Whether a game update changes the current game: the first update always
/// does, later ones only when the game id differs.
pub open spec fn spec_game_changed(s: Session, game_id: Seq<char>) -> bool {
    match s.current_game {
        None => true,
        Some(g) => g.game_id@ != game_id,
    }
}

/// What a game update does to a session: the update is stored, the
/// last-seen time moves, the name upgrades when the packet carries one,
/// and the persistent flag only ever latches on.
pub open spec fn session_game_updated(a: Session, b: Session, info: GameInfoView, now: u64) -> bool {
    &&& b.identity == a.identity
    &&& b.name@ == if info.psp_name.len() > 0 {
        info.psp_name
    } else {
        a.name@
    }
    &&& b.last_seen == now
    &&& b.current_game matches Some(g) && g@ == info
    &&& b.icon_transfers == a.icon_transfers
    &&& b.stats_upload == a.stats_upload
    &&& b.discovery_sent == a.discovery_sent
    &&& b.persistent == (a.persistent || info.persistent)
}

/// Whether the sweep evicts this session now: it is not persistent and was
/// last heard from longer ago than the timeout allows.
pub open spec fn is_stale(s: Session, now: u64, timeout_seconds: u64) -> bool {
    &&& !s.persistent
    &&& now >= s.last_seen
    &&& now - s.last_seen > timeout_seconds
}

/// A session the device declared persistent is never stale, however long
/// ago it was last heard from.
pub proof fn lemma_persistent_never_stale(s: Session, now: u64, timeout_seconds: u64)
    ensures
        s.persistent ==> !is_stale(s, now, timeout_seconds),
{
}

/// The sessions a sweep keeps, in order.
pub open spec fn spec_survivors(s: Seq<Session>, now: u64, timeout: u64) -> Seq<Session>
    decreases s.len(),
{
    if s.len() == 0 {
        s
    } else {
        let rest = spec_survivors(s.drop_first(), now, timeout);
        if is_stale(s[0], now, timeout) {
            rest
        } else {
            seq![s[0]] + rest
        }
    }
}

/// The sessions a sweep evicts, in order.
pub open spec fn spec_evicted(s: Seq<Session>, now: u64, timeout: u64) -> Seq<Session>
    decreases s.len(),
{
    if s.len() == 0 {
        s
    } else {
        let rest = spec_evicted(s.drop_first(), now, timeout);
        if is_stale(s[0], now, timeout) {
            seq![s[0]] + rest
        } else {
            rest
        }
    }
}

proof fn lemma_sweep_push(s: Seq<Session>, x: Session, now: u64, timeout: u64)
    ensures
        spec_survivors(s.push(x), now, timeout) == spec_survivors(s, now, timeout) + (if is_stale(
            x,
            now,
            timeout,
        ) {
            Seq::<Session>::empty()
        } else {
            seq![x]
        }),
        spec_evicted(s.push(x), now, timeout) == spec_evicted(s, now, timeout) + (if is_stale(
            x,
            now,
            timeout,
        ) {
            seq![x]
        } else {
            Seq::<Session>::empty()
        }),
    decreases s.len(),
{
    if s.len() == 0 {
        assert(s.push(x).drop_first() =~= s);
        assert(s.push(x)[0] == x);
        if is_stale(x, now, timeout) {
            assert(spec_survivors(s.push(x), now, timeout) =~= spec_survivors(s, now, timeout)
                + Seq::<Session>::empty());
            assert(spec_evicted(s.push(x), now, timeout) =~= spec_evicted(s, now, timeout)
                + seq![x]);
        } else {
            assert(spec_survivors(s.push(x), now, timeout) =~= spec_survivors(s, now, timeout)
                + seq![x]);
            assert(spec_evicted(s.push(x), now, timeout) =~= spec_evicted(s, now, timeout)
                + Seq::<Session>::empty());
        }
    } else {
        assert(s.push(x).drop_first() =~= s.drop_first().push(x));
        lemma_sweep_push(s.drop_first(), x, now, timeout);
        assert(s.push(x)[0] == s[0]);
        if is_stale(s[0], now, timeout) {
        } else {
            assert(spec_survivors(s.push(x), now, timeout) =~= spec_survivors(s, now, timeout) + (
            if is_stale(x, now, timeout) {
                Seq::<Session>::empty()
            } else {
                seq![x]
            }));
        }
        assert(spec_survivors(s.push(x), now, timeout) =~= spec_survivors(s, now, timeout) + (
        if is_stale(x, now, timeout) {
            Seq::<Session>::empty()
        } else {
            seq![x]
        }));
        assert(spec_evicted(s.push(x), now, timeout) =~= spec_evicted(s, now, timeout) + (
        if is_stale(x, now, timeout) {
            seq![x]
        } else {
            Seq::<Session>::empty()
        }));
    }
}

/// Every session the sweep keeps or evicts comes from the swept sequence.
proof fn lemma_sweep_mem(s: Seq<Session>, now: u64, timeout: u64)
    ensures
        forall|k: int|
            0 <= k < spec_survivors(s, now, timeout).len() ==> s.contains(
                #[trigger] spec_survivors(s, now, timeout)[k],
            ),
        forall|k: int|
            0 <= k < spec_evicted(s, now, timeout).len() ==> s.contains(
                #[trigger] spec_evicted(s, now, timeout)[k],
            ),
    decreases s.len(),
{
    if s.len() > 0 {
        let rest = s.drop_first();
        lemma_sweep_mem(rest, now, timeout);
        assert(forall|x: Session| rest.contains(x) ==> s.contains(x)) by {
            assert(forall|j: int|
                0 <= j < rest.len() ==> rest[j] == s[j + 1] && 0 <= j + 1 < s.len());
        }
        assert(s.contains(s[0])) by {
            assert(s[0] == s[0]);
        }
        let surv = spec_survivors(s, now, timeout);
        let srest = spec_survivors(rest, now, timeout);
        let evic = spec_evicted(s, now, timeout);
        let erest = spec_evicted(rest, now, timeout);
        if is_stale(s[0], now, timeout) {
            assert(surv == srest);
            assert(evic == seq![s[0]] + erest);
            assert(forall|k: int| 1 <= k < evic.len() ==> evic[k] == erest[k - 1]);
            assert(evic[0] == s[0]);
        } else {
            assert(surv == seq![s[0]] + srest);
            assert(forall|k: int| 1 <= k < surv.len() ==> surv[k] == srest[k - 1]);
            assert(surv[0] == s[0]);
            assert(evic == erest);
        }
    }
}

/// A sweep of well-formed, uniquely-keyed sessions keeps both properties.
proof fn lemma_survivors_wf(s: Seq<Session>, now: u64, timeout: u64)
    requires
        ids_unique(s),
        forall|i: int| 0 <= i < s.len() ==> (#[trigger] s[i]).wf(),
    ensures
        ids_unique(spec_survivors(s, now, timeout)),
        forall|i: int|
            0 <= i < spec_survivors(s, now, timeout).len() ==> (#[trigger] spec_survivors(
                s,
                now,
                timeout,
            )[i]).wf(),
    decreases s.len(),
{
    if s.len() > 0 {
        let rest = s.drop_first();
        assert(ids_unique(rest)) by {
            assert(forall|j: int|
                0 <= j < rest.len() ==> rest[j] == s[j + 1] && 0 <= j + 1 < s.len());
        }
        assert(forall|i: int| 0 <= i < rest.len() ==> (#[trigger] rest[i]).wf()) by {
            assert(forall|j: int|
                0 <= j < rest.len() ==> rest[j] == s[j + 1] && 0 <= j + 1 < s.len());
        }
        lemma_survivors_wf(rest, now, timeout);
        lemma_sweep_mem(rest, now, timeout);
        let surv_rest = spec_survivors(rest, now, timeout);
        if !is_stale(s[0], now, timeout) {
            assert(forall|k: int|
                0 <= k < surv_rest.len() ==> #[trigger] surv_rest[k].identity != s[0].identity)
                by {
                assert(forall|k: int|
                    0 <= k < surv_rest.len() ==> rest.contains(#[trigger] surv_rest[k]));
                assert(forall|j: int|
                    0 <= j < rest.len() ==> (#[trigger] rest[j]).identity != s[0].identity) by {
                    assert(forall|j: int|
                        0 <= j < rest.len() ==> rest[j] == s[j + 1] && 0 <= j + 1 < s.len());
                }
            }
            let whole = spec_survivors(s, now, timeout);
            assert(whole == seq![s[0]] + surv_rest);
            assert(forall|i: int, j: int|
                0 <= i < j < whole.len() ==> whole[i].identity != whole[j].identity) by {
                assert(forall|k: int| 0 <= k < surv_rest.len() ==> whole[k + 1] == surv_rest[k]);
                assert(whole[0] == s[0]);
            }
            assert(forall|i: int| 0 <= i < whole.len() ==> (#[trigger] whole[i]).wf()) by {
                assert(forall|k: int| 0 <= k < surv_rest.len() ==> whole[k + 1] == surv_rest[k]);
                assert(whole[0] == s[0]);
            }
        }
    }
}

/// The registry that exclusively owns all per-device sessions.
pub struct SessionRegistry {
    /// The live sessions, in order of first contact.
    pub sessions: Vec<Session>,
}

/// The two registries agree everywhere but at position `i`.
pub open spec fn updated_at(old_r: SessionRegistry, new_r: SessionRegistry, i: int) -> bool {
    &&& new_r.sessions@.len() == old_r.sessions@.len()
    &&& forall|k: int|
        0 <= k < old_r.sessions@.len() && k != i ==> new_r.sessions@[k] == old_r.sessions@[k]
}

/// Whether handling a packet from this identity should send a discovery
/// request now: auto-discovery is on and no request went out yet.
pub open spec fn spec_would_discover(a: SessionRegistry, id: DeviceId, auto: bool) -> bool {
    auto && (!a.has_session(id) || !a.session_of(id).discovery_sent)
}

/// What a liveness refresh does to the registry: the session for the
/// identity is touched, or a fresh one is appended.
pub open spec fn touch_post(
    a: SessionRegistry,
    b: SessionRegistry,
    id: DeviceId,
    now: u64,
    auto: bool,
) -> bool {
    &&& b.has_session(id)
    &&& if a.has_session(id) {
        let i = a.session_index(id);
        updated_at(a, b, i) && session_touched(a.sessions@[i], b.sessions@[i], now, auto)
    } else {
        &&& b.sessions@.len() == a.sessions@.len() + 1
        &&& (forall|k: int| 0 <= k < a.sessions@.len() ==> b.sessions@[k] == a.sessions@[k])
        &&& fresh_session(b.sessions@.last(), id, now, auto)
    }
}

/// What recording a discovery answer does to the registry: an unknown
/// identity gains a named session with discovery settled; a known one is
/// left as it was.
pub open spec fn discovered_post(
    a: SessionRegistry,
    b: SessionRegistry,
    id: DeviceId,
    name: Seq<char>,
    now: u64,
) -> bool {
    &&& b.has_session(id)
    &&& if a.has_session(id) {
        b == a
    } else {
        &&& b.sessions@.len() == a.sessions@.len() + 1
        &&& (forall|k: int| 0 <= k < a.sessions@.len() ==> b.sessions@[k] == a.sessions@[k])
        &&& ({
            let s = b.sessions@.last();
            &&& s.identity == id
            &&& s.name@ == name
            &&& s.last_seen == now
            &&& s.current_game is None
            &&& s.icon_transfers@.len() == 0
            &&& s.stats_upload is None
            &&& s.discovery_sent == true
            &&& s.persistent == false
        })
    }
}

impl SessionRegistry {
    /// The registry's internal invariant: identities are unique and every
    /// session is well formed.
    pub open spec fn wf(self) -> bool {
        &&& ids_unique(self.sessions@)
        &&& forall|i: int| 0 <= i < self.sessions@.len() ==> (#[trigger] self.sessions@[i]).wf()
    }

    /// Whether a session for this identity exists.
    pub open spec fn has_session(self, id: DeviceId) -> bool {
        exists|i: int| 0 <= i < self.sessions@.len() && self.sessions@[i].identity == id
    }

    /// The position of the session for this identity.
    pub open spec fn session_index(self, id: DeviceId) -> int {
        choose|i: int| 0 <= i < self.sessions@.len() && self.sessions@[i].identity == id
    }

    /// The session for this identity.
    pub open spec fn session_of(self, id: DeviceId) -> Session {
        self.sessions@[self.session_index(id)]
    }

    /// An empty registry.
    pub fn new() -> (r: SessionRegistry)
        ensures
            r.wf(),
            r.sessions@.len() == 0,
    {
        SessionRegistry { sessions: Vec::new() }
    }

    /// How many sessions are live.
    pub fn session_count(&self) -> (r: usize)
        ensures
            r == self.sessions@.len(),
    {
        self.sessions.len()
    }

    /// The position of the session for this identity, if one exists.
    fn find(&self, id: DeviceId) -> (r: Option<usize>)
        requires
            self.wf(),
        ensures
            match r {
                Some(i) => i < self.sessions@.len() && self.sessions@[i as int].identity == id
                    && self.has_session(id) && self.session_index(id) == i as int,
                None => !self.has_session(id),
            },
    {
        let mut j: usize = 0;
        let mut res: Option<usize> = None;
        while j < self.sessions.len()
            invariant
                0 <= j <= self.sessions@.len(),
                match res {
                    Some(k) => k < j && self.sessions@[k as int].identity == id,
                    None => forall|i: int| 0 <= i < j ==> self.sessions@[i].identity != id,
                },
            decreases self.sessions@.len() - j,
        {
            if res.is_none() && self.sessions[j].identity == id {
                res = Some(j);
            }
            j += 1;
        }
        proof {
            if let Some(k) = res {
                assert(self.has_session(id));
            }
        }
        res
    }

    /// Whether a session for this identity exists.
    pub fn contains(&self, id: DeviceId) -> (r: bool)
        requires
            self.wf(),
        ensures
            r == self.has_session(id),
    {
        self.find(id).is_some()
    }

    /// The display name of the session for this identity, if one exists.
    pub fn session_name(&self, id: DeviceId) -> (r: Option<String>)
        requires
            self.wf(),
        ensures
            match r {
                Some(name) => self.has_session(id) && name == self.session_of(id).name,
                None => !self.has_session(id),
            },
    {
        match self.find(id) {
            Some(i) => Some(self.sessions[i].name.clone()),
            None => None,
        }
    }

    /// Create-or-refresh on an inbound packet: a known session has its
    /// last-seen time refreshed; an unknown identity gains a fresh,
    /// anonymously named session.  Returns whether a discovery request
    /// should go out now — true at most once per session, and only with
    /// auto-discovery on.
    pub fn touch(&mut self, id: DeviceId, now: u64, auto_discovery: bool) -> (send_discovery: bool)
        requires
            old(self).wf(),
        ensures
            final(self).wf(),
            touch_post(*old(self), *final(self), id, now, auto_discovery),
            send_discovery == spec_would_discover(*old(self), id, auto_discovery),
    {
        match self.find(id) {
            Some(i) => {
                let mut s = self.sessions.remove(i);
                s.last_seen = now;
                let send = auto_discovery && !s.discovery_sent;
                if auto_discovery {
                    s.discovery_sent = true;
                }
                self.sessions.insert(i, s);
                proof {
                    assert(forall|k: int|
                        0 <= k < old(self).sessions@.len() && k != i as int
                            ==> self.sessions@[k] == old(self).sessions@[k]);
                    assert(self.sessions@[i as int].identity == id);
                    assert(self.has_session(id));
                }
                send
            },
            None => {
                let name = default_session_name(id.port);
                let s = Session {
                    identity: id,
                    name,
                    last_seen: now,
                    current_game: None,
                    icon_transfers: Vec::new(),
                    stats_upload: None,
                    discovery_sent: auto_discovery,
                    persistent: false,
                };
                self.sessions.push(s);
                proof {
                    assert(self.sessions@.last().identity == id);
                    assert(self.has_session(id));
                }
                auto_discovery
            },
        }
    }

    /// Stores a game update for a known session and reports whether the
    /// current game changed; an unknown identity is left untouched.
    pub fn update_game(&mut self, id: DeviceId, info: &GameInfo, now: u64) -> (r: GameUpdateOutcome)
        requires
            old(self).wf(),
        ensures
            final(self).wf(),
            r.known == old(self).has_session(id),
            old(self).has_session(id) ==> {
                let i = old(self).session_index(id);
                &&& updated_at(*old(self), *final(self), i)
                &&& session_game_updated(old(self).sessions@[i], final(self).sessions@[i], info@, now)
                &&& r.game_changed == spec_game_changed(old(self).sessions@[i], info.game_id@)
            },
            !old(self).has_session(id) ==> *final(self) == *old(self) && !r.game_changed,
    {
        match self.find(id) {
            Some(i) => {
                let mut s = self.sessions.remove(i);
                let game_changed = match &s.current_game {
                    None => true,
                    Some(g) => g.game_id != info.game_id,
                };
                s.last_seen = now;
                if !info.psp_name.as_str().is_empty() {
                    s.name = info.psp_name.clone();
                }
                if info.persistent {
                    s.persistent = true;
                }
                s.current_game = Some(info.clone());
                self.sessions.insert(i, s);
                proof {
                    assert(forall|k: int|
                        0 <= k < old(self).sessions@.len() && k != i as int
                            ==> self.sessions@[k] == old(self).sessions@[k]);
                }
                GameUpdateOutcome { known: true, game_changed }
            },
            None => GameUpdateOutcome { known: false, game_changed: false },
        }
    }

    /// Latches the persistent flag of a known session on; an unknown
    /// identity is left untouched.
    pub fn mark_persistent(&mut self, id: DeviceId)
        requires
            old(self).wf(),
        ensures
            final(self).wf(),
            old(self).has_session(id) ==> {
                let i = old(self).session_index(id);
                &&& updated_at(*old(self), *final(self), i)
                &&& final(self).sessions@[i] == Session {
                    persistent: true,
                    ..old(self).sessions@[i]
                }
            },
            !old(self).has_session(id) ==> *final(self) == *old(self),
    {
        match self.find(id) {
            Some(i) => {
                let mut s = self.sessions.remove(i);
                s.persistent = true;
                self.sessions.insert(i, s);
                proof {
                    assert(forall|k: int|
                        0 <= k < old(self).sessions@.len() && k != i as int
                            ==> self.sessions@[k] == old(self).sessions@[k]);
                }
            },
            None => {
            },
        }
    }

    /// Records a device that answered discovery: an unknown identity gains
    /// a named session with discovery already settled; a known session is
    /// left as it was.
    pub fn register_discovered(&mut self, id: DeviceId, name: &str, now: u64)
        requires
            old(self).wf(),
        ensures
            final(self).wf(),
            discovered_post(*old(self), *final(self), id, name@, now),
    {
        match self.find(id) {
            Some(_) => {
            },
            None => {
                let s = Session {
                    identity: id,
                    name: name.to_owned(),
                    last_seen: now,
                    current_game: None,
                    icon_transfers: Vec::new(),
                    stats_upload: None,
                    discovery_sent: true,
                    persistent: false,
                };
                self.sessions.push(s);
                proof {
                    assert(self.sessions@.last().identity == id);
                    assert(self.has_session(id));
                }
            },
        }
    }

    /// Stores one icon chunk in the session for this identity; a chunk
    /// from an unknown identity is dropped.
    pub fn insert_icon_chunk(&mut self, id: DeviceId, chunk: &IconChunk) -> (known: bool)
        requires
            old(self).wf(),
        ensures
            final(self).wf(),
            known == old(self).has_session(id),
            old(self).has_session(id) ==> {
                let i = old(self).session_index(id);
                &&& updated_at(*old(self), *final(self), i)
                &&& icon_chunk_post(old(self).sessions@[i], final(self).sessions@[i], chunk@)
            },
            !old(self).has_session(id) ==> *final(self) == *old(self),
    {
        match self.find(id) {
            Some(i) => {
                let mut s = self.sessions.remove(i);
                s.insert_icon_chunk(chunk);
                self.sessions.insert(i, s);
                proof {
                    assert(forall|k: int|
                        0 <= k < old(self).sessions@.len() && k != i as int
                            ==> self.sessions@[k] == old(self).sessions@[k]);
                }
                true
            },
            None => false,
        }
    }

    /// Presents an end marker to the session for this identity; one from
    /// an unknown identity is dropped.
    pub fn finish_icon(&mut self, id: DeviceId, end: &IconEnd) -> (r: IconOutcome)
        requires
            old(self).wf(),
        ensures
            final(self).wf(),
            old(self).has_session(id) ==> {
                let i = old(self).session_index(id);
                &&& updated_at(*old(self), *final(self), i)
                &&& icon_end_post(old(self).sessions@[i], final(self).sessions@[i], end@, r)
            },
            !old(self).has_session(id) ==> *final(self) == *old(self) && r
                == IconOutcome::NoTransfer,
    {
        match self.find(id) {
            Some(i) => {
                let mut s = self.sessions.remove(i);
                let r = s.finish_icon(end);
                self.sessions.insert(i, s);
                proof {
                    assert(forall|k: int|
                        0 <= k < old(self).sessions@.len() && k != i as int
                            ==> self.sessions@[k] == old(self).sessions@[k]);
                }
                r
            },
            None => IconOutcome::NoTransfer,
        }
    }

    /// Stores one statistics-upload chunk in the session for this
    /// identity, releasing the assembled payload and its timestamp on
    /// completion; a chunk from an unknown identity is dropped.
    pub fn insert_stats_chunk(&mut self, id: DeviceId, upload: StatsUpload) -> (r: Option<
        (Vec<u8>, u64),
    >)
        requires
            old(self).wf(),
        ensures
            final(self).wf(),
            old(self).has_session(id) ==> {
                let i = old(self).session_index(id);
                &&& updated_at(*old(self), *final(self), i)
                &&& stats_chunk_post(old(self).sessions@[i], final(self).sessions@[i], upload@, r)
            },
            !old(self).has_session(id) ==> *final(self) == *old(self) && r is None,
    {
        match self.find(id) {
            Some(i) => {
                let mut s = self.sessions.remove(i);
                let r = s.insert_stats_chunk(upload);
                self.sessions.insert(i, s);
                proof {
                    assert(forall|k: int|
                        0 <= k < old(self).sessions@.len() && k != i as int
                            ==> self.sessions@[k] == old(self).sessions@[k]);
                }
                r
            },
            None => None,
        }
    }

    /// The timeout sweep: removes every session that is not persistent and
    /// was last heard from longer ago than the timeout allows, and returns
    /// the removed sessions — one disconnect notification each, in order.
    /// Persistent sessions survive regardless of elapsed time.
    pub fn evict_stale(&mut self, now: u64, timeout_seconds: u64) -> (evicted: Vec<Session>)
        requires
            old(self).wf(),
        ensures
            final(self).wf(),
            final(self).sessions@ == spec_survivors(old(self).sessions@, now, timeout_seconds),
            evicted@ == spec_evicted(old(self).sessions@, now, timeout_seconds),
    {
        let ghost total = self.sessions@;
        let mut kept: Vec<Session> = Vec::new();
        let mut evicted: Vec<Session> = Vec::new();
        let ghost mut i: int = 0;
        while self.sessions.len() > 0
            invariant
                0 <= i <= total.len(),
                self.sessions@ =~= total.skip(i),
                kept@ == spec_survivors(total.take(i), now, timeout_seconds),
                evicted@ == spec_evicted(total.take(i), now, timeout_seconds),
            decreases self.sessions@.len(),
        {
            let s = self.sessions.remove(0);
            proof {
                assert(s == total[i]);
                assert(total.take(i + 1) =~= total.take(i).push(total[i]));
                lemma_sweep_push(total.take(i), total[i], now, timeout_seconds);
            }
            let stale = !s.persistent && now >= s.last_seen && now - s.last_seen
                > timeout_seconds;
            if stale {
                evicted.push(s);
            } else {
                kept.push(s);
            }
            proof {
                assert(self.sessions@ =~= total.skip(i + 1));
                i = i + 1;
            }
        }
        proof {
            assert(total.take(i) =~= total);
        }
        self.sessions = kept;
        proof {
            lemma_survivors_wf(total, now, timeout_seconds);
        }
        evicted
    }
}

/// The outcome of storing a game update.
#[derive(Debug, Clone, Copy, PartialEq, Eq, Structural)]
pub struct GameUpdateOutcome {
    /// Whether a session for the identity existed.
    pub known: bool,
    /// Whether the update changed the current game: the edge the rest of
    /// the system uses to request a new icon and roll sessions over.
    pub game_changed: bool,
}

} // verus!

//! Wire codec for the datagram transport.
//!
//! Every packet starts with the four magic bytes `"PSPR"` followed by a one
//! byte message type and a type-specific payload.  All multi-byte integers
//! are little-endian.  String fields are fixed-width byte ranges, terminated
//! by the first NUL byte or by the end of the field.

use vstd::prelude::*;

verus! {

use vstd::slice::slice_subrange;
use vstd::bytes::{spec_u16_to_le_bytes, spec_u16_from_le_bytes, u16_from_le_bytes};
use vstd::bytes::{spec_u32_to_le_bytes, spec_u32_from_le_bytes, u32_from_le_bytes};
use vstd::bytes::{spec_u64_to_le_bytes, spec_u64_from_le_bytes, u64_from_le_bytes};
use crate::strutil::{utf8_or_lossy, lossy_string};
use vstd::string::StringSliceAdditionalSpecFns;
use vstd::utf8::encode_utf8;

/// The four magic bytes `"PSPR"` that open every packet of the datagram
/// transport.
pub open spec fn spec_magic() -> Seq<u8> {
    seq![0x50u8, 0x53u8, 0x50u8, 0x52u8]
}

/// A sequence of `n` NUL bytes.
pub open spec fn zeros(n: nat) -> Seq<u8> {
    Seq::new(n, |i: int| 0u8)
}

/// A fixed-width string field: the string's bytes, cut off at `copy`
/// bytes, then NUL-padded out to `width`.
pub open spec fn spec_str_field(b: Seq<u8>, copy: nat, width: nat) -> Seq<u8>
    recommends
        copy <= width,
{
    let c = if b.len() <= copy {
        b
    } else {
        b.take(copy as int)
    };
    c + zeros((width - c.len()) as nat)
}

/// A fixed-width string field is always exactly `width` bytes long.
pub proof fn lemma_str_field_len(b: Seq<u8>, copy: nat, width: nat)
    requires
        copy <= width,
    ensures
        spec_str_field(b, copy, width).len() == width,
{
}

/// The bytes of a field before its first NUL; a field with no NUL is read
/// whole.
pub open spec fn nul_prefix(b: Seq<u8>) -> Seq<u8>
    decreases b.len(),
{
    if b.len() == 0 {
        b
    } else if b[0] == 0 {
        Seq::empty()
    } else {
        seq![b[0]] + nul_prefix(b.drop_first())
    }
}

/// The characters a fixed-width string field decodes to.
pub open spec fn spec_read_string(b: Seq<u8>) -> Seq<char> {
    utf8_or_lossy(nul_prefix(b))
}

proof fn lemma_nul_prefix_take(b: Seq<u8>, i: int)
    requires
        0 <= i <= b.len(),
        forall|j: int| 0 <= j < i ==> b[j] != 0,
        i == b.len() || b[i] == 0,
    ensures
        nul_prefix(b) == b.take(i),
    decreases b.len(),
{
    if b.len() == 0 {
        assert(b.take(0) =~= b);
    } else if b[0] == 0 {
        assert(b.take(0) =~= Seq::<u8>::empty());
    } else {
        assert(i >= 1);
        let t = b.drop_first();
        assert(forall|j: int| 0 <= j < i - 1 ==> t[j] != 0);
        lemma_nul_prefix_take(t, i - 1);
        assert(seq![b[0]] + t.take(i - 1) =~= b.take(i));
    }
}

/// A string whose bytes carry no NUL and fit in `copy` bytes survives the
/// fixed-width field unchanged.
pub proof fn lemma_str_field_round_trip(b: Seq<u8>, copy: nat, width: nat)
    requires
        copy <= width,
        b.len() <= copy,
        forall|j: int| 0 <= j < b.len() ==> b[j] != 0,
    ensures
        nul_prefix(spec_str_field(b, copy, width)) == b,
{
    let f = spec_str_field(b, copy, width);
    assert(f =~= b + zeros((width - b.len()) as nat));
    lemma_nul_prefix_take(f, b.len() as int);
    assert(f.take(b.len() as int) =~= b);
}

/// Reads a NUL-terminated-or-padded string field: the bytes before the
/// first NUL (or the whole field) decoded as UTF-8, with lossy
/// substitution for invalid sequences.
pub fn read_string(data: &[u8]) -> (r: String)
    ensures
        r@ == spec_read_string(data@),
{
    let mut i: usize = 0;
    let mut end: usize = data.len();
    let mut found = false;
    while i < data.len()
        invariant
            0 <= i <= data@.len(),
            found ==> end < data@.len() && data@[end as int] == 0 && (forall|j: int|
                0 <= j < end ==> data@[j] != 0),
            !found ==> end == data@.len() && (forall|j: int| 0 <= j < i ==> data@[j] != 0),
        decreases data@.len() - i,
    {
        if !found && data[i] == 0 {
            end = i;
            found = true;
        }
        i += 1;
    }
    proof {
        lemma_nul_prefix_take(data@, end as int);
    }
    lossy_string(slice_subrange(data, 0, end))
}

/// Why a buffer could not be decoded.  Both cases are recoverable: the
/// caller drops the single packet and continues.
#[derive(Debug, Clone, Copy, PartialEq, Eq, Structural)]
pub enum DecodeError {
    /// The buffer is smaller than the minimum length for the declared type.
    TooShort,
    /// The type byte matches no known message.
    UnknownType,
    /// The packet does not start with the expected magic bytes.
    BadMagic,
}

/// Message types of the datagram protocol.  The byte codes are stable
/// constants partitioned by direction (device to host versus host to
/// device); see [`MessageType::code`].
#[derive(Debug, Clone, Copy, PartialEq, Eq, Structural)]
pub enum MessageType {
    Heartbeat,
    GameInfo,
    IconChunk,
    IconEnd,
    StatsRequest,
    StatsUpload,
    Ack,
    IconRequest,
    StatsResponse,
    DiscoveryRequest,
    DiscoveryResponse,
}

/// The wire code of each message type.
pub open spec fn spec_type_code(t: MessageType) -> u8 {
    match t {
        MessageType::Heartbeat => 0x01,
        MessageType::GameInfo => 0x02,
        MessageType::IconChunk => 0x03,
        MessageType::IconEnd => 0x04,
        MessageType::StatsRequest => 0x05,
        MessageType::StatsUpload => 0x06,
        MessageType::Ack => 0x10,
        MessageType::IconRequest => 0x11,
        MessageType::StatsResponse => 0x12,
        MessageType::DiscoveryRequest => 0x20,
        MessageType::DiscoveryResponse => 0x21,
    }
}

/// The message type a wire code stands for, if any.
pub open spec fn spec_type_of_code(b: u8) -> Option<MessageType> {
    if b == 0x01 {
        Some(MessageType::Heartbeat)
    } else if b == 0x02 {
        Some(MessageType::GameInfo)
    } else if b == 0x03 {
        Some(MessageType::IconChunk)
    } else if b == 0x04 {
        Some(MessageType::IconEnd)
    } else if b == 0x05 {
        Some(MessageType::StatsRequest)
    } else if b == 0x06 {
        Some(MessageType::StatsUpload)
    } else if b == 0x10 {
        Some(MessageType::Ack)
    } else if b == 0x11 {
        Some(MessageType::IconRequest)
    } else if b == 0x12 {
        Some(MessageType::StatsResponse)
    } else if b == 0x20 {
        Some(MessageType::DiscoveryRequest)
    } else if b == 0x21 {
        Some(MessageType::DiscoveryResponse)
    } else {
        None
    }
}

impl MessageType {
    /// The byte that stands for this message type on the wire.
    pub fn code(self) -> (r: u8)
        ensures
            r == spec_type_code(self),
    {
        match self {
            MessageType::Heartbeat => 0x01,
            MessageType::GameInfo => 0x02,
            MessageType::IconChunk => 0x03,
            MessageType::IconEnd => 0x04,
            MessageType::StatsRequest => 0x05,
            MessageType::StatsUpload => 0x06,
            MessageType::Ack => 0x10,
            MessageType::IconRequest => 0x11,
            MessageType::StatsResponse => 0x12,
            MessageType::DiscoveryRequest => 0x20,
            MessageType::DiscoveryResponse => 0x21,
        }
    }

    /// The message type a wire byte stands for, or `None` for an
    /// unrecognized byte.
    pub fn from_code(b: u8) -> (r: Option<MessageType>)
        ensures
            r == spec_type_of_code(b),
    {
        if b == 0x01 {
            Some(MessageType::Heartbeat)
        } else if b == 0x02 {
            Some(MessageType::GameInfo)
        } else if b == 0x03 {
            Some(MessageType::IconChunk)
        } else if b == 0x04 {
            Some(MessageType::IconEnd)
        } else if b == 0x05 {
            Some(MessageType::StatsRequest)
        } else if b == 0x06 {
            Some(MessageType::StatsUpload)
        } else if b == 0x10 {
            Some(MessageType::Ack)
        } else if b == 0x11 {
            Some(MessageType::IconRequest)
        } else if b == 0x12 {
            Some(MessageType::StatsResponse)
        } else if b == 0x20 {
            Some(MessageType::DiscoveryRequest)
        } else if b == 0x21 {
            Some(MessageType::DiscoveryResponse)
        } else {
            None
        }
    }
}

/// Each code maps back to the type it was produced from.
pub proof fn lemma_type_code_round_trip(t: MessageType)
    ensures
        spec_type_of_code(spec_type_code(t)) == Some(t),
{
}

/// Device activity states carried in a game update.
#[derive(Debug, Clone, Copy, PartialEq, Eq, Structural)]
pub enum PspState {
    Xmb,
    Game,
    Homebrew,
    Video,
    Music,
}

/// The wire code of each activity state.
pub open spec fn spec_state_code(s: PspState) -> u8 {
    match s {
        PspState::Xmb => 0,
        PspState::Game => 1,
        PspState::Homebrew => 2,
        PspState::Video => 3,
        PspState::Music => 4,
    }
}

/// The activity state a wire byte stands for; unknown bytes fall back to
/// the browsing state, as older and newer senders must interoperate.
pub open spec fn spec_state_of_code(b: u8) -> PspState {
    if b == 1 {
        PspState::Game
    } else if b == 2 {
        PspState::Homebrew
    } else if b == 3 {
        PspState::Video
    } else if b == 4 {
        PspState::Music
    } else {
        PspState::Xmb
    }
}

impl PspState {
    /// The byte that stands for this state on the wire.
    pub fn code(self) -> (r: u8)
        ensures
            r == spec_state_code(self),
    {
        match self {
            PspState::Xmb => 0,
            PspState::Game => 1,
            PspState::Homebrew => 2,
            PspState::Video => 3,
            PspState::Music => 4,
        }
    }

    /// The state a wire byte stands for, falling back to browsing.
    pub fn from_code(b: u8) -> (r: PspState)
        ensures
            r == spec_state_of_code(b),
    {
        if b == 1 {
            PspState::Game
        } else if b == 2 {
            PspState::Homebrew
        } else if b == 3 {
            PspState::Video
        } else if b == 4 {
            PspState::Music
        } else {
            PspState::Xmb
        }
    }

    /// A short human-readable label for the state.
    pub fn as_str(&self) -> (r: &'static str)
        ensures
            *self == PspState::Xmb ==> r@ == "Browsing XMB"@,
            *self == PspState::Game ==> r@ == "Playing"@,
            *self == PspState::Homebrew ==> r@ == "Running Homebrew"@,
            *self == PspState::Video ==> r@ == "Watching Video"@,
            *self == PspState::Music ==> r@ == "Listening to Music"@,
    {
        match self {
            PspState::Xmb => "Browsing XMB",
            PspState::Game => "Playing",
            PspState::Homebrew => "Running Homebrew",
            PspState::Video => "Watching Video",
            PspState::Music => "Listening to Music",
        }
    }
}

/// Each state code maps back to the state it was produced from.
pub proof fn lemma_state_code_round_trip(s: PspState)
    ensures
        spec_state_of_code(spec_state_code(s)) == s,
{
}

/// Splitting a packet into its message type and payload: fails `TooShort`
/// under five bytes, `BadMagic` on a wrong prefix, `UnknownType` on an
/// unrecognized type byte, and otherwise yields the type and everything
/// after the header.
pub open spec fn spec_parse_packet(d: Seq<u8>) -> Result<(MessageType, Seq<u8>), DecodeError> {
    if d.len() < 5 {
        Err(DecodeError::TooShort)
    } else if d.take(4) != spec_magic() {
        Err(DecodeError::BadMagic)
    } else {
        match spec_type_of_code(d[4]) {
            Some(t) => Ok((t, d.skip(5))),
            None => Err(DecodeError::UnknownType),
        }
    }
}

/// Splits a packet into its message type and its payload.
pub fn parse_packet(data: &[u8]) -> (r: Result<(MessageType, &[u8]), DecodeError>)
    ensures
        r is Ok <==> spec_parse_packet(data@) is Ok,
        r matches Ok((t, p)) ==> spec_parse_packet(data@) == Ok::<(MessageType, Seq<u8>), DecodeError>((t, p@)),
        r matches Err(e) ==> spec_parse_packet(data@) == Err::<(MessageType, Seq<u8>), DecodeError>(e),
{
    if data.len() < 5 {
        return Err(DecodeError::TooShort);
    }
    if data[0] != 0x50 || data[1] != 0x53 || data[2] != 0x50 || data[3] != 0x52 {
        proof {
            assert(data@.take(4) != spec_magic());
        }
        return Err(DecodeError::BadMagic);
    }
    proof {
        assert(data@.take(4) =~= spec_magic());
    }
    match MessageType::from_code(data[4]) {
        Some(t) => {
            let payload = slice_subrange(data, 5, data.len());
            proof {
                assert(payload@ =~= data@.skip(5));
            }
            Ok((t, payload))
        },
        None => Err(DecodeError::UnknownType),
    }
}

/// Liveness message from the device.
#[derive(Debug, Clone, Copy, PartialEq, Eq, Structural)]
pub struct Heartbeat {
    pub uptime_seconds: u32,
    pub wifi_strength: u8,
}

/// The payload bytes a heartbeat encodes to.
pub open spec fn spec_heartbeat_payload(h: Heartbeat) -> Seq<u8> {
    spec_u32_to_le_bytes(h.uptime_seconds) + seq![h.wifi_strength]
}

/// Decoding a heartbeat payload: fails `TooShort` under five bytes, and
/// otherwise reads the uptime and signal strength, ignoring trailing bytes.
pub open spec fn spec_decode_heartbeat(p: Seq<u8>) -> Result<Heartbeat, DecodeError> {
    if p.len() < 5 {
        Err(DecodeError::TooShort)
    } else {
        Ok(
            Heartbeat {
                uptime_seconds: spec_u32_from_le_bytes(p.take(4)),
                wifi_strength: p[4],
            },
        )
    }
}

impl Heartbeat {
    /// Decodes a heartbeat payload.
    pub fn decode(data: &[u8]) -> (r: Result<Heartbeat, DecodeError>)
        ensures
            r == spec_decode_heartbeat(data@),
    {
        if data.len() < 5 {
            return Err(DecodeError::TooShort);
        }
        let uptime = u32_from_le_bytes(slice_subrange(data, 0, 4));
        proof {
            assert(data@.subrange(0, 4) =~= data@.take(4));
        }
        Ok(Heartbeat { uptime_seconds: uptime, wifi_strength: data[4] })
    }

    /// Encodes this heartbeat as a full packet, header included.
    pub fn encode(&self) -> (r: Vec<u8>)
        ensures
            r@ == spec_magic() + seq![spec_type_code(MessageType::Heartbeat)]
                + spec_heartbeat_payload(*self),
    {
        let mut buf = packet_header(MessageType::Heartbeat);
        push_u32_le(&mut buf, self.uptime_seconds);
        buf.push(self.wifi_strength);
        proof {
            assert(buf@ =~= spec_magic() + seq![spec_type_code(MessageType::Heartbeat)]
                + spec_heartbeat_payload(*self));
        }
        buf
    }
}

/// A heartbeat decodes back to itself.
pub proof fn lemma_heartbeat_round_trip(h: Heartbeat)
    ensures
        spec_decode_heartbeat(spec_heartbeat_payload(h)) == Ok::<Heartbeat, DecodeError>(h),
{
    let p = spec_heartbeat_payload(h);
    vstd::bytes::lemma_auto_spec_u32_to_from_le_bytes();
    assert(p.take(4) =~= spec_u32_to_le_bytes(h.uptime_seconds));
    assert(p[4] == h.wifi_strength);
}

/// The byte a flag encodes to.
pub open spec fn spec_bool_byte(b: bool) -> u8 {
    if b {
        1u8
    } else {
        0u8
    }
}

/// Whether a character sequence fits a fixed-width field: its UTF-8 bytes
/// stay within `width` and carry no NUL.
pub open spec fn str_fits(chars: Seq<char>, width: nat) -> bool {
    let b = encode_utf8(chars);
    b.len() <= width && forall|j: int| 0 <= j < b.len() ==> b[j] != 0
}

/// A fitting character sequence survives its field unchanged.
proof fn lemma_field_reads_back(chars: Seq<char>, copy: nat, width: nat)
    requires
        copy <= width,
        str_fits(chars, copy),
    ensures
        spec_read_string(spec_str_field(encode_utf8(chars), copy, width)) == chars,
{
    let b = encode_utf8(chars);
    lemma_str_field_round_trip(b, copy, width);
    broadcast use vstd::utf8::encode_utf8_valid_utf8;
    broadcast use vstd::utf8::encode_utf8_decode_utf8;

}

/// Game information pushed by the device: what runs, since when, and how
/// the device presents itself.
#[derive(Debug, PartialEq, Eq)]
pub struct GameInfo {
    pub game_id: String,
    pub title: String,
    pub start_time: u32,
    pub state: PspState,
    pub has_icon: bool,
    pub persistent: bool,
    pub psp_name: String,
}

/// The mathematical value of a [`GameInfo`].
#[verifier::ext_equal]
pub struct GameInfoView {
    pub game_id: Seq<char>,
    pub title: Seq<char>,
    pub start_time: u32,
    pub state: PspState,
    pub has_icon: bool,
    pub persistent: bool,
    pub psp_name: Seq<char>,
}

impl Clone for GameInfo {
    /// An exact copy, field for field.
    fn clone(&self) -> (r: GameInfo)
        ensures
            r == *self,
    {
        GameInfo {
            game_id: self.game_id.clone(),
            title: self.title.clone(),
            start_time: self.start_time,
            state: self.state,
            has_icon: self.has_icon,
            persistent: self.persistent,
            psp_name: self.psp_name.clone(),
        }
    }
}

impl View for GameInfo {
    type V = GameInfoView;

    open spec fn view(&self) -> GameInfoView {
        GameInfoView {
            game_id: self.game_id@,
            title: self.title@,
            start_time: self.start_time,
            state: self.state,
            has_icon: self.has_icon,
            persistent: self.persistent,
            psp_name: self.psp_name@,
        }
    }
}

/// The payload bytes a game update encodes to: `game_id[10] | title[128] |
/// start_time:u32 | state:u8 | has_icon:u8 | persistent:u8 | psp_name[32]`.
pub open spec fn spec_game_info_payload(v: GameInfoView) -> Seq<u8> {
    spec_str_field(encode_utf8(v.game_id), 10, 10) + spec_str_field(encode_utf8(v.title), 128, 128)
        + spec_u32_to_le_bytes(v.start_time) + seq![spec_state_code(v.state)]
        + seq![spec_bool_byte(v.has_icon)] + seq![spec_bool_byte(v.persistent)] + spec_str_field(
        encode_utf8(v.psp_name),
        32,
        32,
    )
}

/// Decoding a game update: fails `TooShort` under 144 bytes; the trailing
/// persistent flag and device name default to false and empty when the
/// payload is short, to tolerate older senders.
pub open spec fn spec_decode_game_info(p: Seq<u8>) -> Result<GameInfoView, DecodeError> {
    if p.len() < 144 {
        Err(DecodeError::TooShort)
    } else {
        Ok(
            GameInfoView {
                game_id: spec_read_string(p.subrange(0, 10)),
                title: spec_read_string(p.subrange(10, 138)),
                start_time: spec_u32_from_le_bytes(p.subrange(138, 142)),
                state: spec_state_of_code(p[142]),
                has_icon: p[143] != 0,
                persistent: p.len() > 144 && p[144] != 0,
                psp_name: if p.len() >= 177 {
                    spec_read_string(p.subrange(145, 177))
                } else {
                    Seq::empty()
                },
            },
        )
    }
}

impl GameInfo {
    /// Decodes a game-update payload.
    pub fn decode(data: &[u8]) -> (r: Result<GameInfo, DecodeError>)
        ensures
            match r {
                Ok(g) => spec_decode_game_info(data@) == Ok::<GameInfoView, DecodeError>(g@),
                Err(e) => spec_decode_game_info(data@) == Err::<GameInfoView, DecodeError>(e),
            },
    {
        if data.len() < 144 {
            return Err(DecodeError::TooShort);
        }
        let game_id = read_string(slice_subrange(data, 0, 10));
        let title = read_string(slice_subrange(data, 10, 138));
        let start_time = u32_from_le_bytes(slice_subrange(data, 138, 142));
        let state = PspState::from_code(data[142]);
        let has_icon = data[143] != 0;
        let persistent = if data.len() > 144 {
            data[144] != 0
        } else {
            false
        };
        let psp_name = if data.len() >= 177 {
            read_string(slice_subrange(data, 145, 177))
        } else {
            String::new()
        };
        Ok(GameInfo { game_id, title, start_time, state, has_icon, persistent, psp_name })
    }

    /// Encodes this game update as a full packet, header included; the
    /// payload always carries the trailing persistent flag and device name.
    #[verifier::rlimit(60)]
    pub fn encode(&self) -> (r: Vec<u8>)
        ensures
            r@ == spec_magic() + seq![spec_type_code(MessageType::GameInfo)]
                + spec_game_info_payload(self@),
    {
        let mut buf = packet_header(MessageType::GameInfo);
        push_str_field(&mut buf, self.game_id.as_str(), 10, 10);
        push_str_field(&mut buf, self.title.as_str(), 128, 128);
        push_u32_le(&mut buf, self.start_time);
        buf.push(self.state.code());
        buf.push(if self.has_icon {
            1
        } else {
            0
        });
        buf.push(if self.persistent {
            1
        } else {
            0
        });
        push_str_field(&mut buf, self.psp_name.as_str(), 32, 32);
        proof {
            assert(buf@ =~= spec_magic() + seq![spec_type_code(MessageType::GameInfo)]
                + spec_game_info_payload(self@));
        }
        buf
    }
}

/// A game update whose strings fit their fields decodes back to itself.
pub proof fn lemma_game_info_round_trip(v: GameInfoView)
    requires
        str_fits(v.game_id, 10),
        str_fits(v.title, 128),
        str_fits(v.psp_name, 32),
    ensures
        spec_decode_game_info(spec_game_info_payload(v)) == Ok::<GameInfoView, DecodeError>(v),
{
    let p = spec_game_info_payload(v);
    let f_id = spec_str_field(encode_utf8(v.game_id), 10, 10);
    let f_title = spec_str_field(encode_utf8(v.title), 128, 128);
    let f_name = spec_str_field(encode_utf8(v.psp_name), 32, 32);
    lemma_str_field_len(encode_utf8(v.game_id), 10, 10);
    lemma_str_field_len(encode_utf8(v.title), 128, 128);
    lemma_str_field_len(encode_utf8(v.psp_name), 32, 32);
    vstd::bytes::lemma_auto_spec_u32_to_from_le_bytes();
    assert(p.len() == 177);
    assert(p.subrange(0, 10) =~= f_id);
    assert(p.subrange(10, 138) =~= f_title);
    assert(p.subrange(138, 142) =~= spec_u32_to_le_bytes(v.start_time));
    assert(p[142] == spec_state_code(v.state));
    assert(p[143] == spec_bool_byte(v.has_icon));
    assert(p[144] == spec_bool_byte(v.persistent));
    assert(p.subrange(145, 177) =~= f_name);
    lemma_field_reads_back(v.game_id, 10, 10);
    lemma_field_reads_back(v.title, 128, 128);
    lemma_field_reads_back(v.psp_name, 32, 32);
    vstd::bytes::lemma_auto_spec_u32_to_from_le_bytes();
    lemma_state_code_round_trip(v.state);
    assert(spec_decode_game_info(p).unwrap() =~= v);
}

/// One fragment of an icon transfer, keyed by the game it belongs to.
#[derive(Debug, Clone, PartialEq, Eq)]
pub struct IconChunk {
    pub game_id: String,
    pub chunk_index: u16,
    pub total_chunks: u16,
    pub data: Vec<u8>,
}

/// The mathematical value of an [`IconChunk`].
#[verifier::ext_equal]
pub struct IconChunkView {
    pub game_id: Seq<char>,
    pub chunk_index: u16,
    pub total_chunks: u16,
    pub data: Seq<u8>,
}

impl View for IconChunk {
    type V = IconChunkView;

    open spec fn view(&self) -> IconChunkView {
        IconChunkView {
            game_id: self.game_id@,
            chunk_index: self.chunk_index,
            total_chunks: self.total_chunks,
            data: self.data@,
        }
    }
}

/// The payload bytes an icon chunk encodes to: `game_id[10] |
/// chunk_index:u16 | total_chunks:u16 | data_len:u16 | data[...]`.
pub open spec fn spec_icon_chunk_payload(v: IconChunkView) -> Seq<u8> {
    spec_str_field(encode_utf8(v.game_id), 10, 10) + spec_u16_to_le_bytes(v.chunk_index)
        + spec_u16_to_le_bytes(v.total_chunks) + spec_u16_to_le_bytes(v.data.len() as u16) + v.data
}

/// Decoding an icon chunk: fails `TooShort` under 16 bytes or when the
/// declared data length runs past the buffer.
pub open spec fn spec_decode_icon_chunk(p: Seq<u8>) -> Result<IconChunkView, DecodeError> {
    if p.len() < 16 {
        Err(DecodeError::TooShort)
    } else {
        let data_len = spec_u16_from_le_bytes(p.subrange(14, 16)) as int;
        if p.len() < 16 + data_len {
            Err(DecodeError::TooShort)
        } else {
            Ok(
                IconChunkView {
                    game_id: spec_read_string(p.subrange(0, 10)),
                    chunk_index: spec_u16_from_le_bytes(p.subrange(10, 12)),
                    total_chunks: spec_u16_from_le_bytes(p.subrange(12, 14)),
                    data: p.subrange(16, 16 + data_len),
                },
            )
        }
    }
}

impl IconChunk {
    /// Decodes an icon-chunk payload.
    pub fn decode(data: &[u8]) -> (r: Result<IconChunk, DecodeError>)
        ensures
            match r {
                Ok(c) => spec_decode_icon_chunk(data@) == Ok::<IconChunkView, DecodeError>(c@),
                Err(e) => spec_decode_icon_chunk(data@) == Err::<IconChunkView, DecodeError>(e),
            },
    {
        if data.len() < 16 {
            return Err(DecodeError::TooShort);
        }
        let data_len = u16_from_le_bytes(slice_subrange(data, 14, 16)) as usize;
        if data.len() < 16 + data_len {
            return Err(DecodeError::TooShort);
        }
        let game_id = read_string(slice_subrange(data, 0, 10));
        let chunk_index = u16_from_le_bytes(slice_subrange(data, 10, 12));
        let total_chunks = u16_from_le_bytes(slice_subrange(data, 12, 14));
        let chunk_data = vstd::slice::slice_to_vec(slice_subrange(data, 16, 16 + data_len));
        Ok(IconChunk { game_id, chunk_index, total_chunks, data: chunk_data })
    }

    /// Encodes this icon chunk as a full packet, header included.
    pub fn encode(&self) -> (r: Vec<u8>)
        requires
            self.data@.len() <= u16::MAX,
        ensures
            r@ == spec_magic() + seq![spec_type_code(MessageType::IconChunk)]
                + spec_icon_chunk_payload(self@),
    {
        let mut buf = packet_header(MessageType::IconChunk);
        push_str_field(&mut buf, self.game_id.as_str(), 10, 10);
        push_u16_le(&mut buf, self.chunk_index);
        push_u16_le(&mut buf, self.total_chunks);
        push_u16_le(&mut buf, self.data.len() as u16);
        push_bytes(&mut buf, self.data.as_slice());
        proof {
            assert(buf@ =~= spec_magic() + seq![spec_type_code(MessageType::IconChunk)]
                + spec_icon_chunk_payload(self@));
        }
        buf
    }
}

/// An icon chunk whose game id fits and whose data length fits the wire
/// field decodes back to itself.
pub proof fn lemma_icon_chunk_round_trip(v: IconChunkView)
    requires
        str_fits(v.game_id, 10),
        v.data.len() <= u16::MAX,
    ensures
        spec_decode_icon_chunk(spec_icon_chunk_payload(v)) == Ok::<IconChunkView, DecodeError>(v),
{
    let p = spec_icon_chunk_payload(v);
    lemma_str_field_len(encode_utf8(v.game_id), 10, 10);
    vstd::bytes::lemma_auto_spec_u16_to_from_le_bytes();
    assert(p.len() == 16 + v.data.len());
    assert(p.subrange(0, 10) =~= spec_str_field(encode_utf8(v.game_id), 10, 10));
    assert(p.subrange(10, 12) =~= spec_u16_to_le_bytes(v.chunk_index));
    assert(p.subrange(12, 14) =~= spec_u16_to_le_bytes(v.total_chunks));
    assert(p.subrange(14, 16) =~= spec_u16_to_le_bytes(v.data.len() as u16));
    assert(p.subrange(16, 16 + v.data.len() as int) =~= v.data);
    lemma_field_reads_back(v.game_id, 10, 10);
    assert(spec_decode_icon_chunk(p).unwrap() =~= v);
}

/// End marker of an icon transfer, carrying the declared size and the
/// whole-payload checksum.
#[derive(Debug, Clone, PartialEq, Eq)]
pub struct IconEnd {
    pub game_id: String,
    pub total_size: u32,
    pub crc32: u32,
}

/// The mathematical value of an [`IconEnd`].
#[verifier::ext_equal]
pub struct IconEndView {
    pub game_id: Seq<char>,
    pub total_size: u32,
    pub crc32: u32,
}

impl View for IconEnd {
    type V = IconEndView;

    open spec fn view(&self) -> IconEndView {
        IconEndView { game_id: self.game_id@, total_size: self.total_size, crc32: self.crc32 }
    }
}

/// The payload bytes an end marker encodes to: `game_id[10] |
/// total_size:u32 | crc32:u32`.
pub open spec fn spec_icon_end_payload(v: IconEndView) -> Seq<u8> {
    spec_str_field(encode_utf8(v.game_id), 10, 10) + spec_u32_to_le_bytes(v.total_size)
        + spec_u32_to_le_bytes(v.crc32)
}

/// Decoding an end marker: fails `TooShort` under 18 bytes.
pub open spec fn spec_decode_icon_end(p: Seq<u8>) -> Result<IconEndView, DecodeError> {
    if p.len() < 18 {
        Err(DecodeError::TooShort)
    } else {
        Ok(
            IconEndView {
                game_id: spec_read_string(p.subrange(0, 10)),
                total_size: spec_u32_from_le_bytes(p.subrange(10, 14)),
                crc32: spec_u32_from_le_bytes(p.subrange(14, 18)),
            },
        )
    }
}

impl IconEnd {
    /// Decodes an end-marker payload.
    pub fn decode(data: &[u8]) -> (r: Result<IconEnd, DecodeError>)
        ensures
            match r {
                Ok(e) => spec_decode_icon_end(data@) == Ok::<IconEndView, DecodeError>(e@),
                Err(e) => spec_decode_icon_end(data@) == Err::<IconEndView, DecodeError>(e),
            },
    {
        if data.len() < 18 {
            return Err(DecodeError::TooShort);
        }
        let game_id = read_string(slice_subrange(data, 0, 10));
        let total_size = u32_from_le_bytes(slice_subrange(data, 10, 14));
        let crc32 = u32_from_le_bytes(slice_subrange(data, 14, 18));
        Ok(IconEnd { game_id, total_size, crc32 })
    }

    /// Encodes this end marker as a full packet, header included.
    pub fn encode(&self) -> (r: Vec<u8>)
        ensures
            r@ == spec_magic() + seq![spec_type_code(MessageType::IconEnd)]
                + spec_icon_end_payload(self@),
    {
        let mut buf = packet_header(MessageType::IconEnd);
        push_str_field(&mut buf, self.game_id.as_str(), 10, 10);
        push_u32_le(&mut buf, self.total_size);
        push_u32_le(&mut buf, self.crc32);
        proof {
            assert(buf@ =~= spec_magic() + seq![spec_type_code(MessageType::IconEnd)]
                + spec_icon_end_payload(self@));
        }
        buf
    }
}

/// An end marker whose game id fits decodes back to itself.
pub proof fn lemma_icon_end_round_trip(v: IconEndView)
    requires
        str_fits(v.game_id, 10),
    ensures
        spec_decode_icon_end(spec_icon_end_payload(v)) == Ok::<IconEndView, DecodeError>(v),
{
    let p = spec_icon_end_payload(v);
    lemma_str_field_len(encode_utf8(v.game_id), 10, 10);
    vstd::bytes::lemma_auto_spec_u32_to_from_le_bytes();
    assert(p.len() == 18);
    assert(p.subrange(0, 10) =~= spec_str_field(encode_utf8(v.game_id), 10, 10));
    assert(p.subrange(10, 14) =~= spec_u32_to_le_bytes(v.total_size));
    assert(p.subrange(14, 18) =~= spec_u32_to_le_bytes(v.crc32));
    lemma_field_reads_back(v.game_id, 10, 10);
    assert(spec_decode_icon_end(p).unwrap() =~= v);
}

/// The device's answer to a discovery request: its display name, plugin
/// version and battery level.
#[derive(Debug, Clone, PartialEq, Eq)]
pub struct DiscoveryResponse {
    pub psp_name: String,
    pub version: String,
    pub battery_percent: u8,
}

/// The mathematical value of a [`DiscoveryResponse`].
#[verifier::ext_equal]
pub struct DiscoveryResponseView {
    pub psp_name: Seq<char>,
    pub version: Seq<char>,
    pub battery_percent: u8,
}

impl View for DiscoveryResponse {
    type V = DiscoveryResponseView;

    open spec fn view(&self) -> DiscoveryResponseView {
        DiscoveryResponseView {
            psp_name: self.psp_name@,
            version: self.version@,
            battery_percent: self.battery_percent,
        }
    }
}

/// The payload bytes a discovery response encodes to: `psp_name[32] |
/// version[8] | battery:u8`.
pub open spec fn spec_discovery_response_payload(v: DiscoveryResponseView) -> Seq<u8> {
    spec_str_field(encode_utf8(v.psp_name), 32, 32) + spec_str_field(encode_utf8(v.version), 8, 8)
        + seq![v.battery_percent]
}

/// Decoding a discovery response: fails `TooShort` under 41 bytes.
pub open spec fn spec_decode_discovery_response(p: Seq<u8>) -> Result<
    DiscoveryResponseView,
    DecodeError,
> {
    if p.len() < 41 {
        Err(DecodeError::TooShort)
    } else {
        Ok(
            DiscoveryResponseView {
                psp_name: spec_read_string(p.subrange(0, 32)),
                version: spec_read_string(p.subrange(32, 40)),
                battery_percent: p[40],
            },
        )
    }
}

impl DiscoveryResponse {
    /// Decodes a discovery-response payload.
    pub fn decode(data: &[u8]) -> (r: Result<DiscoveryResponse, DecodeError>)
        ensures
            match r {
                Ok(d) => spec_decode_discovery_response(data@) == Ok::<
                    DiscoveryResponseView,
                    DecodeError,
                >(d@),
                Err(e) => spec_decode_discovery_response(data@) == Err::<
                    DiscoveryResponseView,
                    DecodeError,
                >(e),
            },
    {
        if data.len() < 41 {
            return Err(DecodeError::TooShort);
        }
        let psp_name = read_string(slice_subrange(data, 0, 32));
        let version = read_string(slice_subrange(data, 32, 40));
        Ok(DiscoveryResponse { psp_name, version, battery_percent: data[40] })
    }

    /// Encodes this discovery response as a full packet, header included.
    pub fn encode(&self) -> (r: Vec<u8>)
        ensures
            r@ == spec_magic() + seq![spec_type_code(MessageType::DiscoveryResponse)]
                + spec_discovery_response_payload(self@),
    {
        let mut buf = packet_header(MessageType::DiscoveryResponse);
        push_str_field(&mut buf, self.psp_name.as_str(), 32, 32);
        push_str_field(&mut buf, self.version.as_str(), 8, 8);
        buf.push(self.battery_percent);
        proof {
            assert(buf@ =~= spec_magic() + seq![spec_type_code(MessageType::DiscoveryResponse)]
                + spec_discovery_response_payload(self@));
        }
        buf
    }
}

/// A discovery response whose strings fit decodes back to itself.
pub proof fn lemma_discovery_response_round_trip(v: DiscoveryResponseView)
    requires
        str_fits(v.psp_name, 32),
        str_fits(v.version, 8),
    ensures
        spec_decode_discovery_response(spec_discovery_response_payload(v)) == Ok::<
            DiscoveryResponseView,
            DecodeError,
        >(v),
{
    let p = spec_discovery_response_payload(v);
    lemma_str_field_len(encode_utf8(v.psp_name), 32, 32);
    lemma_str_field_len(encode_utf8(v.version), 8, 8);
    assert(p.len() == 41);
    assert(p.subrange(0, 32) =~= spec_str_field(encode_utf8(v.psp_name), 32, 32));
    assert(p.subrange(32, 40) =~= spec_str_field(encode_utf8(v.version), 8, 8));
    lemma_field_reads_back(v.psp_name, 32, 32);
    lemma_field_reads_back(v.version, 8, 8);
    assert(spec_decode_discovery_response(p).unwrap() =~= v);
}

/// One fragment of a statistics upload from the device.
#[derive(Debug, Clone, PartialEq, Eq)]
pub struct StatsUpload {
    pub last_updated: u64,
    pub chunk_index: u16,
    pub total_chunks: u16,
    pub json_data: Vec<u8>,
}

/// The mathematical value of a [`StatsUpload`].
#[verifier::ext_equal]
pub struct StatsUploadView {
    pub last_updated: u64,
    pub chunk_index: u16,
    pub total_chunks: u16,
    pub json_data: Seq<u8>,
}

impl View for StatsUpload {
    type V = StatsUploadView;

    open spec fn view(&self) -> StatsUploadView {
        StatsUploadView {
            last_updated: self.last_updated,
            chunk_index: self.chunk_index,
            total_chunks: self.total_chunks,
            json_data: self.json_data@,
        }
    }
}

/// The payload bytes an upload chunk encodes to: `last_updated:u64 |
/// chunk_index:u16 | total_chunks:u16 | data_len:u16 | data[...]`.
pub open spec fn spec_stats_upload_payload(v: StatsUploadView) -> Seq<u8> {
    spec_u64_to_le_bytes(v.last_updated) + spec_u16_to_le_bytes(v.chunk_index)
        + spec_u16_to_le_bytes(v.total_chunks) + spec_u16_to_le_bytes(v.json_data.len() as u16)
        + v.json_data
}

/// Decoding an upload chunk: fails `TooShort` under 14 bytes or when the
/// declared data length runs past the buffer.
pub open spec fn spec_decode_stats_upload(p: Seq<u8>) -> Result<StatsUploadView, DecodeError> {
    if p.len() < 14 {
        Err(DecodeError::TooShort)
    } else {
        let data_len = spec_u16_from_le_bytes(p.subrange(12, 14)) as int;
        if p.len() < 14 + data_len {
            Err(DecodeError::TooShort)
        } else {
            Ok(
                StatsUploadView {
                    last_updated: spec_u64_from_le_bytes(p.subrange(0, 8)),
                    chunk_index: spec_u16_from_le_bytes(p.subrange(8, 10)),
                    total_chunks: spec_u16_from_le_bytes(p.subrange(10, 12)),
                    json_data: p.subrange(14, 14 + data_len),
                },
            )
        }
    }
}

impl StatsUpload {
    /// Decodes a statistics-upload payload.
    pub fn decode(data: &[u8]) -> (r: Result<StatsUpload, DecodeError>)
        ensures
            match r {
                Ok(u) => spec_decode_stats_upload(data@) == Ok::<StatsUploadView, DecodeError>(u@),
                Err(e) => spec_decode_stats_upload(data@) == Err::<StatsUploadView, DecodeError>(e),
            },
    {
        if data.len() < 14 {
            return Err(DecodeError::TooShort);
        }
        let data_len = u16_from_le_bytes(slice_subrange(data, 12, 14)) as usize;
        if data.len() < 14 + data_len {
            return Err(DecodeError::TooShort);
        }
        let last_updated = u64_from_le_bytes(slice_subrange(data, 0, 8));
        let chunk_index = u16_from_le_bytes(slice_subrange(data, 8, 10));
        let total_chunks = u16_from_le_bytes(slice_subrange(data, 10, 12));
        let json_data = vstd::slice::slice_to_vec(slice_subrange(data, 14, 14 + data_len));
        Ok(StatsUpload { last_updated, chunk_index, total_chunks, json_data })
    }

    /// Encodes this upload chunk as a full packet, header included.
    pub fn encode(&self) -> (r: Vec<u8>)
        requires
            self.json_data@.len() <= u16::MAX,
        ensures
            r@ == spec_magic() + seq![spec_type_code(MessageType::StatsUpload)]
                + spec_stats_upload_payload(self@),
    {
        let mut buf = packet_header(MessageType::StatsUpload);
        push_u64_le(&mut buf, self.last_updated);
        push_u16_le(&mut buf, self.chunk_index);
        push_u16_le(&mut buf, self.total_chunks);
        push_u16_le(&mut buf, self.json_data.len() as u16);
        push_bytes(&mut buf, self.json_data.as_slice());
        proof {
            assert(buf@ =~= spec_magic() + seq![spec_type_code(MessageType::StatsUpload)]
                + spec_stats_upload_payload(self@));
        }
        buf
    }
}

/// An upload chunk whose data length fits the wire field decodes back to
/// itself.
pub proof fn lemma_stats_upload_round_trip(v: StatsUploadView)
    requires
        v.json_data.len() <= u16::MAX,
    ensures
        spec_decode_stats_upload(spec_stats_upload_payload(v)) == Ok::<StatsUploadView, DecodeError>(
            v,
        ),
{
    let p = spec_stats_upload_payload(v);
    vstd::bytes::lemma_auto_spec_u16_to_from_le_bytes();
    vstd::bytes::lemma_auto_spec_u64_to_from_le_bytes();
    assert(p.len() == 14 + v.json_data.len());
    assert(p.subrange(0, 8) =~= spec_u64_to_le_bytes(v.last_updated));
    assert(p.subrange(8, 10) =~= spec_u16_to_le_bytes(v.chunk_index));
    assert(p.subrange(10, 12) =~= spec_u16_to_le_bytes(v.total_chunks));
    assert(p.subrange(12, 14) =~= spec_u16_to_le_bytes(v.json_data.len() as u16));
    assert(p.subrange(14, 14 + v.json_data.len() as int) =~= v.json_data);
    assert(spec_decode_stats_upload(p).unwrap() =~= v);
}

/// A discovery request sent by the desktop, naming the port it listens on
/// and its protocol version.
#[derive(Debug, Clone, PartialEq, Eq)]
pub struct DiscoveryRequest {
    pub listen_port: u16,
    pub version: String,
}

/// The mathematical value of a [`DiscoveryRequest`].
#[verifier::ext_equal]
pub struct DiscoveryRequestView {
    pub listen_port: u16,
    pub version: Seq<char>,
}

impl View for DiscoveryRequest {
    type V = DiscoveryRequestView;

    open spec fn view(&self) -> DiscoveryRequestView {
        DiscoveryRequestView { listen_port: self.listen_port, version: self.version@ }
    }
}

/// The payload bytes a discovery request encodes to: `listen_port:u16 |
/// version[8]`, the version cut off at seven bytes so the field always
/// ends in NUL.
pub open spec fn spec_discovery_request_payload(v: DiscoveryRequestView) -> Seq<u8> {
    spec_u16_to_le_bytes(v.listen_port) + spec_str_field(encode_utf8(v.version), 7, 8)
}

/// Decoding a discovery request: fails `TooShort` under 10 bytes.
pub open spec fn spec_decode_discovery_request(p: Seq<u8>) -> Result<
    DiscoveryRequestView,
    DecodeError,
> {
    if p.len() < 10 {
        Err(DecodeError::TooShort)
    } else {
        Ok(
            DiscoveryRequestView {
                listen_port: spec_u16_from_le_bytes(p.subrange(0, 2)),
                version: spec_read_string(p.subrange(2, 10)),
            },
        )
    }
}

impl DiscoveryRequest {
    /// A discovery request for the given listen port, carrying this
    /// protocol revision's version string.
    pub fn new(listen_port: u16) -> (r: DiscoveryRequest)
        ensures
            r.listen_port == listen_port,
            r.version@ == "1.0.0"@,
    {
        DiscoveryRequest { listen_port, version: String::from_str("1.0.0") }
    }

    /// Decodes a discovery-request payload.
    pub fn decode(data: &[u8]) -> (r: Result<DiscoveryRequest, DecodeError>)
        ensures
            match r {
                Ok(d) => spec_decode_discovery_request(data@) == Ok::<
                    DiscoveryRequestView,
                    DecodeError,
                >(d@),
                Err(e) => spec_decode_discovery_request(data@) == Err::<
                    DiscoveryRequestView,
                    DecodeError,
                >(e),
            },
    {
        if data.len() < 10 {
            return Err(DecodeError::TooShort);
        }
        let listen_port = u16_from_le_bytes(slice_subrange(data, 0, 2));
        let version = read_string(slice_subrange(data, 2, 10));
        Ok(DiscoveryRequest { listen_port, version })
    }

    /// Encodes this discovery request as a full packet, header included.
    pub fn encode(&self) -> (r: Vec<u8>)
        ensures
            r@ == spec_magic() + seq![spec_type_code(MessageType::DiscoveryRequest)]
                + spec_discovery_request_payload(self@),
    {
        let mut buf = packet_header(MessageType::DiscoveryRequest);
        push_u16_le(&mut buf, self.listen_port);
        push_str_field(&mut buf, self.version.as_str(), 7, 8);
        proof {
            assert(buf@ =~= spec_magic() + seq![spec_type_code(MessageType::DiscoveryRequest)]
                + spec_discovery_request_payload(self@));
        }
        buf
    }
}

/// A discovery request whose version fits seven bytes decodes back to
/// itself.
pub proof fn lemma_discovery_request_round_trip(v: DiscoveryRequestView)
    requires
        str_fits(v.version, 7),
    ensures
        spec_decode_discovery_request(spec_discovery_request_payload(v)) == Ok::<
            DiscoveryRequestView,
            DecodeError,
        >(v),
{
    let p = spec_discovery_request_payload(v);
    lemma_str_field_len(encode_utf8(v.version), 7, 8);
    vstd::bytes::lemma_auto_spec_u16_to_from_le_bytes();
    assert(p.len() == 10);
    assert(p.subrange(0, 2) =~= spec_u16_to_le_bytes(v.listen_port));
    assert(p.subrange(2, 10) =~= spec_str_field(encode_utf8(v.version), 7, 8));
    lemma_field_reads_back(v.version, 7, 8);
    assert(spec_decode_discovery_request(p).unwrap() =~= v);
}

/// A request for a game's icon, sent by the desktop.
#[derive(Debug, Clone, PartialEq, Eq)]
pub struct IconRequest {
    pub game_id: String,
}

/// The mathematical value of an [`IconRequest`].
#[verifier::ext_equal]
pub struct IconRequestView {
    pub game_id: Seq<char>,
}

impl View for IconRequest {
    type V = IconRequestView;

    open spec fn view(&self) -> IconRequestView {
        IconRequestView { game_id: self.game_id@ }
    }
}

/// The payload bytes an icon request encodes to: `game_id[10]`, the id cut
/// off at nine bytes so the field always ends in NUL.
pub open spec fn spec_icon_request_payload(v: IconRequestView) -> Seq<u8> {
    spec_str_field(encode_utf8(v.game_id), 9, 10)
}

/// Decoding an icon request: fails `TooShort` under 10 bytes.
pub open spec fn spec_decode_icon_request(p: Seq<u8>) -> Result<IconRequestView, DecodeError> {
    if p.len() < 10 {
        Err(DecodeError::TooShort)
    } else {
        Ok(IconRequestView { game_id: spec_read_string(p.subrange(0, 10)) })
    }
}

impl IconRequest {
    /// An icon request for the given game.
    pub fn new(game_id: &str) -> (r: IconRequest)
        ensures
            r.game_id@ == game_id@,
    {
        IconRequest { game_id: String::from_str(game_id) }
    }

    /// Decodes an icon-request payload.
    pub fn decode(data: &[u8]) -> (r: Result<IconRequest, DecodeError>)
        ensures
            match r {
                Ok(q) => spec_decode_icon_request(data@) == Ok::<IconRequestView, DecodeError>(q@),
                Err(e) => spec_decode_icon_request(data@) == Err::<IconRequestView, DecodeError>(e),
            },
    {
        if data.len() < 10 {
            return Err(DecodeError::TooShort);
        }
        let game_id = read_string(slice_subrange(data, 0, 10));
        Ok(IconRequest { game_id })
    }

    /// Encodes this icon request as a full packet, header included.
    pub fn encode(&self) -> (r: Vec<u8>)
        ensures
            r@ == spec_magic() + seq![spec_type_code(MessageType::IconRequest)]
                + spec_icon_request_payload(self@),
    {
        let mut buf = packet_header(MessageType::IconRequest);
        push_str_field(&mut buf, self.game_id.as_str(), 9, 10);
        proof {
            assert(buf@ =~= spec_magic() + seq![spec_type_code(MessageType::IconRequest)]
                + spec_icon_request_payload(self@));
        }
        buf
    }
}

/// An icon request whose game id fits nine bytes decodes back to itself.
pub proof fn lemma_icon_request_round_trip(v: IconRequestView)
    requires
        str_fits(v.game_id, 9),
    ensures
        spec_decode_icon_request(spec_icon_request_payload(v)) == Ok::<IconRequestView, DecodeError>(
            v,
        ),
{
    let p = spec_icon_request_payload(v);
    lemma_str_field_len(encode_utf8(v.game_id), 9, 10);
    assert(p.len() == 10);
    assert(p.subrange(0, 10) =~= spec_str_field(encode_utf8(v.game_id), 9, 10));
    lemma_field_reads_back(v.game_id, 9, 10);
    assert(spec_decode_icon_request(p).unwrap() =~= v);
}

/// Bytes of statistics data per chunk of a statistics response, kept small
/// enough for a datagram.
pub const STATS_CHUNK_SIZE: usize = 1024;

/// One fragment of a statistics response sent by the desktop, in the
/// legacy layout that leads with the game count and total playtime.
#[derive(Debug, Clone, PartialEq, Eq)]
pub struct StatsResponse {
    pub total_games: u16,
    pub total_playtime: u64,
    pub chunk_index: u16,
    pub total_chunks: u16,
    pub json_data: Vec<u8>,
}

/// The mathematical value of a [`StatsResponse`].
#[verifier::ext_equal]
pub struct StatsResponseView {
    pub total_games: u16,
    pub total_playtime: u64,
    pub chunk_index: u16,
    pub total_chunks: u16,
    pub json_data: Seq<u8>,
}

impl View for StatsResponse {
    type V = StatsResponseView;

    open spec fn view(&self) -> StatsResponseView {
        StatsResponseView {
            total_games: self.total_games,
            total_playtime: self.total_playtime,
            chunk_index: self.chunk_index,
            total_chunks: self.total_chunks,
            json_data: self.json_data@,
        }
    }
}

/// The payload bytes a response chunk encodes to: `total_games:u16 |
/// total_playtime:u64 | chunk_index:u16 | total_chunks:u16 | data_len:u16
/// | data[...]`.
pub open spec fn spec_stats_response_payload(v: StatsResponseView) -> Seq<u8> {
    spec_u16_to_le_bytes(v.total_games) + spec_u64_to_le_bytes(v.total_playtime)
        + spec_u16_to_le_bytes(v.chunk_index) + spec_u16_to_le_bytes(v.total_chunks)
        + spec_u16_to_le_bytes(v.json_data.len() as u16) + v.json_data
}

/// Decoding a response chunk: fails `TooShort` under 16 bytes or when the
/// declared data length runs past the buffer.
pub open spec fn spec_decode_stats_response(p: Seq<u8>) -> Result<StatsResponseView, DecodeError> {
    if p.len() < 16 {
        Err(DecodeError::TooShort)
    } else {
        let data_len = spec_u16_from_le_bytes(p.subrange(14, 16)) as int;
        if p.len() < 16 + data_len {
            Err(DecodeError::TooShort)
        } else {
            Ok(
                StatsResponseView {
                    total_games: spec_u16_from_le_bytes(p.subrange(0, 2)),
                    total_playtime: spec_u64_from_le_bytes(p.subrange(2, 10)),
                    chunk_index: spec_u16_from_le_bytes(p.subrange(10, 12)),
                    total_chunks: spec_u16_from_le_bytes(p.subrange(12, 14)),
                    json_data: p.subrange(16, 16 + data_len),
                },
            )
        }
    }
}

/// How many chunks a statistics payload of `n` bytes splits into: one for
/// an empty payload, else the count of full or partial chunks.
pub open spec fn spec_chunk_count(n: nat) -> nat {
    if n == 0 {
        1
    } else {
        ((n + (STATS_CHUNK_SIZE - 1) as nat) as int / (STATS_CHUNK_SIZE as int)) as nat
    }
}

/// The statistics bytes of a chunk sequence, joined in order.
pub open spec fn spec_concat_json(chunks: Seq<StatsResponse>) -> Seq<u8>
    decreases chunks.len(),
{
    if chunks.len() == 0 {
        Seq::empty()
    } else {
        chunks[0].json_data@ + spec_concat_json(chunks.drop_first())
    }
}

proof fn lemma_concat_json_push(s: Seq<StatsResponse>, x: StatsResponse)
    ensures
        spec_concat_json(s.push(x)) == spec_concat_json(s) + x.json_data@,
    decreases s.len(),
{
    if s.len() == 0 {
        assert(s.push(x).drop_first() =~= s);
        assert(spec_concat_json(s.push(x)) =~= spec_concat_json(s) + x.json_data@);
    } else {
        assert(s.push(x).drop_first() =~= s.drop_first().push(x));
        lemma_concat_json_push(s.drop_first(), x);
        assert(spec_concat_json(s.push(x)) =~= spec_concat_json(s) + x.json_data@);
    }
}

impl StatsResponse {
    /// Splits a statistics payload into wire chunks: every chunk carries
    /// the metadata, its index and the common count, chunks stay within
    /// [`STATS_CHUNK_SIZE`] bytes, and joined in order they give back the
    /// payload.  An empty payload still yields one (empty) chunk.
    pub fn new_chunks(json_data: &[u8], total_games: u16, total_playtime: u64) -> (r: Vec<
        StatsResponse,
    >)
        requires
            json_data@.len() <= 0xFFFF * STATS_CHUNK_SIZE,
        ensures
            r@.len() == spec_chunk_count(json_data@.len() as nat),
            forall|i: int|
                0 <= i < r@.len() ==> {
                    &&& (#[trigger] r@[i]).total_games == total_games
                    &&& r@[i].total_playtime == total_playtime
                    &&& r@[i].chunk_index == i as u16
                    &&& r@[i].total_chunks == r@.len() as u16
                    &&& r@[i].json_data@.len() <= STATS_CHUNK_SIZE
                },
            spec_concat_json(r@) == json_data@,
    {
        let n = json_data.len();
        let q = (n + (STATS_CHUNK_SIZE - 1)) / STATS_CHUNK_SIZE;
        let total: usize = if q == 0 {
            1
        } else {
            q
        };
        proof {
            vstd::arithmetic::div_mod::lemma_fundamental_div_mod(
                n as int + (STATS_CHUNK_SIZE - 1) as int,
                STATS_CHUNK_SIZE as int,
            );
            assert(total == spec_chunk_count(n as nat));
            assert(total <= 0xFFFF);
            assert(total * STATS_CHUNK_SIZE >= n);
        }
        let mut chunks: Vec<StatsResponse> = Vec::new();
        let mut i: usize = 0;
        let mut offset: usize = 0;
        while i < total
            invariant
                0 <= i <= total,
                total == spec_chunk_count(n as nat),
                total <= 0xFFFF,
                total * STATS_CHUNK_SIZE >= n,
                n == json_data@.len(),
                offset == if i * STATS_CHUNK_SIZE <= n {
                    i * STATS_CHUNK_SIZE
                } else {
                    n as int
                },
                chunks@.len() == i,
                forall|k: int|
                    0 <= k < i ==> {
                        &&& (#[trigger] chunks@[k]).total_games == total_games
                        &&& chunks@[k].total_playtime == total_playtime
                        &&& chunks@[k].chunk_index == k as u16
                        &&& chunks@[k].total_chunks == total as u16
                        &&& chunks@[k].json_data@.len() <= STATS_CHUNK_SIZE
                    },
                spec_concat_json(chunks@) == json_data@.take(offset as int),
            decreases total - i,
        {
            let end = if n >= STATS_CHUNK_SIZE && offset <= n - STATS_CHUNK_SIZE {
                offset + STATS_CHUNK_SIZE
            } else {
                n
            };
            let chunk_data = vstd::slice::slice_to_vec(slice_subrange(json_data, offset, end));
            let chunk = StatsResponse {
                total_games,
                total_playtime,
                chunk_index: i as u16,
                total_chunks: total as u16,
                json_data: chunk_data,
            };
            proof {
                lemma_concat_json_push(chunks@, chunk);
                assert(json_data@.take(offset as int) + json_data@.subrange(
                    offset as int,
                    end as int,
                ) =~= json_data@.take(end as int));
            }
            chunks.push(chunk);
            i += 1;
            offset = end;
        }
        proof {
            assert(json_data@.take(offset as int) =~= json_data@);
        }
        chunks
    }

    /// Decodes a statistics-response payload.
    pub fn decode(data: &[u8]) -> (r: Result<StatsResponse, DecodeError>)
        ensures
            match r {
                Ok(s) => spec_decode_stats_response(data@) == Ok::<StatsResponseView, DecodeError>(
                    s@,
                ),
                Err(e) => spec_decode_stats_response(data@) == Err::<StatsResponseView, DecodeError>(
                    e,
                ),
            },
    {
        if data.len() < 16 {
            return Err(DecodeError::TooShort);
        }
        let data_len = u16_from_le_bytes(slice_subrange(data, 14, 16)) as usize;
        if data.len() < 16 + data_len {
            return Err(DecodeError::TooShort);
        }
        let total_games = u16_from_le_bytes(slice_subrange(data, 0, 2));
        let total_playtime = u64_from_le_bytes(slice_subrange(data, 2, 10));
        let chunk_index = u16_from_le_bytes(slice_subrange(data, 10, 12));
        let total_chunks = u16_from_le_bytes(slice_subrange(data, 12, 14));
        let json_data = vstd::slice::slice_to_vec(slice_subrange(data, 16, 16 + data_len));
        Ok(StatsResponse { total_games, total_playtime, chunk_index, total_chunks, json_data })
    }

    /// Encodes this response chunk as a full packet, header included.
    pub fn encode(&self) -> (r: Vec<u8>)
        requires
            self.json_data@.len() <= u16::MAX,
        ensures
            r@ == spec_magic() + seq![spec_type_code(MessageType::StatsResponse)]
                + spec_stats_response_payload(self@),
    {
        let mut buf = packet_header(MessageType::StatsResponse);
        push_u16_le(&mut buf, self.total_games);
        push_u64_le(&mut buf, self.total_playtime);
        push_u16_le(&mut buf, self.chunk_index);
        push_u16_le(&mut buf, self.total_chunks);
        push_u16_le(&mut buf, self.json_data.len() as u16);
        push_bytes(&mut buf, self.json_data.as_slice());
        proof {
            assert(buf@ =~= spec_magic() + seq![spec_type_code(MessageType::StatsResponse)]
                + spec_stats_response_payload(self@));
        }
        buf
    }
}

/// A response chunk whose data length fits the wire field decodes back to
/// itself.
pub proof fn lemma_stats_response_round_trip(v: StatsResponseView)
    requires
        v.json_data.len() <= u16::MAX,
    ensures
        spec_decode_stats_response(spec_stats_response_payload(v)) == Ok::<
            StatsResponseView,
            DecodeError,
        >(v),
{
    let p = spec_stats_response_payload(v);
    vstd::bytes::lemma_auto_spec_u16_to_from_le_bytes();
    vstd::bytes::lemma_auto_spec_u64_to_from_le_bytes();
    assert(p.len() == 16 + v.json_data.len());
    assert(p.subrange(0, 2) =~= spec_u16_to_le_bytes(v.total_games));
    assert(p.subrange(2, 10) =~= spec_u64_to_le_bytes(v.total_playtime));
    assert(p.subrange(10, 12) =~= spec_u16_to_le_bytes(v.chunk_index));
    assert(p.subrange(12, 14) =~= spec_u16_to_le_bytes(v.total_chunks));
    assert(p.subrange(14, 16) =~= spec_u16_to_le_bytes(v.json_data.len() as u16));
    assert(p.subrange(16, 16 + v.json_data.len() as int) =~= v.json_data);
    assert(spec_decode_stats_response(p).unwrap() =~= v);
}

/// A plain acknowledgement packet: the header alone.
pub fn encode_ack() -> (r: Vec<u8>)
    ensures
        r@ == spec_magic() + seq![spec_type_code(MessageType::Ack)],
{
    packet_header(MessageType::Ack)
}

/// A statistics request packet: the header alone.
pub fn encode_stats_request() -> (r: Vec<u8>)
    ensures
        r@ == spec_magic() + seq![spec_type_code(MessageType::StatsRequest)],
{
    packet_header(MessageType::StatsRequest)
}

/// A fresh packet buffer holding the magic bytes and the given type code.
fn packet_header(t: MessageType) -> (r: Vec<u8>)
    ensures
        r@ == spec_magic() + seq![spec_type_code(t)],
{
    let mut buf: Vec<u8> = Vec::new();
    buf.push(0x50);
    buf.push(0x53);
    buf.push(0x50);
    buf.push(0x52);
    buf.push(t.code());
    proof {
        assert(buf@ =~= spec_magic() + seq![spec_type_code(t)]);
    }
    buf
}

/// Appends a `u16` in little-endian order.
pub(crate) fn push_u16_le(buf: &mut Vec<u8>, x: u16)
    ensures
        final(buf)@ == old(buf)@ + spec_u16_to_le_bytes(x),
{
    let mut bytes = vstd::bytes::u16_to_le_bytes(x);
    buf.append(&mut bytes);
}

/// Appends a `u32` in little-endian order.
pub(crate) fn push_u32_le(buf: &mut Vec<u8>, x: u32)
    ensures
        final(buf)@ == old(buf)@ + spec_u32_to_le_bytes(x),
{
    let mut bytes = vstd::bytes::u32_to_le_bytes(x);
    buf.append(&mut bytes);
}

/// Appends a `u64` in little-endian order.
pub(crate) fn push_u64_le(buf: &mut Vec<u8>, x: u64)
    ensures
        final(buf)@ == old(buf)@ + spec_u64_to_le_bytes(x),
{
    let mut bytes = vstd::bytes::u64_to_le_bytes(x);
    buf.append(&mut bytes);
}

/// Appends a fixed-width string field: the string's bytes cut off at
/// `copy` bytes, NUL-padded out to `width`.
pub(crate) fn push_str_field(buf: &mut Vec<u8>, s: &str, copy: usize, width: usize)
    requires
        copy <= width,
    ensures
        final(buf)@ == old(buf)@ + spec_str_field(s.spec_bytes(), copy as nat, width as nat),
{
    let bytes = s.as_bytes();
    let n = if bytes.len() <= copy {
        bytes.len()
    } else {
        copy
    };
    let ghost clipped = if s.spec_bytes().len() <= copy {
        s.spec_bytes()
    } else {
        s.spec_bytes().take(copy as int)
    };
    let mut i: usize = 0;
    while i < n
        invariant
            i <= n,
            n <= bytes@.len(),
            n <= width,
            bytes@ == s.spec_bytes(),
            clipped == (if s.spec_bytes().len() <= copy {
                s.spec_bytes()
            } else {
                s.spec_bytes().take(copy as int)
            }),
            n == clipped.len(),
            buf@ == old(buf)@ + clipped.take(i as int),
        decreases n - i,
    {
        buf.push(bytes[i]);
        proof {
            assert(old(buf)@ + clipped.take(i as int) + seq![clipped[i as int]] =~= old(buf)@
                + clipped.take(i + 1));
        }
        i += 1;
    }
    proof {
        assert(clipped.take(n as int) =~= clipped);
    }
    let mut j: usize = n;
    while j < width
        invariant
            n <= j <= width,
            n == clipped.len(),
            buf@ == old(buf)@ + clipped + zeros((j - n) as nat),
        decreases width - j,
    {
        buf.push(0);
        proof {
            assert(old(buf)@ + clipped + zeros((j - n) as nat) + seq![0u8] =~= old(buf)@ + clipped
                + zeros((j + 1 - n) as nat));
        }
        j += 1;
    }
    proof {
        assert(old(buf)@ + clipped + zeros((width - n) as nat) =~= old(buf)@ + spec_str_field(
            s.spec_bytes(),
            copy as nat,
            width as nat,
        ));
    }
}

/// Appends every byte of `data`.
pub(crate) fn push_bytes(buf: &mut Vec<u8>, data: &[u8])
    ensures
        final(buf)@ == old(buf)@ + data@,
{
    let mut i: usize = 0;
    while i < data.len()
        invariant
            i <= data@.len(),
            buf@ == old(buf)@ + data@.take(i as int),
        decreases data@.len() - i,
    {
        buf.push(data[i]);
        proof {
            assert(old(buf)@ + data@.take(i as int) + seq![data@[i as int]] =~= old(buf)@
                + data@.take(i + 1));
        }
        i += 1;
    }
    proof {
        assert(data@.take(data@.len() as int) =~= data@);
    }
}

} // verus!

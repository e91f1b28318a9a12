//! Wire codec for the USB bulk-endpoint transport.
//!
//! Packets open with an eight-byte header: a four-byte magic, the packet
//! type, a reserved byte and a length field.  Icon chunks address a
//! pre-allocated buffer by byte offset rather than by chunk index; the
//! [`IconAssembler`] replays that accumulation.  Framing mirrors the
//! datagram codec but with its own magic and layouts.

use vstd::prelude::*;

verus! {

use vstd::slice::slice_subrange;
use vstd::bytes::{spec_u16_to_le_bytes, spec_u16_from_le_bytes, u16_from_le_bytes};
use vstd::bytes::{spec_u32_to_le_bytes, spec_u32_from_le_bytes, u32_from_le_bytes};
use vstd::bytes::{spec_u64_to_le_bytes, spec_u64_from_le_bytes, u64_from_le_bytes};
use vstd::string::StringSliceAdditionalSpecFns;
use crate::codec::{read_string, spec_read_string, spec_str_field, zeros, lemma_str_field_len};
use crate::strutil::{utf8_or_lossy, lossy_string};

/// The four magic bytes that open every USB packet, the little-endian
/// rendering of the transport's 32-bit tag.
pub open spec fn spec_usb_magic() -> Seq<u8> {
    seq![0x44u8, 0x50u8, 0x53u8, 0x50u8]
}

/// Packet types of the USB protocol.
#[derive(Debug, Clone, Copy, PartialEq, Eq, Structural)]
pub enum PacketType {
    Heartbeat,
    GameInfo,
    Icon,
    StatsRequest,
    StatsUpload,
    Ack,
    IconRequest,
    StatsResponse,
}

/// The wire code of each USB packet type.
pub open spec fn spec_usb_type_code(t: PacketType) -> u8 {
    match t {
        PacketType::Heartbeat => 0x01,
        PacketType::GameInfo => 0x02,
        PacketType::Icon => 0x03,
        PacketType::StatsRequest => 0x05,
        PacketType::StatsUpload => 0x06,
        PacketType::Ack => 0x10,
        PacketType::IconRequest => 0x11,
        PacketType::StatsResponse => 0x12,
    }
}

impl PacketType {
    /// The byte that stands for this packet type on the wire.
    pub fn code(self) -> (r: u8)
        ensures
            r == spec_usb_type_code(self),
    {
        match self {
            PacketType::Heartbeat => 0x01,
            PacketType::GameInfo => 0x02,
            PacketType::Icon => 0x03,
            PacketType::StatsRequest => 0x05,
            PacketType::StatsUpload => 0x06,
            PacketType::Ack => 0x10,
            PacketType::IconRequest => 0x11,
            PacketType::StatsResponse => 0x12,
        }
    }
}

/// Game information as the USB transport frames it.
#[derive(Debug, Clone, PartialEq, Eq)]
pub struct GameInfoPacket {
    pub game_id: String,
    pub title: String,
    pub state: u8,
    pub has_icon: bool,
    pub start_time: u64,
    pub persistent: bool,
    pub psp_name: String,
}

/// The mathematical value of a [`GameInfoPacket`].
#[verifier::ext_equal]
pub struct GameInfoPacketView {
    pub game_id: Seq<char>,
    pub title: Seq<char>,
    pub state: u8,
    pub has_icon: bool,
    pub start_time: u64,
    pub persistent: bool,
    pub psp_name: Seq<char>,
}

impl View for GameInfoPacket {
    type V = GameInfoPacketView;

    open spec fn view(&self) -> GameInfoPacketView {
        GameInfoPacketView {
            game_id: self.game_id@,
            title: self.title@,
            state: self.state,
            has_icon: self.has_icon,
            start_time: self.start_time,
            persistent: self.persistent,
            psp_name: self.psp_name@,
        }
    }
}

/// One icon fragment as the USB transport frames it: addressed by byte
/// offset into a buffer of the declared total size.
#[derive(Debug, Clone, PartialEq, Eq)]
pub struct IconChunk {
    pub game_id: String,
    pub total_size: usize,
    pub chunk_offset: usize,
    pub chunk_data: Vec<u8>,
    pub chunk_num: u8,
    pub total_chunks: u8,
}

/// The mathematical value of a USB [`IconChunk`].
#[verifier::ext_equal]
pub struct UsbIconChunkView {
    pub game_id: Seq<char>,
    pub total_size: int,
    pub chunk_offset: int,
    pub chunk_data: Seq<u8>,
    pub chunk_num: u8,
    pub total_chunks: u8,
}

impl View for IconChunk {
    type V = UsbIconChunkView;

    open spec fn view(&self) -> UsbIconChunkView {
        UsbIconChunkView {
            game_id: self.game_id@,
            total_size: self.total_size as int,
            chunk_offset: self.chunk_offset as int,
            chunk_data: self.chunk_data@,
            chunk_num: self.chunk_num,
            total_chunks: self.total_chunks,
        }
    }
}

/// An event the USB transport reports to the application.
#[derive(Debug, PartialEq)]
pub enum UsbEvent {
    /// The device attached.
    Connected,
    /// The device detached or the link failed.
    Disconnected,
    /// A game update arrived.
    GameInfo(GameInfoPacket),
    /// An icon arrived whole.
    IconData { game_id: String, data: Vec<u8> },
    /// The device asked for the desktop's statistics.
    StatsRequested { psp_name: String, local_timestamp: u64 },
    /// A single-chunk statistics upload arrived whole.
    StatsUploaded { last_updated: u64, json_data: String },
    /// Something went wrong on the link.
    Error(String),
}

/// A command the application sends to the USB transport.
#[derive(Debug, Clone, PartialEq, Eq)]
pub enum UsbCommand {
    /// Ask the device for a game's icon.
    RequestIcon { game_id: String },
    /// Push the desktop's statistics to the device.
    SendStatsResponse { last_updated: u64, json_data: String },
}

/// Whether the bytes carry a valid USB header with the given type code.
pub open spec fn usb_header_ok(d: Seq<u8>, code: u8) -> bool {
    d.len() >= 8 && d.take(4) == spec_usb_magic() && d[4] == code
}

/// Whether the bytes parse as a game update.
pub open spec fn usb_game_ok(d: Seq<u8>) -> bool {
    usb_header_ok(d, 0x02) && d.len() >= 128
}

/// The game update the bytes carry: `game_id[10] | title[64] | state:u8 |
/// has_icon:u8 | start_time:u32 | persistent:u8 | psp_name[32]` after the
/// header.
pub open spec fn spec_usb_game(d: Seq<u8>) -> GameInfoPacketView {
    GameInfoPacketView {
        game_id: spec_read_string(d.subrange(8, 18)),
        title: spec_read_string(d.subrange(18, 82)),
        state: d[82],
        has_icon: d[83] != 0,
        start_time: spec_u32_from_le_bytes(d.subrange(84, 88)) as u64,
        persistent: d[88] != 0,
        psp_name: spec_read_string(d.subrange(89, 121)),
    }
}

/// The declared data length of an icon-chunk packet.
pub open spec fn usb_icon_size(d: Seq<u8>) -> int {
    spec_u16_from_le_bytes(d.subrange(22, 24)) as int
}

/// Whether the bytes parse as an icon chunk.
pub open spec fn usb_icon_ok(d: Seq<u8>) -> bool {
    usb_header_ok(d, 0x03) && d.len() >= 26 && d.len() >= 26 + usb_icon_size(d)
}

/// The icon chunk the bytes carry: `game_id[10] | total_size:u16 |
/// chunk_offset:u16 | chunk_size:u16 | chunk_num:u8 | total_chunks:u8 |
/// data[...]` after the header.
pub open spec fn spec_usb_icon(d: Seq<u8>) -> UsbIconChunkView {
    UsbIconChunkView {
        game_id: spec_read_string(d.subrange(8, 18)),
        total_size: spec_u16_from_le_bytes(d.subrange(18, 20)) as int,
        chunk_offset: spec_u16_from_le_bytes(d.subrange(20, 22)) as int,
        chunk_data: d.subrange(26, 26 + usb_icon_size(d)),
        chunk_num: d[24],
        total_chunks: d[25],
    }
}

/// Whether the bytes parse as a statistics request.
pub open spec fn usb_statsreq_ok(d: Seq<u8>) -> bool {
    usb_header_ok(d, 0x05) && d.len() >= 16
}

/// The timestamp a statistics request carries.
pub open spec fn spec_usb_statsreq_timestamp(d: Seq<u8>) -> u64 {
    spec_u64_from_le_bytes(d.subrange(8, 16))
}

/// The declared data length of a statistics-upload packet.
pub open spec fn usb_statsup_len(d: Seq<u8>) -> int {
    spec_u16_from_le_bytes(d.subrange(20, 22)) as int
}

/// Whether the bytes parse as a whole single-chunk statistics upload:
/// `last_updated:u64 | chunk_index:u16 | total_chunks:u16 | data_len:u16 |
/// data[...]` after the header, with a declared total of one chunk.
pub open spec fn usb_statsup_single_ok(d: Seq<u8>) -> bool {
    &&& usb_header_ok(d, 0x06)
    &&& d.len() >= 24
    &&& spec_u16_from_le_bytes(d.subrange(18, 20)) == 1
    &&& d.len() >= 22 + usb_statsup_len(d)
}

/// The timestamp a statistics upload carries.
pub open spec fn spec_usb_statsup_timestamp(d: Seq<u8>) -> u64 {
    spec_u64_from_le_bytes(d.subrange(8, 16))
}

/// The statistics bytes a single-chunk upload carries.
pub open spec fn spec_usb_statsup_data(d: Seq<u8>) -> Seq<u8> {
    d.subrange(22, 22 + usb_statsup_len(d))
}

/// Whether the bytes parse as a whole single-chunk icon: a multi-chunk
/// icon goes through the [`IconAssembler`] instead.
pub open spec fn usb_icon_single_ok(d: Seq<u8>) -> bool {
    usb_icon_ok(d) && spec_usb_icon(d).total_chunks == 1
}

/// Parses one USB packet into the event it reports, if any.  Heartbeats,
/// multi-chunk icons and multi-chunk uploads yield no event here; a
/// malformed packet is dropped silently.
pub fn parse_packet(data: &[u8]) -> (r: Option<UsbEvent>)
    ensures
        r is Some <==> usb_game_ok(data@) || usb_icon_single_ok(data@) || usb_statsreq_ok(data@)
            || usb_statsup_single_ok(data@),
        usb_game_ok(data@) ==> (r matches Some(UsbEvent::GameInfo(g)) && g@ == spec_usb_game(
            data@,
        )),
        usb_icon_single_ok(data@) ==> (r matches Some(UsbEvent::IconData { game_id, data: d })
            && game_id@ == spec_usb_icon(data@).game_id && d@ == spec_usb_icon(data@).chunk_data),
        usb_statsreq_ok(data@) ==> (r matches Some(UsbEvent::StatsRequested {
            psp_name,
            local_timestamp,
        }) && psp_name@.len() == 0 && local_timestamp == spec_usb_statsreq_timestamp(data@)),
        usb_statsup_single_ok(data@) ==> (r matches Some(UsbEvent::StatsUploaded {
            last_updated,
            json_data,
        }) && last_updated == spec_usb_statsup_timestamp(data@) && json_data@ == utf8_or_lossy(
            spec_usb_statsup_data(data@),
        )),
{
    if data.len() < 8 {
        return None;
    }
    if data[0] != 0x44 || data[1] != 0x50 || data[2] != 0x53 || data[3] != 0x50 {
        proof {
            assert(data@.take(4) != spec_usb_magic());
        }
        return None;
    }
    proof {
        assert(data@.take(4) =~= spec_usb_magic());
    }
    let packet_type = data[4];
    if packet_type == 0x02 {
        if data.len() < 128 {
            return None;
        }
        let game_id = read_string(slice_subrange(data, 8, 18));
        let title = read_string(slice_subrange(data, 18, 82));
        let state = data[82];
        let has_icon = data[83] != 0;
        let start_time = u32_from_le_bytes(slice_subrange(data, 84, 88)) as u64;
        let persistent = data[88] != 0;
        let psp_name = read_string(slice_subrange(data, 89, 121));
        Some(
            UsbEvent::GameInfo(
                GameInfoPacket {
                    game_id,
                    title,
                    state,
                    has_icon,
                    start_time,
                    persistent,
                    psp_name,
                },
            ),
        )
    } else if packet_type == 0x03 {
        if data.len() < 26 {
            return None;
        }
        let chunk_size = u16_from_le_bytes(slice_subrange(data, 22, 24)) as usize;
        if data.len() < 26 + chunk_size {
            return None;
        }
        let total_chunks = data[25];
        if total_chunks == 1 {
            let game_id = read_string(slice_subrange(data, 8, 18));
            let chunk_data = vstd::slice::slice_to_vec(
                slice_subrange(data, 26, 26 + chunk_size),
            );
            Some(UsbEvent::IconData { game_id, data: chunk_data })
        } else {
            None
        }
    } else if packet_type == 0x05 {
        if data.len() < 16 {
            return None;
        }
        let local_timestamp = u64_from_le_bytes(slice_subrange(data, 8, 16));
        Some(UsbEvent::StatsRequested { psp_name: String::new(), local_timestamp })
    } else if packet_type == 0x06 {
        if data.len() < 24 {
            return None;
        }
        let total_chunks = u16_from_le_bytes(slice_subrange(data, 18, 20));
        let data_length = u16_from_le_bytes(slice_subrange(data, 20, 22)) as usize;
        if total_chunks == 1 && data.len() >= 22 + data_length {
            let last_updated = u64_from_le_bytes(slice_subrange(data, 8, 16));
            let json_data = lossy_string(slice_subrange(data, 22, 22 + data_length));
            Some(UsbEvent::StatsUploaded { last_updated, json_data })
        } else {
            None
        }
    } else {
        None
    }
}

/// Parses the bytes as an icon chunk, whole or partial, for accumulation.
pub fn try_parse_icon_chunk(data: &[u8]) -> (r: Option<IconChunk>)
    ensures
        r is Some <==> usb_icon_ok(data@),
        r matches Some(c) ==> c@ == spec_usb_icon(data@),
{
    if data.len() < 26 {
        return None;
    }
    if data[0] != 0x44 || data[1] != 0x50 || data[2] != 0x53 || data[3] != 0x50 {
        proof {
            assert(data@.take(4) != spec_usb_magic());
        }
        return None;
    }
    proof {
        assert(data@.take(4) =~= spec_usb_magic());
    }
    if data[4] != 0x03 {
        return None;
    }
    let chunk_size = u16_from_le_bytes(slice_subrange(data, 22, 24)) as usize;
    if data.len() < 26 + chunk_size {
        return None;
    }
    let game_id = read_string(slice_subrange(data, 8, 18));
    let total_size = u16_from_le_bytes(slice_subrange(data, 18, 20)) as usize;
    let chunk_offset = u16_from_le_bytes(slice_subrange(data, 20, 22)) as usize;
    let chunk_num = data[24];
    let total_chunks = data[25];
    let chunk_data = vstd::slice::slice_to_vec(slice_subrange(data, 26, 26 + chunk_size));
    Some(IconChunk { game_id, total_size, chunk_offset, chunk_data, chunk_num, total_chunks })
}

/// A USB packet header: the magic, the type code, and three reserved or
/// length bytes.
pub open spec fn spec_usb_header(t: PacketType, length: u16) -> Seq<u8> {
    spec_usb_magic() + seq![spec_usb_type_code(t)] + seq![0u8] + spec_u16_to_le_bytes(length)
}

fn usb_header(t: PacketType, length: u16) -> (r: Vec<u8>)
    ensures
        r@ == spec_usb_header(t, length),
{
    let mut buf: Vec<u8> = Vec::new();
    buf.push(0x44);
    buf.push(0x50);
    buf.push(0x53);
    buf.push(0x50);
    buf.push(t.code());
    buf.push(0);
    let mut len_bytes = vstd::bytes::u16_to_le_bytes(length);
    buf.append(&mut len_bytes);
    proof {
        assert(buf@ =~= spec_usb_header(t, length));
    }
    buf
}

/// The acknowledgement packet the desktop answers every USB packet with.
pub fn encode_ack() -> (r: Vec<u8>)
    ensures
        r@ == spec_usb_header(PacketType::Ack, 0),
{
    usb_header(PacketType::Ack, 0)
}

/// The bytes an icon request encodes to: the header, the game id in a
/// ten-byte NUL-padded field, and six bytes of padding.
pub open spec fn spec_usb_icon_request(game_id: Seq<u8>) -> Seq<u8> {
    spec_usb_header(PacketType::IconRequest, 0) + spec_str_field(game_id, 10, 10) + zeros(6)
}

/// An icon request for the given game, as a 24-byte packet.
pub fn encode_icon_request(game_id: &str) -> (r: Vec<u8>)
    ensures
        r@ == spec_usb_icon_request(game_id.spec_bytes()),
        r@.len() == 24,
{
    let mut buf = usb_header(PacketType::IconRequest, 0);
    crate::codec::push_str_field(&mut buf, game_id, 10, 10);
    buf.push(0);
    buf.push(0);
    buf.push(0);
    buf.push(0);
    buf.push(0);
    buf.push(0);
    proof {
        lemma_str_field_len(game_id.spec_bytes(), 10, 10);
        vstd::bytes::lemma_auto_spec_u16_to_from_le_bytes();
        assert(buf@ =~= spec_usb_icon_request(game_id.spec_bytes()));
    }
    buf
}

/// Bytes of statistics data per chunk of a USB statistics response, kept
/// within the transport's frame size.
pub const USB_STATS_CHUNK_SIZE: usize = 480;

/// The fixed size of every USB statistics-response packet.
pub const USB_STATS_PACKET_SIZE: usize = 512;

/// How many packets a statistics payload of `n` bytes splits into on the
/// USB transport; an empty payload sends nothing.
pub open spec fn spec_usb_chunk_count(n: nat) -> nat {
    (((n + (USB_STATS_CHUNK_SIZE - 1) as nat) as int) / (USB_STATS_CHUNK_SIZE as int)) as nat
}

/// The window of the payload the `i`-th packet carries.
pub open spec fn spec_usb_chunk_data(d: Seq<u8>, i: int) -> Seq<u8> {
    if (i + 1) * (USB_STATS_CHUNK_SIZE as int) <= d.len() {
        d.subrange(i * (USB_STATS_CHUNK_SIZE as int), (i + 1) * (USB_STATS_CHUNK_SIZE as int))
    } else {
        d.subrange(i * (USB_STATS_CHUNK_SIZE as int), d.len() as int)
    }
}

/// The bytes one statistics-response packet encodes to: the header, then
/// `last_updated:u64 | total_bytes:u32 | chunk_index:u16 | total_chunks:u16
/// | data_len:u16 | data[...]`, zero-padded out to the fixed packet size.
pub open spec fn spec_usb_stats_packet(
    last_updated: u64,
    total_bytes: u32,
    index: u16,
    total: u16,
    chunk: Seq<u8>,
) -> Seq<u8> {
    spec_usb_header(PacketType::StatsResponse, 504) + spec_u64_to_le_bytes(last_updated)
        + spec_u32_to_le_bytes(total_bytes) + spec_u16_to_le_bytes(index) + spec_u16_to_le_bytes(
        total,
    ) + spec_u16_to_le_bytes(chunk.len() as u16) + chunk + zeros((486 - chunk.len()) as nat)
}

/// One statistics-response packet.
fn usb_stats_packet(last_updated: u64, total_bytes: u32, index: u16, total: u16, chunk: &[u8]) -> (r:
    Vec<u8>)
    requires
        chunk@.len() <= USB_STATS_CHUNK_SIZE,
    ensures
        r@ == spec_usb_stats_packet(last_updated, total_bytes, index, total, chunk@),
        r@.len() == USB_STATS_PACKET_SIZE,
{
    let mut buf = usb_header(PacketType::StatsResponse, 504);
    crate::codec::push_u64_le(&mut buf, last_updated);
    crate::codec::push_u32_le(&mut buf, total_bytes);
    crate::codec::push_u16_le(&mut buf, index);
    crate::codec::push_u16_le(&mut buf, total);
    crate::codec::push_u16_le(&mut buf, chunk.len() as u16);
    crate::codec::push_bytes(&mut buf, chunk);
    let pad = 486 - chunk.len();
    let ghost before = buf@;
    let mut k: usize = 0;
    while k < pad
        invariant
            k <= pad,
            buf@ == before + zeros(k as nat),
        decreases pad - k,
    {
        buf.push(0);
        proof {
            assert(before + zeros(k as nat) + seq![0u8] =~= before + zeros((k + 1) as nat));
        }
        k += 1;
    }
    proof {
        vstd::bytes::lemma_auto_spec_u16_to_from_le_bytes();
        vstd::bytes::lemma_auto_spec_u32_to_from_le_bytes();
        vstd::bytes::lemma_auto_spec_u64_to_from_le_bytes();
        assert(buf@ =~= spec_usb_stats_packet(last_updated, total_bytes, index, total, chunk@));
    }
    buf
}

/// Splits a statistics payload into the fixed-size packets the USB
/// transport sends, ACK-gated, one after another: every packet carries the
/// timestamp, the payload's total size, its own index and the common
/// count, and the `i`-th window of the payload.  An empty payload yields
/// no packets.
pub fn encode_stats_response_chunks(last_updated: u64, json_data: &[u8]) -> (r: Vec<Vec<u8>>)
    requires
        json_data@.len() <= 0xFFFF * USB_STATS_CHUNK_SIZE,
    ensures
        r@.len() == spec_usb_chunk_count(json_data@.len() as nat),
        forall|i: int|
            0 <= i < r@.len() ==> (#[trigger] r@[i])@ == spec_usb_stats_packet(
                last_updated,
                json_data@.len() as u32,
                i as u16,
                r@.len() as u16,
                spec_usb_chunk_data(json_data@, i),
            ),
{
    let n = json_data.len();
    let total = (n + (USB_STATS_CHUNK_SIZE - 1)) / USB_STATS_CHUNK_SIZE;
    proof {
        vstd::arithmetic::div_mod::lemma_fundamental_div_mod(
            n as int + (USB_STATS_CHUNK_SIZE - 1) as int,
            USB_STATS_CHUNK_SIZE as int,
        );
        assert(total == spec_usb_chunk_count(n as nat));
        assert(total <= 0xFFFF);
        assert(total * USB_STATS_CHUNK_SIZE >= n);
        assert(n > 0 ==> (total - 1) * USB_STATS_CHUNK_SIZE < n);
    }
    let mut packets: Vec<Vec<u8>> = Vec::new();
    let mut i: usize = 0;
    while i < total
        invariant
            0 <= i <= total,
            n == json_data@.len(),
            total == spec_usb_chunk_count(n as nat),
            total <= 0xFFFF,
            total * USB_STATS_CHUNK_SIZE >= n,
            i < total ==> i * USB_STATS_CHUNK_SIZE < n,
            packets@.len() == i,
            forall|k: int|
                0 <= k < i ==> (#[trigger] packets@[k])@ == spec_usb_stats_packet(
                    last_updated,
                    n as u32,
                    k as u16,
                    total as u16,
                    spec_usb_chunk_data(json_data@, k),
                ),
        decreases total - i,
    {
        let offset = i * USB_STATS_CHUNK_SIZE;
        proof {
            vstd::arithmetic::div_mod::lemma_fundamental_div_mod(
                n as int + (USB_STATS_CHUNK_SIZE - 1) as int,
                USB_STATS_CHUNK_SIZE as int,
            );
            assert(offset < n);
        }
        let end = if n - offset >= USB_STATS_CHUNK_SIZE {
            offset + USB_STATS_CHUNK_SIZE
        } else {
            n
        };
        let chunk = slice_subrange(json_data, offset, end);
        proof {
            assert(chunk@ =~= spec_usb_chunk_data(json_data@, i as int));
        }
        let packet = usb_stats_packet(last_updated, n as u32, i as u16, total as u16, chunk);
        packets.push(packet);
        i += 1;
        proof {
            if i < total {
                vstd::arithmetic::div_mod::lemma_fundamental_div_mod(
                    n as int + (USB_STATS_CHUNK_SIZE - 1) as int,
                    USB_STATS_CHUNK_SIZE as int,
                );
                assert(i * USB_STATS_CHUNK_SIZE < n);
            }
        }
    }
    packets
}

/// One icon being accumulated from offset-addressed chunks.
pub struct IconBuild {
    /// The game the icon belongs to.
    pub game_id: String,
    /// How many chunks landed so far; saturates rather than wraps.
    pub received: u16,
    /// How many chunks the first chunk declared.
    pub total_chunks: u8,
    /// The icon bytes, pre-allocated at the declared total size.
    pub data: Vec<u8>,
}

/// The buffer bytes after one offset-addressed chunk lands; a chunk that
/// would run past the buffer is dropped.
pub open spec fn usb_written(base: Seq<u8>, offset: int, chunk: Seq<u8>) -> Seq<u8> {
    if offset + chunk.len() <= base.len() {
        base.take(offset) + chunk + base.skip(offset + chunk.len())
    } else {
        base
    }
}

/// Whether an offset-addressed chunk fits its buffer.
pub open spec fn usb_chunk_fits(base: Seq<u8>, offset: int, chunk: Seq<u8>) -> bool {
    offset + chunk.len() <= base.len()
}

/// Overwrites `data[offset .. offset + src.len()]` with `src`.
fn write_at(data: &mut Vec<u8>, offset: usize, src: &[u8])
    requires
        offset + src@.len() <= old(data)@.len(),
    ensures
        final(data)@ == usb_written(old(data)@, offset as int, src@),
{
    let cap = data.len();
    let mut k: usize = 0;
    while k < src.len()
        invariant
            k <= src@.len(),
            offset + src@.len() <= cap,
            cap == data@.len(),
            data@.len() == old(data)@.len(),
            forall|i: int| 0 <= i < offset ==> data@[i] == old(data)@[i],
            forall|i: int| offset <= i < offset + k ==> data@[i] == src@[i - offset],
            forall|i: int| offset + k <= i < data@.len() ==> data@[i] == old(data)@[i],
        decreases src@.len() - k,
    {
        data[offset + k] = src[k];
        k += 1;
    }
    proof {
        assert(data@ =~= usb_written(old(data)@, offset as int, src@));
    }
}

/// Accumulates offset-addressed icon chunks per game, releasing the buffer
/// once the declared chunk count has landed.
pub struct IconAssembler {
    /// The icons in flight, one per game id.
    pub builds: Vec<IconBuild>,
}

impl IconAssembler {
    /// The assembler's invariant: builds are keyed uniquely.
    pub open spec fn wf(self) -> bool {
        forall|i: int, j: int|
            0 <= i < j < self.builds@.len() ==> self.builds@[i].game_id@ != self.builds@[j].game_id@
    }

    /// Whether an icon for this game is being accumulated.
    pub open spec fn has_build(self, key: Seq<char>) -> bool {
        exists|i: int| 0 <= i < self.builds@.len() && self.builds@[i].game_id@ == key
    }

    /// The position of the build for this game.
    pub open spec fn build_index(self, key: Seq<char>) -> int {
        choose|i: int| 0 <= i < self.builds@.len() && self.builds@[i].game_id@ == key
    }

    /// The build for this game.
    pub open spec fn build_of(self, key: Seq<char>) -> IconBuild {
        self.builds@[self.build_index(key)]
    }

    /// A fresh assembler with nothing in flight.
    pub fn new() -> (r: IconAssembler)
        ensures
            r.wf(),
            r.builds@.len() == 0,
    {
        IconAssembler { builds: Vec::new() }
    }

    /// Stores one offset-addressed chunk, opening a buffer of the chunk's
    /// declared total size if none is in flight for its game.  Returns the
    /// game id and the whole buffer once the declared chunk count has
    /// landed; a chunk that would run past its buffer is dropped without
    /// raising the count.
    pub fn insert_chunk(&mut self, chunk: &IconChunk) -> (r: Option<(String, Vec<u8>)>)
        requires
            old(self).wf(),
        ensures
            final(self).wf(),
            ({
                let key = chunk.game_id@;
                let existed = old(self).has_build(key);
                let base: Seq<u8> = if existed {
                    old(self).build_of(key).data@
                } else {
                    zeros(chunk.total_size as nat)
                };
                let base_received: u16 = if existed {
                    old(self).build_of(key).received
                } else {
                    0
                };
                let total: u8 = if existed {
                    old(self).build_of(key).total_chunks
                } else {
                    chunk.total_chunks
                };
                let fits = usb_chunk_fits(base, chunk.chunk_offset as int, chunk.chunk_data@);
                let new_data = usb_written(base, chunk.chunk_offset as int, chunk.chunk_data@);
                let new_received: u16 = if fits && base_received < 0xFFFF {
                    (base_received + 1) as u16
                } else {
                    base_received
                };
                let done = fits && new_received >= total as u16;
                &&& if done {
                    &&& r matches Some((g, d)) && g@ == key && d@ == new_data
                    &&& !final(self).has_build(key)
                    &&& if existed {
                        final(self).builds@ == old(self).builds@.remove(
                            old(self).build_index(key),
                        )
                    } else {
                        final(self).builds@ == old(self).builds@
                    }
                } else {
                    &&& r is None
                    &&& final(self).has_build(key)
                    &&& ({
                        let b = final(self).build_of(key);
                        b.game_id@ == key && b.data@ == new_data && b.received == new_received
                            && b.total_chunks == total
                    })
                    &&& if existed {
                        &&& final(self).builds@.len() == old(self).builds@.len()
                        &&& final(self).build_index(key) == old(self).build_index(key)
                        &&& forall|k: int|
                            0 <= k < old(self).builds@.len() && k != old(self).build_index(key)
                                ==> final(self).builds@[k] == old(self).builds@[k]
                    } else {
                        &&& final(self).builds@.len() == old(self).builds@.len() + 1
                        &&& forall|k: int|
                            0 <= k < old(self).builds@.len() ==> final(self).builds@[k] == old(
                                self,
                            ).builds@[k]
                        &&& final(self).build_index(key) == old(self).builds@.len()
                    }
                }
            }),
    {
        let ghost key = chunk.game_id@;
        let mut j: usize = 0;
        let mut found: Option<usize> = None;
        while j < self.builds.len()
            invariant
                0 <= j <= self.builds@.len(),
                key == chunk.game_id@,
                match found {
                    Some(k) => k < j && self.builds@[k as int].game_id@ == key,
                    None => forall|i: int| 0 <= i < j ==> self.builds@[i].game_id@ != key,
                },
            decreases self.builds@.len() - j,
        {
            if found.is_none() && self.builds[j].game_id == chunk.game_id {
                found = Some(j);
            }
            j += 1;
        }
        let (mut build, at) = match found {
            Some(i) => {
                proof {
                    assert(old(self).has_build(key));
                    assert(old(self).build_index(key) == i as int);
                }
                (self.builds.remove(i), i)
            },
            None => {
                proof {
                    assert(!old(self).has_build(key));
                }
                let mut data: Vec<u8> = Vec::new();
                let mut z: usize = 0;
                while z < chunk.total_size
                    invariant
                        z <= chunk.total_size,
                        data@ =~= zeros(z as nat),
                    decreases chunk.total_size - z,
                {
                    data.push(0);
                    proof {
                        assert(data@ =~= zeros((z + 1) as nat));
                    }
                    z += 1;
                }
                let b = IconBuild {
                    game_id: chunk.game_id.clone(),
                    received: 0,
                    total_chunks: chunk.total_chunks,
                    data,
                };
                (b, self.builds.len())
            },
        };
        if chunk.chunk_data.len() <= build.data.len() && chunk.chunk_offset <= build.data.len()
            - chunk.chunk_data.len() {
            write_at(&mut build.data, chunk.chunk_offset, chunk.chunk_data.as_slice());
            if build.received < 0xFFFF {
                build.received = build.received + 1;
            }
        }
        if build.received >= build.total_chunks as u16 && chunk.chunk_data.len() <= build.data.len()
            && chunk.chunk_offset <= build.data.len() - chunk.chunk_data.len() {
            let game_id = build.game_id;
            let data = build.data;
            Some((game_id, data))
        } else {
            self.builds.insert(at, build);
            proof {
                if old(self).has_build(key) {
                    assert(forall|k: int|
                        0 <= k < old(self).builds@.len() && k != at as int ==> self.builds@[k]
                            == old(self).builds@[k]);
                }
                assert(self.builds@[at as int].game_id@ == key);
                assert(self.has_build(key));
                assert(self.build_index(key) == at as int);
            }
            None
        }
    }
}

} // verus!

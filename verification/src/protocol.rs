//! The framed datagram format of the sonar stream.
//!
//! A frame is `STX, type, size: u32 LE, payload..., checksum: u16 LE, ETX`,
//! `8 + size` bytes in all. Floating-point fields are carried as their raw
//! IEEE-754 bit patterns (`f64::from_bits` / `f32::from_bits` give the value).
use crate::bytes::{le_u16, le_u32, le_u64, read_u16_at, read_u32_at, read_u64_at};
use vstd::prelude::*;
use vstd::slice::slice_subrange;

verus! {

pub const STX: u8 = 0x02;

pub const ETX: u8 = 0x03;

pub const MSG_RUNTIME: u8 = 0x01;

pub const MSG_SVP: u8 = 0x0A;

pub const MSG_DEPTH: u8 = 0x12;

pub const MSG_CLOCK: u8 = 0x13;

pub const MSG_HEAD: u8 = 0x14;

pub const MSG_RANGE: u8 = 0x15;

pub const MSG_SEABED_IMAGE: u8 = 0x16;

pub const MSG_QUALITY_FACTOR: u8 = 0x17;

pub const MSG_INSTALLATION_PARAM: u8 = 0x18;

pub const MSG_EXTRA_PARAM: u8 = 0x19;

pub const MSG_SSP: u8 = 0x55;

#[verifier::external_type_specification]
#[verifier::external_body]
pub struct ExIoError(std::io::Error);

/// Why a frame could not be decoded.
#[derive(Debug)]
pub enum ProtocolError {
    InvalidSync,
    BufferTooShort { need: usize, have: usize },
    UnknownMessageType(u8),
    ChecksumMismatch { expected: u16, got: u16 },
    Io(std::io::Error),
    Parse(String),
}

/// One layer boundary of a sound-velocity profile.
#[derive(Debug, Clone, Copy, PartialEq, Eq)]
pub struct SvpPoint {
    /// Bits of the `f64` depth in metres.
    pub depth_bits: u64,
    /// Bits of the `f64` sound velocity in m/s.
    pub sound_velocity_bits: u64,
}

/// A decoded sound-velocity-profile datagram.
#[derive(Debug, Clone)]
pub struct SvpData {
    /// Bits of the `f64` UNIX time of the profile.
    pub unix_time_bits: u64,
    pub ping_number: u32,
    pub num_points: u16,
    pub points: Vec<SvpPoint>,
}

pub struct SvpDataView {
    pub unix_time_bits: u64,
    pub ping_number: u32,
    pub num_points: u16,
    pub points: Seq<SvpPoint>,
}

impl View for SvpData {
    type V = SvpDataView;

    open spec fn view(&self) -> SvpDataView {
        SvpDataView {
            unix_time_bits: self.unix_time_bits,
            ping_number: self.ping_number,
            num_points: self.num_points,
            points: self.points@,
        }
    }
}

/// One beam of a depth or range datagram.
#[derive(Debug, Clone, Copy, PartialEq, Eq)]
pub struct BeamData {
    pub beam_number: u16,
    /// Bits of the `f64` two-way travel time in seconds.
    pub travel_time_bits: u64,
    /// Bits of the `f64` transmit angle in radians.
    pub tx_angle_bits: u64,
    /// Bits of the `f64` receive angle in radians.
    pub rx_angle_bits: u64,
    pub reflectivity: i8,
    pub quality: u8,
}

/// A decoded depth or range datagram: one ping with its beams.
#[derive(Debug, Clone)]
pub struct PingData {
    /// Bits of the `f64` UNIX time of the ping.
    pub unix_time_bits: u64,
    pub ping_number: u32,
    pub num_beams: u16,
    /// Bits of the `f64` attitude and position fields.
    pub heading_bits: u64,
    pub pitch_bits: u64,
    pub roll_bits: u64,
    pub heave_bits: u64,
    pub latitude_bits: u64,
    pub longitude_bits: u64,
    /// Bits of the `f32` transmit parameters.
    pub tx_frequency_bits: u32,
    pub tx_beamwidth_along_bits: u32,
    pub tx_beamwidth_across_bits: u32,
    pub sample_rate_bits: u32,
    pub sound_velocity_at_tx_bits: u32,
    pub beams: Vec<BeamData>,
}

pub struct PingDataView {
    pub unix_time_bits: u64,
    pub ping_number: u32,
    pub num_beams: u16,
    pub heading_bits: u64,
    pub pitch_bits: u64,
    pub roll_bits: u64,
    pub heave_bits: u64,
    pub latitude_bits: u64,
    pub longitude_bits: u64,
    pub tx_frequency_bits: u32,
    pub tx_beamwidth_along_bits: u32,
    pub tx_beamwidth_across_bits: u32,
    pub sample_rate_bits: u32,
    pub sound_velocity_at_tx_bits: u32,
    pub beams: Seq<BeamData>,
}

impl View for PingData {
    type V = PingDataView;

    open spec fn view(&self) -> PingDataView {
        PingDataView {
            unix_time_bits: self.unix_time_bits,
            ping_number: self.ping_number,
            num_beams: self.num_beams,
            heading_bits: self.heading_bits,
            pitch_bits: self.pitch_bits,
            roll_bits: self.roll_bits,
            heave_bits: self.heave_bits,
            latitude_bits: self.latitude_bits,
            longitude_bits: self.longitude_bits,
            tx_frequency_bits: self.tx_frequency_bits,
            tx_beamwidth_along_bits: self.tx_beamwidth_along_bits,
            tx_beamwidth_across_bits: self.tx_beamwidth_across_bits,
            sample_rate_bits: self.sample_rate_bits,
            sound_velocity_at_tx_bits: self.sound_velocity_at_tx_bits,
            beams: self.beams@,
        }
    }
}

/// What a well-framed datagram decodes to.
#[derive(Debug, Clone)]
pub enum ParsedFrame {
    Svp(SvpData),
    Ping(PingData),
    Other { msg_type: u8, size: usize },
}

pub enum ParsedFrameView {
    Svp(SvpDataView),
    Ping(PingDataView),
    Other { msg_type: u8, size: usize },
}

impl View for ParsedFrame {
    type V = ParsedFrameView;

    open spec fn view(&self) -> ParsedFrameView {
        match self {
            ParsedFrame::Svp(s) => ParsedFrameView::Svp(s@),
            ParsedFrame::Ping(p) => ParsedFrameView::Ping(p@),
            ParsedFrame::Other { msg_type, size } => ParsedFrameView::Other {
                msg_type: *msg_type,
                size: *size,
            },
        }
    }
}

/// The outcome of decoding one frame, with the decoded frame taken by its view.
pub open spec fn outcome_view(r: Result<ParsedFrame, ProtocolError>) -> Result<
    ParsedFrameView,
    ProtocolError,
> {
    match r {
        Ok(f) => Ok(f@),
        Err(e) => Err(e),
    }
}

// ---------------------------------------------------------------------------
// The format, stated over byte sequences.
// ---------------------------------------------------------------------------
/// Record `k` of a profile payload starts at `16 + 16 * k`: depth, then velocity.
pub open spec fn svp_point_at(p: Seq<u8>, k: int) -> SvpPoint {
    SvpPoint {
        depth_bits: le_u64(p, 16 + 16 * k) as u64,
        sound_velocity_bits: le_u64(p, 24 + 16 * k) as u64,
    }
}

/// The profile payload: `ping: u32, time: f64, count: u16, reserved: u16`,
/// then `count` records of two `f64`.
pub open spec fn spec_parse_svp(p: Seq<u8>) -> Result<ParsedFrameView, ProtocolError> {
    if p.len() < 16 {
        Err(ProtocolError::BufferTooShort { need: 16, have: p.len() as usize })
    } else {
        let n = le_u16(p, 12);
        let remaining = p.len() - 16;
        if remaining < n * 16 {
            Err(ProtocolError::BufferTooShort { need: (n * 16) as usize, have: remaining as usize })
        } else {
            Ok(
                ParsedFrameView::Svp(
                    SvpDataView {
                        unix_time_bits: le_u64(p, 4) as u64,
                        ping_number: le_u32(p, 0) as u32,
                        num_points: n as u16,
                        points: Seq::new(n as nat, |k: int| svp_point_at(p, k)),
                    },
                ),
            )
        }
    }
}

/// Beam record `k` of a ping payload: 32 bytes from `96 + 32 * k`.
pub open spec fn beam_at(p: Seq<u8>, k: int) -> BeamData {
    let o = 96 + 32 * k;
    BeamData {
        beam_number: le_u16(p, o) as u16,
        travel_time_bits: le_u64(p, o + 4) as u64,
        tx_angle_bits: le_u64(p, o + 12) as u64,
        rx_angle_bits: le_u64(p, o + 20) as u64,
        reflectivity: p[o + 28] as i8,
        quality: p[o + 29],
    }
}

/// How many beam records a ping payload announces: the valid-beam count for a
/// range datagram, the beam count otherwise.
pub open spec fn ping_beam_count(p: Seq<u8>, msg_type: u8) -> int {
    if msg_type == MSG_RANGE {
        le_u16(p, 14)
    } else {
        le_u16(p, 12)
    }
}

/// The ping payload: a 96-byte header, then 32-byte beam records.
pub open spec fn spec_parse_ping(p: Seq<u8>, msg_type: u8) -> Result<
    ParsedFrameView,
    ProtocolError,
> {
    if p.len() < 96 {
        Err(ProtocolError::BufferTooShort { need: 96, have: p.len() as usize })
    } else {
        let count = ping_beam_count(p, msg_type);
        let remaining = p.len() - 96;
        if remaining < count * 32 {
            Err(
                ProtocolError::BufferTooShort {
                    need: (count * 32) as usize,
                    have: remaining as usize,
                },
            )
        } else {
            Ok(
                ParsedFrameView::Ping(
                    PingDataView {
                        unix_time_bits: le_u64(p, 4) as u64,
                        ping_number: le_u32(p, 0) as u32,
                        num_beams: count as u16,
                        heading_bits: le_u64(p, 48) as u64,
                        pitch_bits: le_u64(p, 56) as u64,
                        roll_bits: le_u64(p, 64) as u64,
                        heave_bits: le_u64(p, 72) as u64,
                        latitude_bits: le_u64(p, 80) as u64,
                        longitude_bits: le_u64(p, 88) as u64,
                        tx_frequency_bits: le_u32(p, 28) as u32,
                        tx_beamwidth_along_bits: le_u32(p, 32) as u32,
                        tx_beamwidth_across_bits: le_u32(p, 36) as u32,
                        sample_rate_bits: le_u32(p, 24) as u32,
                        sound_velocity_at_tx_bits: le_u32(p, 20) as u32,
                        beams: Seq::new(count as nat, |k: int| beam_at(p, k)),
                    },
                ),
            )
        }
    }
}

/// Decoding one frame. The stored checksum is read but not enforced.
pub open spec fn spec_parse_frame(d: Seq<u8>) -> Result<ParsedFrameView, ProtocolError> {
    if d.len() < 8 {
        Err(ProtocolError::BufferTooShort { need: 8, have: d.len() as usize })
    } else if d[0] != STX {
        Err(ProtocolError::InvalidSync)
    } else {
        let size = le_u32(d, 2);
        let total = 8 + size;
        if d.len() < total {
            Err(ProtocolError::BufferTooShort { need: total as usize, have: d.len() as usize })
        } else if d[total - 1] != ETX {
            Err(ProtocolError::InvalidSync)
        } else {
            let payload = d.subrange(6, 6 + size);
            let t = d[1];
            if t == MSG_SVP || t == MSG_SSP {
                spec_parse_svp(payload)
            } else if t == MSG_DEPTH || t == MSG_RANGE {
                spec_parse_ping(payload, t)
            } else {
                Ok(ParsedFrameView::Other { msg_type: t, size: size as usize })
            }
        }
    }
}

/// A complete frame starts at `i`: sync byte, a size that fits, and the end
/// byte where the size puts it.
pub open spec fn frame_starts_at(b: Seq<u8>, i: int) -> bool {
    &&& 0 <= i
    &&& i + 8 <= b.len()
    &&& b[i] == STX
    &&& i + 8 + le_u32(b, i + 2) <= b.len()
    &&& b[i + 7 + le_u32(b, i + 2)] == ETX
}

/// The length of the frame whose header starts at `i`.
pub open spec fn frame_len_at(b: Seq<u8>, i: int) -> int {
    8 + le_u32(b, i + 2)
}

/// The first position at or after `i` where a complete frame starts.
pub open spec fn first_frame_from(b: Seq<u8>, i: int) -> Option<int>
    decreases b.len() - i,
{
    if i < 0 || i + 8 > b.len() {
        None
    } else if frame_starts_at(b, i) {
        Some(i)
    } else {
        first_frame_from(b, i + 1)
    }
}

/// The sum of the bytes, as an integer.
pub open spec fn byte_sum(s: Seq<u8>) -> int
    decreases s.len(),
{
    if s.len() == 0 {
        0
    } else {
        byte_sum(s.drop_last()) + s.last()
    }
}

/// Past this many buffered bytes without a complete frame, the stream buffer
/// is discarded.
pub const MAX_BUFFERED_BYTES: usize = 256 * 1024 * 1024;

/// A position that `first_frame_from` reports holds a complete frame and lies
/// at or after the position the search started from.
pub proof fn lemma_first_frame_from(b: Seq<u8>, i: int)
    requires
        0 <= i,
    ensures
        match first_frame_from(b, i) {
            Some(s) => i <= s && frame_starts_at(b, s) && forall|j: int|
                i <= j < s ==> !frame_starts_at(b, j),
            None => forall|j: int| i <= j ==> !frame_starts_at(b, j),
        },
    decreases b.len() - i,
{
    if i < 0 || i + 8 > b.len() {
    } else if frame_starts_at(b, i) {
    } else {
        lemma_first_frame_from(b, i + 1);
    }
}

/// The outcomes of taking frames off the front of `b`, one after another,
/// until no complete frame is left; bytes before each frame are skipped.
pub open spec fn drained_frames(b: Seq<u8>) -> Seq<Result<ParsedFrameView, ProtocolError>>
    decreases b.len(),
{
    match first_frame_from(b, 0) {
        Some(s) => {
            proof {
                lemma_first_frame_from(b, 0);
            }
            let end = s + frame_len_at(b, s);
            seq![spec_parse_frame(b.subrange(s, end))] + drained_frames(b.skip(end))
        },
        None => Seq::empty(),
    }
}

/// What stays buffered once `drained_frames(b)` has been taken: the bytes
/// after the last frame, or nothing if they exceed `MAX_BUFFERED_BYTES`.
pub open spec fn drain_remainder(b: Seq<u8>) -> Seq<u8>
    decreases b.len(),
{
    match first_frame_from(b, 0) {
        Some(s) => {
            proof {
                lemma_first_frame_from(b, 0);
            }
            drain_remainder(b.skip(s + frame_len_at(b, s)))
        },
        None => if b.len() > MAX_BUFFERED_BYTES {
            Seq::empty()
        } else {
            b
        },
    }
}

/// No complete frame is left in what draining keeps buffered.
pub proof fn lemma_drain_remainder_has_no_frame(b: Seq<u8>)
    ensures
        first_frame_from(drain_remainder(b), 0) is None,
    decreases b.len(),
{
    lemma_first_frame_from(b, 0);
    match first_frame_from(b, 0) {
        Some(s) => {
            lemma_drain_remainder_has_no_frame(b.skip(s + frame_len_at(b, s)));
        },
        None => {
            if b.len() > MAX_BUFFERED_BYTES {
                assert(first_frame_from(Seq::<u8>::empty(), 0) is None);
            }
        },
    }
}

/// What draining keeps buffered never exceeds `MAX_BUFFERED_BYTES`.
pub proof fn lemma_drain_remainder_bounded(b: Seq<u8>)
    ensures
        drain_remainder(b).len() <= MAX_BUFFERED_BYTES,
    decreases b.len(),
{
    lemma_first_frame_from(b, 0);
    if let Some(s) = first_frame_from(b, 0) {
        lemma_drain_remainder_bounded(b.skip(s + frame_len_at(b, s)));
    }
}

/// Draining twice in a row: the second drain finds no frame and leaves the
/// buffer as the first one left it.
pub proof fn law_drain_is_idempotent(b: Seq<u8>)
    ensures
        drained_frames(drain_remainder(b)) == Seq::<Result<ParsedFrameView, ProtocolError>>::empty(),
        drain_remainder(drain_remainder(b)) == drain_remainder(b),
{
    lemma_drain_remainder_has_no_frame(b);
    lemma_drain_remainder_bounded(b);
}

/// A complete frame, wherever it was found, passes the framing checks of
/// `parse_frame`: decoding it never reports a sync error, only a decoded frame
/// or a payload shorter than its own header announces.
pub proof fn law_found_frame_is_well_framed(b: Seq<u8>, s: int)
    requires
        frame_starts_at(b, s),
    ensures
        ({
            let r = spec_parse_frame(b.subrange(s, s + frame_len_at(b, s)));
            r is Ok || r matches Err(ProtocolError::BufferTooShort { .. })
        }),
{
    let f = b.subrange(s, s + frame_len_at(b, s));
    assert(f[0] == b[s]);
    assert(le_u32(f, 2) == le_u32(b, s + 2));
    assert(f[f.len() - 1] == b[s + 7 + le_u32(b, s + 2)]);
}

/// Decoding a frame reads nothing past its declared length: bytes that
/// follow a complete frame do not change what it decodes to.
pub proof fn law_frame_ignores_trailing_bytes(d: Seq<u8>)
    requires
        frame_starts_at(d, 0),
    ensures
        spec_parse_frame(d) == spec_parse_frame(d.take(frame_len_at(d, 0))),
{
    let n = frame_len_at(d, 0);
    let t = d.take(n);
    assert(t[0] == d[0]);
    assert(t[1] == d[1]);
    assert(le_u32(t, 2) == le_u32(d, 2));
    assert(t[n - 1] == d[n - 1]);
    let size = le_u32(d, 2);
    assert(t.subrange(6, 6 + size) =~= d.subrange(6, 6 + size));
}

/// The byte sum of a concatenation is the sum of the byte sums.
pub proof fn lemma_byte_sum_concat(a: Seq<u8>, b: Seq<u8>)
    ensures
        byte_sum(a + b) == byte_sum(a) + byte_sum(b),
    decreases b.len(),
{
    if b.len() == 0 {
        assert(a + b =~= a);
    } else {
        lemma_byte_sum_concat(a, b.drop_last());
        assert((a + b).drop_last() =~= a + b.drop_last());
    }
}

/// The checksum of a concatenation is the wrapping sum of the checksums of
/// its parts, so a checksum can be computed piece by piece.
pub proof fn law_checksum_concat(a: Seq<u8>, b: Seq<u8>)
    ensures
        byte_sum(a + b) % 0x10000 == (byte_sum(a) % 0x10000 + byte_sum(b) % 0x10000) % 0x10000,
{
    lemma_byte_sum_concat(a, b);
    vstd::arithmetic::div_mod::lemma_add_mod_noop(byte_sum(a), byte_sum(b), 0x10000);
}

/// Adding below 2^16 and reducing modulo 2^16 is wrapping addition.
proof fn lemma_wrapping_sum16(a: int, b: int)
    requires
        0 <= a < 0x10000,
        0 <= b < 0x10000,
    ensures
        (a + b) % 0x10000 == if a + b < 0x10000 {
            a + b
        } else {
            a + b - 0x10000
        },
{
}

/// Decodes frames out of byte buffers.
pub struct AllFrameParser;

impl AllFrameParser {
    pub fn new() -> (p: Self) {
        AllFrameParser
    }

    /// Finds the first complete frame in `buffer`: its start and its length.
    pub fn find_next_frame(&self, buffer: &[u8]) -> (r: Option<(usize, usize)>)
        ensures
            match r {
                Some((start, len)) => {
                    &&& first_frame_from(buffer@, 0) == Some(start as int)
                    &&& frame_starts_at(buffer@, start as int)
                    &&& len == frame_len_at(buffer@, start as int)
                    &&& forall|j: int| 0 <= j < start ==> !frame_starts_at(buffer@, j)
                },
                None => {
                    &&& first_frame_from(buffer@, 0) is None
                    &&& forall|j: int| !frame_starts_at(buffer@, j)
                },
            },
    {
        let ghost b = buffer@;
        let mut i: usize = 0;
        while buffer.len() >= 8 && i <= buffer.len() - 8
            invariant
                b == buffer@,
                i <= buffer@.len(),
                first_frame_from(b, 0) == first_frame_from(b, i as int),
                forall|j: int| 0 <= j < i ==> !frame_starts_at(b, j),
            decreases buffer@.len() - i,
        {
            if buffer[i] == STX {
                let size = read_u32_at(buffer, i + 2);
                if (size as u64) <= ((buffer.len() - i - 8) as u64) {
                    let total = 8 + size as usize;
                    if buffer[i + total - 1] == ETX {
                        assert(frame_starts_at(b, i as int));
                        return Some((i, total));
                    }
                }
            }
            assert(!frame_starts_at(b, i as int));
            i += 1;
        }
        None
    }

    /// The 16-bit wrapping sum of the bytes.
    pub fn compute_checksum(&self, data: &[u8]) -> (sum: u16)
        ensures
            sum as int == byte_sum(data@) % 0x10000,
    {
        let mut sum: u16 = 0;
        let mut i: usize = 0;
        while i < data.len()
            invariant
                i <= data@.len(),
                sum as int == byte_sum(data@.take(i as int)) % 0x10000,
            decreases data@.len() - i,
        {
            let ghost before = sum;
            sum = sum.wrapping_add(data[i] as u16);
            proof {
                let t = data@.take(i as int + 1);
                assert(t.drop_last() =~= data@.take(i as int));
                assert(t.last() == data@[i as int]);
                vstd::arithmetic::div_mod::lemma_add_mod_noop(
                    byte_sum(data@.take(i as int)),
                    data@[i as int] as int,
                    0x10000,
                );
                vstd::arithmetic::div_mod::lemma_small_mod(data@[i as int] as nat, 0x10000);
                lemma_wrapping_sum16(before as int, data@[i as int] as int);
            }
            i += 1;
        }
        assert(data@.take(data@.len() as int) =~= data@);
        sum
    }
    /// Decodes a sound-velocity-profile payload.
    fn parse_svp(&self, payload: &[u8]) -> (r: Result<ParsedFrame, ProtocolError>)
        ensures
            outcome_view(r) == spec_parse_svp(payload@),
    {
        if payload.len() < 16 {
            return Err(ProtocolError::BufferTooShort { need: 16, have: payload.len() });
        }
        let ping_number = read_u32_at(payload, 0);
        let unix_time_bits = read_u64_at(payload, 4);
        let num_points = read_u16_at(payload, 12);
        let _reserved = read_u16_at(payload, 14);
        let points_need = num_points as usize * 16;
        let remaining = payload.len() - 16;
        if remaining < points_need {
            return Err(ProtocolError::BufferTooShort { need: points_need, have: remaining });
        }
        let ghost p = payload@;
        let mut points: Vec<SvpPoint> = Vec::with_capacity(num_points as usize);
        let mut k: usize = 0;
        while k < num_points as usize
            invariant
                p == payload@,
                k <= num_points,
                16 + 16 * (num_points as int) <= p.len(),
                points@ =~= Seq::new(k as nat, |j: int| svp_point_at(p, j)),
            decreases num_points - k,
        {
            let off = 16 + 16 * k;
            let depth_bits = read_u64_at(payload, off);
            let sound_velocity_bits = read_u64_at(payload, off + 8);
            points.push(SvpPoint { depth_bits, sound_velocity_bits });
            k += 1;
            assert(points@ =~= Seq::new(k as nat, |j: int| svp_point_at(p, j)));
        }
        Ok(ParsedFrame::Svp(SvpData { unix_time_bits, ping_number, num_points, points }))
    }

    /// Decodes a depth or range payload; `msg_type` picks which count sizes
    /// the beam table.
    fn parse_ping(&self, payload: &[u8], msg_type: u8) -> (r: Result<ParsedFrame, ProtocolError>)
        ensures
            outcome_view(r) == spec_parse_ping(payload@, msg_type),
    {
        if payload.len() < 96 {
            return Err(ProtocolError::BufferTooShort { need: 96, have: payload.len() });
        }
        let ping_number = read_u32_at(payload, 0);
        let unix_time_bits = read_u64_at(payload, 4);
        let num_beams = read_u16_at(payload, 12);
        let num_valid = read_u16_at(payload, 14);
        let _sample_range = read_u16_at(payload, 16);
        let _reserved0 = read_u16_at(payload, 18);
        let sound_velocity_at_tx_bits = read_u32_at(payload, 20);
        let sample_rate_bits = read_u32_at(payload, 24);
        let tx_frequency_bits = read_u32_at(payload, 28);
        let tx_beamwidth_along_bits = read_u32_at(payload, 32);
        let tx_beamwidth_across_bits = read_u32_at(payload, 36);
        let _tx_pulse_width_bits = read_u32_at(payload, 40);
        let _tx_power_bits = read_u32_at(payload, 44);
        let heading_bits = read_u64_at(payload, 48);
        let pitch_bits = read_u64_at(payload, 56);
        let roll_bits = read_u64_at(payload, 64);
        let heave_bits = read_u64_at(payload, 72);
        let latitude_bits = read_u64_at(payload, 80);
        let longitude_bits = read_u64_at(payload, 88);
        let beam_count: u16 = if msg_type == MSG_RANGE {
            num_valid
        } else {
            num_beams
        };
        let beams_need = beam_count as usize * 32;
        let remaining = payload.len() - 96;
        if remaining < beams_need {
            return Err(ProtocolError::BufferTooShort { need: beams_need, have: remaining });
        }
        let ghost p = payload@;
        let mut beams: Vec<BeamData> = Vec::with_capacity(beam_count as usize);
        let mut k: usize = 0;
        while k < beam_count as usize
            invariant
                p == payload@,
                k <= beam_count,
                96 + 32 * (beam_count as int) <= p.len(),
                beams@ =~= Seq::new(k as nat, |j: int| beam_at(p, j)),
            decreases beam_count - k,
        {
            let off = 96 + 32 * k;
            let beam_number = read_u16_at(payload, off);
            let _flags = read_u16_at(payload, off + 2);
            let travel_time_bits = read_u64_at(payload, off + 4);
            let tx_angle_bits = read_u64_at(payload, off + 12);
            let rx_angle_bits = read_u64_at(payload, off + 20);
            let reflectivity = payload[off + 28] as i8;
            let quality = payload[off + 29];
            let _reserved = read_u16_at(payload, off + 30);
            beams.push(
                BeamData {
                    beam_number,
                    travel_time_bits,
                    tx_angle_bits,
                    rx_angle_bits,
                    reflectivity,
                    quality,
                },
            );
            k += 1;
            assert(beams@ =~= Seq::new(k as nat, |j: int| beam_at(p, j)));
        }
        Ok(
            ParsedFrame::Ping(
                PingData {
                    unix_time_bits,
                    ping_number,
                    num_beams: beam_count,
                    heading_bits,
                    pitch_bits,
                    roll_bits,
                    heave_bits,
                    latitude_bits,
                    longitude_bits,
                    tx_frequency_bits,
                    tx_beamwidth_along_bits,
                    tx_beamwidth_across_bits,
                    sample_rate_bits,
                    sound_velocity_at_tx_bits,
                    beams,
                },
            ),
        )
    }

    /// Decodes one frame: checks the sync bytes and the declared size, then
    /// decodes the payload by message type. The stored checksum is read and
    /// the sum is computed, but a mismatch is accepted, since some streams
    /// leave the checksum out.
    pub fn parse_frame(&self, data: &[u8]) -> (r: Result<ParsedFrame, ProtocolError>)
        ensures
            outcome_view(r) == spec_parse_frame(data@),
    {
        if data.len() < 8 {
            return Err(ProtocolError::BufferTooShort { need: 8, have: data.len() });
        }
        if data[0] != STX {
            return Err(ProtocolError::InvalidSync);
        }
        let msg_type = data[1];
        let size = read_u32_at(data, 2);
        if ((data.len() - 8) as u64) < (size as u64) {
            return Err(
                ProtocolError::BufferTooShort { need: (8 + size as u64) as usize, have: data.len() },
            );
        }
        let total = 8 + size as usize;
        if data[total - 1] != ETX {
            return Err(ProtocolError::InvalidSync);
        }
        let _expected_checksum = read_u16_at(data, total - 3);
        let _computed_checksum = self.compute_checksum(slice_subrange(data, 1, total - 3));
        let payload = slice_subrange(data, 6, 6 + size as usize);
        if msg_type == MSG_SVP || msg_type == MSG_SSP {
            self.parse_svp(payload)
        } else if msg_type == MSG_DEPTH || msg_type == MSG_RANGE {
            self.parse_ping(payload, msg_type)
        } else {
            Ok(ParsedFrame::Other { msg_type, size: size as usize })
        }
    }
}

/// Accumulates stream bytes and takes complete frames off the front.
pub struct StreamingParser {
    buffer: Vec<u8>,
    parser: AllFrameParser,
}

impl View for StreamingParser {
    type V = Seq<u8>;

    /// The bytes received and not yet consumed.
    closed spec fn view(&self) -> Seq<u8> {
        self.buffer@
    }
}

impl StreamingParser {
    pub fn new() -> (p: Self)
        ensures
            p@ == Seq::<u8>::empty(),
    {
        StreamingParser { buffer: Vec::with_capacity(4 * 1024 * 1024), parser: AllFrameParser::new() }
    }

    /// Appends received bytes to the buffer.
    pub fn feed(&mut self, data: &[u8])
        ensures
            final(self)@ == old(self)@ + data@,
    {
        self.buffer.extend_from_slice(data);
        assert(self.buffer@ =~= old(self).buffer@ + data@);
    }

    /// Decodes every complete frame in the buffer, in order, and drops the
    /// bytes up to the end of the last one; bytes between frames are skipped.
    pub fn drain_frames(&mut self) -> (results: Vec<Result<ParsedFrame, ProtocolError>>)
        ensures
            results@.map_values(|r: Result<ParsedFrame, ProtocolError>| outcome_view(r))
                == drained_frames(old(self)@),
            final(self)@ == drain_remainder(old(self)@),
            first_frame_from(final(self)@, 0) is None,
    {
        let ghost b0 = self.buffer@;
        let mut results: Vec<Result<ParsedFrame, ProtocolError>> = Vec::new();
        loop
            invariant
                results@.map_values(|r: Result<ParsedFrame, ProtocolError>| outcome_view(r))
                    + drained_frames(self.buffer@) == drained_frames(b0),
                drain_remainder(self.buffer@) == drain_remainder(b0),
            ensures
                results@.map_values(|r: Result<ParsedFrame, ProtocolError>| outcome_view(r))
                    == drained_frames(b0),
                self.buffer@ == drain_remainder(b0),
            decreases self.buffer@.len(),
        {
            match self.parser.find_next_frame(self.buffer.as_slice()) {
                Some((start, size)) => {
                    let ghost b = self.buffer@;
                    assert(start + size <= self.buffer.len());
                    let ghost before = results@.map_values(
                        |r: Result<ParsedFrame, ProtocolError>| outcome_view(r),
                    );
                    let frame_data = slice_subrange(self.buffer.as_slice(), start, start + size);
                    let result = self.parser.parse_frame(frame_data);
                    results.push(result);
                    let rest = self.buffer.split_off(start + size);
                    self.buffer = rest;
                    assert(self.buffer@ =~= b.skip(start + size));
                    assert(results@.map_values(
                        |r: Result<ParsedFrame, ProtocolError>| outcome_view(r),
                    ) =~= before.push(spec_parse_frame(b.subrange(start as int, start + size))));
                    assert(drained_frames(b) == seq![
                        spec_parse_frame(b.subrange(start as int, start + size)),
                    ] + drained_frames(self.buffer@));
                    assert(results@.map_values(
                        |r: Result<ParsedFrame, ProtocolError>| outcome_view(r),
                    ) + drained_frames(self.buffer@) =~= before + drained_frames(b));
                },
                None => {
                    assert(results@.map_values(
                        |r: Result<ParsedFrame, ProtocolError>| outcome_view(r),
                    ) + drained_frames(self.buffer@) =~= results@.map_values(
                        |r: Result<ParsedFrame, ProtocolError>| outcome_view(r),
                    ));
                    if self.buffer.len() > MAX_BUFFERED_BYTES {
                        self.buffer.clear();
                    }
                    break ;
                },
            }
        }
        proof {
            lemma_drain_remainder_has_no_frame(b0);
        }
        results
    }
}

impl Default for AllFrameParser {
    fn default() -> (p: Self)
        ensures
            p == AllFrameParser,
    {
        AllFrameParser::new()
    }
}

impl Default for StreamingParser {
    fn default() -> (p: Self)
        ensures
            p@ == Seq::<u8>::empty(),
    {
        StreamingParser::new()
    }
}

} // verus!

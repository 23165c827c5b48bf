//! What decoding does, stated over the raw bytes: each field is the unsigned
//! little-endian number formed by its bytes, taken one byte at a time.
use crate::bytes::{le_u16, le_u32, le_u64};
use crate::protocol::{
    byte_sum, drain_remainder, drained_frames, first_frame_from, frame_len_at, frame_starts_at,
    lemma_first_frame_from, spec_parse_frame, spec_parse_ping, spec_parse_svp, ParsedFrameView,
    ProtocolError, MAX_BUFFERED_BYTES,
};
use vstd::prelude::*;

verus! {

/// The unsigned number whose base-256 digits are `s`, least significant first.
pub open spec fn le_value(s: Seq<u8>) -> int
    decreases s.len(),
{
    if s.len() == 0 {
        0
    } else {
        s[0] as int + 0x100 * le_value(s.drop_first())
    }
}

proof fn lemma_le_value_step(p: Seq<u8>, o: int, e: int)
    requires
        0 <= o < e <= p.len(),
    ensures
        le_value(p.subrange(o, e)) == p[o] as int + 0x100 * le_value(p.subrange(o + 1, e)),
{
    assert(p.subrange(o, e).drop_first() =~= p.subrange(o + 1, e));
}

proof fn lemma_le_value_empty(p: Seq<u8>, e: int)
    requires
        0 <= e <= p.len(),
    ensures
        le_value(p.subrange(e, e)) == 0,
{
}

/// The two-byte field at `o` is the number its bytes form.
pub proof fn lemma_le16_value(p: Seq<u8>, o: int)
    requires
        0 <= o,
        o + 2 <= p.len(),
    ensures
        le_u16(p, o) == le_value(p.subrange(o, o + 2)),
{
    lemma_le_value_step(p, o, o + 2);
    lemma_le_value_step(p, o + 1, o + 2);
    lemma_le_value_empty(p, o + 2);
}

/// The four-byte field at `o` is the number its bytes form.
pub proof fn lemma_le32_value(p: Seq<u8>, o: int)
    requires
        0 <= o,
        o + 4 <= p.len(),
    ensures
        le_u32(p, o) == le_value(p.subrange(o, o + 4)),
{
    lemma_le_value_step(p, o, o + 4);
    lemma_le_value_step(p, o + 1, o + 4);
    lemma_le_value_step(p, o + 2, o + 4);
    lemma_le_value_step(p, o + 3, o + 4);
    lemma_le_value_empty(p, o + 4);
}

/// The eight-byte field at `o` is the number its bytes form.
pub proof fn lemma_le64_value(p: Seq<u8>, o: int)
    requires
        0 <= o,
        o + 8 <= p.len(),
    ensures
        le_u64(p, o) == le_value(p.subrange(o, o + 8)),
{
    lemma_le_value_step(p, o, o + 8);
    lemma_le_value_step(p, o + 1, o + 8);
    lemma_le_value_step(p, o + 2, o + 8);
    lemma_le_value_step(p, o + 3, o + 8);
    lemma_le_value_step(p, o + 4, o + 8);
    lemma_le_value_step(p, o + 5, o + 8);
    lemma_le_value_step(p, o + 6, o + 8);
    lemma_le_value_step(p, o + 7, o + 8);
    lemma_le_value_empty(p, o + 8);
}

/// The size a frame header at `i` declares: the four bytes after the type byte.
pub open spec fn declared_size(b: Seq<u8>, i: int) -> int {
    le_value(b.subrange(i + 2, i + 6))
}

/// A complete frame starts at `i` exactly when the byte there is STX (0x02),
/// the eight header and trailer bytes plus the declared payload fit in the
/// buffer, and the byte where they end is ETX (0x03), whatever the size.
pub proof fn law_frame_start_by_bytes(b: Seq<u8>, i: int)
    ensures
        frame_starts_at(b, i) <==> {
            &&& 0 <= i
            &&& i + 8 <= b.len()
            &&& b[i] == 0x02
            &&& i + 8 + declared_size(b, i) <= b.len()
            &&& b[i + 7 + declared_size(b, i)] == 0x03
        },
{
    if 0 <= i && i + 8 <= b.len() {
        lemma_le32_value(b, i + 2);
    }
}

/// The earliest complete frame is the one located, and its length is the
/// declared size plus eight.
pub proof fn law_earliest_frame_is_found(b: Seq<u8>, i: int)
    requires
        frame_starts_at(b, i),
        forall|j: int| 0 <= j < i ==> !frame_starts_at(b, j),
    ensures
        first_frame_from(b, 0) == Some(i),
        frame_len_at(b, i) == 8 + declared_size(b, i),
{
    lemma_first_frame_from(b, 0);
    lemma_le32_value(b, i + 2);
    match first_frame_from(b, 0) {
        Some(s) => {
            if s < i {
                assert(!frame_starts_at(b, s));
            }
            if s > i {
                assert(!frame_starts_at(b, i));
            }
        },
        None => {
            assert(!frame_starts_at(b, i));
        },
    }
}

/// Every frame taken off the buffer yields exactly one outcome, whether it
/// decoded or not: when the first complete frame spans `s..s + n`, the drained
/// outcomes are its decoding followed by those of the bytes after it, and what
/// stays buffered is what draining those bytes leaves.
pub proof fn law_drain_reports_every_frame(b: Seq<u8>, s: int)
    requires
        frame_starts_at(b, s),
        forall|j: int| 0 <= j < s ==> !frame_starts_at(b, j),
    ensures
        ({
            let n = 8 + declared_size(b, s);
            &&& drained_frames(b) == seq![spec_parse_frame(b.subrange(s, s + n))]
                + drained_frames(b.skip(s + n))
            &&& drained_frames(b).len() == 1 + drained_frames(b.skip(s + n)).len()
            &&& drain_remainder(b) == drain_remainder(b.skip(s + n))
        }),
{
    law_earliest_frame_is_found(b, s);
}

/// With no complete frame in the buffer, draining yields nothing and keeps
/// the bytes, unless they exceed `MAX_BUFFERED_BYTES`.
pub proof fn law_drain_without_frame(b: Seq<u8>)
    requires
        forall|j: int| !frame_starts_at(b, j),
    ensures
        drained_frames(b).len() == 0,
        drain_remainder(b) == if b.len() > MAX_BUFFERED_BYTES {
            Seq::<u8>::empty()
        } else {
            b
        },
{
    lemma_first_frame_from(b, 0);
    if let Some(s) = first_frame_from(b, 0) {
        assert(frame_starts_at(b, s));
    }
}

/// The framing checks of `parse_frame`, in order: a buffer under eight bytes
/// is too short; a first byte other than STX, or a byte other than ETX where
/// the declared size ends the frame, is a sync error; a declared size that
/// does not fit is too short by exactly the missing frame length.
pub proof fn law_frame_framing_errors(d: Seq<u8>)
    ensures
        d.len() < 8 ==> spec_parse_frame(d) == Err::<ParsedFrameView, ProtocolError>(
            ProtocolError::BufferTooShort { need: 8, have: d.len() as usize },
        ),
        d.len() >= 8 && d[0] != 0x02 ==> spec_parse_frame(d) == Err::<
            ParsedFrameView,
            ProtocolError,
        >(ProtocolError::InvalidSync),
        d.len() >= 8 && d[0] == 0x02 && d.len() < 8 + declared_size(d, 0) ==> spec_parse_frame(d)
            == Err::<ParsedFrameView, ProtocolError>(
            ProtocolError::BufferTooShort {
                need: (8 + declared_size(d, 0)) as usize,
                have: d.len() as usize,
            },
        ),
        d.len() >= 8 && d[0] == 0x02 && d.len() >= 8 + declared_size(d, 0) && d[7 + declared_size(
            d,
            0,
        )] != 0x03 ==> spec_parse_frame(d) == Err::<ParsedFrameView, ProtocolError>(
            ProtocolError::InvalidSync,
        ),
{
    if d.len() >= 8 {
        lemma_le32_value(d, 2);
    }
}

/// A well-framed datagram decodes by its type byte: profiles (0x0A, 0x55)
/// and pings (0x12 depth, 0x15 range) from the payload that follows the
/// six header bytes, every other type as `Other` with that type and the
/// declared payload size.
pub proof fn law_frame_decodes_by_type(d: Seq<u8>)
    requires
        d.len() >= 8,
        d[0] == 0x02,
        8 + declared_size(d, 0) <= d.len(),
        d[7 + declared_size(d, 0)] == 0x03,
    ensures
        ({
            let size = declared_size(d, 0);
            let payload = d.subrange(6, 6 + size);
            let t = d[1];
            &&& (t == 0x0A || t == 0x55) ==> spec_parse_frame(d) == spec_parse_svp(payload)
            &&& (t == 0x12 || t == 0x15) ==> spec_parse_frame(d) == spec_parse_ping(payload, t)
            &&& (t != 0x0A && t != 0x55 && t != 0x12 && t != 0x15) ==> spec_parse_frame(d) == Ok::<
                ParsedFrameView,
                ProtocolError,
            >(ParsedFrameView::Other { msg_type: t, size: size as usize })
        }),
{
    lemma_le32_value(d, 2);
}

/// A profile payload: the count is the two bytes at 12, each record is two
/// eight-byte fields from `16 + 16 * k`, and a payload too short for the
/// records it announces is reported with the exact shortfall.
pub proof fn law_svp_by_bytes(p: Seq<u8>)
    ensures
        p.len() < 16 ==> spec_parse_svp(p) == Err::<ParsedFrameView, ProtocolError>(
            ProtocolError::BufferTooShort { need: 16, have: p.len() as usize },
        ),
        p.len() >= 16 && p.len() - 16 < 16 * le_value(p.subrange(12, 14)) ==> spec_parse_svp(p)
            == Err::<ParsedFrameView, ProtocolError>(
            ProtocolError::BufferTooShort {
                need: (16 * le_value(p.subrange(12, 14))) as usize,
                have: (p.len() - 16) as usize,
            },
        ),
        p.len() >= 16 && p.len() - 16 >= 16 * le_value(p.subrange(12, 14)) ==> {
            let n = le_value(p.subrange(12, 14));
            &&& spec_parse_svp(p) matches Ok(ParsedFrameView::Svp(v))
            &&& v.num_points == n
            &&& v.points.len() == n
            &&& v.ping_number == le_value(p.subrange(0, 4))
            &&& v.unix_time_bits == le_value(p.subrange(4, 12))
            &&& forall|k: int|
                0 <= k < n ==> {
                    &&& #[trigger] v.points[k].depth_bits == le_value(
                        p.subrange(16 + 16 * k, 24 + 16 * k),
                    )
                    &&& v.points[k].sound_velocity_bits == le_value(
                        p.subrange(24 + 16 * k, 32 + 16 * k),
                    )
                }
        },
{
    if p.len() >= 16 {
        lemma_le16_value(p, 12);
        lemma_le32_value(p, 0);
        lemma_le64_value(p, 4);
        let n = le_value(p.subrange(12, 14));
        if p.len() - 16 >= 16 * n {
            if let Ok(ParsedFrameView::Svp(v)) = spec_parse_svp(p) {
                assert forall|k: int| 0 <= k < n implies {
                    &&& #[trigger] v.points[k].depth_bits == le_value(
                        p.subrange(16 + 16 * k, 24 + 16 * k),
                    )
                    &&& v.points[k].sound_velocity_bits == le_value(
                        p.subrange(24 + 16 * k, 32 + 16 * k),
                    )
                } by {
                    lemma_le64_value(p, 16 + 16 * k);
                    lemma_le64_value(p, 24 + 16 * k);
                }
            }
        }
    }
}

/// The number of beam records a ping announces: the valid-beam count (bytes
/// 14..16) for a range datagram (0x15), the beam count (bytes 12..14) otherwise.
pub open spec fn announced_beams(p: Seq<u8>, t: u8) -> int {
    if t == 0x15 {
        le_value(p.subrange(14, 16))
    } else {
        le_value(p.subrange(12, 14))
    }
}

/// A ping payload: a 96-byte header, then one 32-byte record per announced
/// beam; each beam's number, times, angles, reflectivity and quality are the
/// bytes at their offsets in its record, and a payload too short for the
/// records it announces is reported with the exact shortfall.
pub proof fn law_ping_by_bytes(p: Seq<u8>, t: u8)
    ensures
        p.len() < 96 ==> spec_parse_ping(p, t) == Err::<ParsedFrameView, ProtocolError>(
            ProtocolError::BufferTooShort { need: 96, have: p.len() as usize },
        ),
        p.len() >= 96 && p.len() - 96 < 32 * announced_beams(p, t) ==> spec_parse_ping(p, t)
            == Err::<ParsedFrameView, ProtocolError>(
            ProtocolError::BufferTooShort {
                need: (32 * announced_beams(p, t)) as usize,
                have: (p.len() - 96) as usize,
            },
        ),
        p.len() >= 96 && p.len() - 96 >= 32 * announced_beams(p, t) ==> {
            let n = announced_beams(p, t);
            &&& spec_parse_ping(p, t) matches Ok(ParsedFrameView::Ping(v))
            &&& v.num_beams == n
            &&& v.beams.len() == n
            &&& v.ping_number == le_value(p.subrange(0, 4))
            &&& v.unix_time_bits == le_value(p.subrange(4, 12))
            &&& v.sound_velocity_at_tx_bits == le_value(p.subrange(20, 24))
            &&& v.sample_rate_bits == le_value(p.subrange(24, 28))
            &&& v.tx_frequency_bits == le_value(p.subrange(28, 32))
            &&& v.tx_beamwidth_along_bits == le_value(p.subrange(32, 36))
            &&& v.tx_beamwidth_across_bits == le_value(p.subrange(36, 40))
            &&& v.heading_bits == le_value(p.subrange(48, 56))
            &&& v.pitch_bits == le_value(p.subrange(56, 64))
            &&& v.roll_bits == le_value(p.subrange(64, 72))
            &&& v.heave_bits == le_value(p.subrange(72, 80))
            &&& v.latitude_bits == le_value(p.subrange(80, 88))
            &&& v.longitude_bits == le_value(p.subrange(88, 96))
            &&& forall|k: int|
                0 <= k < n ==> {
                    let o = 96 + 32 * k;
                    &&& #[trigger] v.beams[k].beam_number == le_value(p.subrange(o, o + 2))
                    &&& v.beams[k].travel_time_bits == le_value(p.subrange(o + 4, o + 12))
                    &&& v.beams[k].tx_angle_bits == le_value(p.subrange(o + 12, o + 20))
                    &&& v.beams[k].rx_angle_bits == le_value(p.subrange(o + 20, o + 28))
                    &&& v.beams[k].reflectivity == p[o + 28] as i8
                    &&& v.beams[k].quality == p[o + 29]
                }
        },
{
    if p.len() >= 96 {
        lemma_le16_value(p, 12);
        lemma_le16_value(p, 14);
        lemma_le32_value(p, 0);
        lemma_le64_value(p, 4);
        lemma_le32_value(p, 20);
        lemma_le32_value(p, 24);
        lemma_le32_value(p, 28);
        lemma_le32_value(p, 32);
        lemma_le32_value(p, 36);
        lemma_le64_value(p, 48);
        lemma_le64_value(p, 56);
        lemma_le64_value(p, 64);
        lemma_le64_value(p, 72);
        lemma_le64_value(p, 80);
        lemma_le64_value(p, 88);
        let n = announced_beams(p, t);
        if p.len() - 96 >= 32 * n {
            if let Ok(ParsedFrameView::Ping(v)) = spec_parse_ping(p, t) {
                assert forall|k: int| 0 <= k < n implies {
                    let o = 96 + 32 * k;
                    &&& #[trigger] v.beams[k].beam_number == le_value(p.subrange(o, o + 2))
                    &&& v.beams[k].travel_time_bits == le_value(p.subrange(o + 4, o + 12))
                    &&& v.beams[k].tx_angle_bits == le_value(p.subrange(o + 12, o + 20))
                    &&& v.beams[k].rx_angle_bits == le_value(p.subrange(o + 20, o + 28))
                    &&& v.beams[k].reflectivity == p[o + 28] as i8
                    &&& v.beams[k].quality == p[o + 29]
                } by {
                    let o = 96 + 32 * k;
                    lemma_le16_value(p, o);
                    lemma_le64_value(p, o + 4);
                    lemma_le64_value(p, o + 12);
                    lemma_le64_value(p, o + 20);
                }
            }
        }
    }
}

/// The checksum of no bytes is 0, and of one byte is that byte; with
/// `law_checksum_concat` this fixes the checksum of every sequence as the sum
/// of its bytes modulo 2^16.
pub proof fn law_checksum_small_inputs(x: u8)
    ensures
        byte_sum(Seq::<u8>::empty()) % 0x10000 == 0,
        byte_sum(seq![x]) % 0x10000 == x as int,
{
    assert(seq![x].drop_last() =~= Seq::<u8>::empty());
}

} // verus!

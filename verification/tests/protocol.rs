use mbes_reconstructor::protocol::{
    AllFrameParser, ParsedFrame, ProtocolError, StreamingParser, ETX, MSG_DEPTH, MSG_RANGE,
    MSG_SSP, MSG_SVP, STX,
};

fn frame(msg_type: u8, payload: &[u8]) -> Vec<u8> {
    let mut v = vec![STX, msg_type];
    v.extend_from_slice(&(payload.len() as u32).to_le_bytes());
    v.extend_from_slice(payload);
    v.push(0);
    v.push(ETX);
    v
}

fn svp_payload(ping: u32, time: f64, points: &[(f64, f64)]) -> Vec<u8> {
    let mut p = Vec::new();
    p.extend_from_slice(&ping.to_le_bytes());
    p.extend_from_slice(&time.to_le_bytes());
    p.extend_from_slice(&(points.len() as u16).to_le_bytes());
    p.extend_from_slice(&0u16.to_le_bytes());
    for (d, c) in points {
        p.extend_from_slice(&d.to_le_bytes());
        p.extend_from_slice(&c.to_le_bytes());
    }
    p
}

struct Beam {
    number: u16,
    travel: f64,
    tx: f64,
    rx: f64,
    refl: i8,
    quality: u8,
}

fn ping_payload(ping: u32, num_beams: u16, num_valid: u16, beams: &[Beam]) -> Vec<u8> {
    let mut p = Vec::new();
    p.extend_from_slice(&ping.to_le_bytes());
    p.extend_from_slice(&1234.5f64.to_le_bytes());
    p.extend_from_slice(&num_beams.to_le_bytes());
    p.extend_from_slice(&num_valid.to_le_bytes());
    p.extend_from_slice(&0u16.to_le_bytes());
    p.extend_from_slice(&0u16.to_le_bytes());
    for f in [1515.0f32, 48000.0, 30000.0, 1.0, 0.5, 0.001, 200.0] {
        p.extend_from_slice(&f.to_le_bytes());
    }
    for d in [12.5f64, 0.25, -0.5, 0.1, 17.0, -110.0] {
        p.extend_from_slice(&d.to_le_bytes());
    }
    assert_eq!(p.len(), 96);
    for b in beams {
        p.extend_from_slice(&b.number.to_le_bytes());
        p.extend_from_slice(&0u16.to_le_bytes());
        p.extend_from_slice(&b.travel.to_le_bytes());
        p.extend_from_slice(&b.tx.to_le_bytes());
        p.extend_from_slice(&b.rx.to_le_bytes());
        p.push(b.refl as u8);
        p.push(b.quality);
        p.extend_from_slice(&0u16.to_le_bytes());
    }
    p
}

fn beams(n: u16) -> Vec<Beam> {
    (0..n)
        .map(|i| Beam {
            number: i,
            travel: 1.5 + i as f64,
            tx: -0.5 + 0.1 * i as f64,
            rx: 0.25,
            refl: -25 - i as i8,
            quality: 7,
        })
        .collect()
}

#[test]
fn parse_frame_other_type_reports_type_and_size() {
    let p = AllFrameParser::new();
    let f = frame(0x42, &[9, 9, 9]);
    match p.parse_frame(&f) {
        Ok(ParsedFrame::Other { msg_type, size }) => {
            assert_eq!(msg_type, 0x42);
            assert_eq!(size, 3);
        }
        _ => panic!("expected Other"),
    }
}

#[test]
fn parse_frame_decodes_svp() {
    let p = AllFrameParser::new();
    let payload = svp_payload(77, 1_700_000_000.25, &[(0.0, 1500.0), (25.0, 1490.5)]);
    let f = frame(MSG_SVP, &payload);
    match p.parse_frame(&f) {
        Ok(ParsedFrame::Svp(svp)) => {
            assert_eq!(svp.ping_number, 77);
            assert_eq!(f64::from_bits(svp.unix_time_bits), 1_700_000_000.25);
            assert_eq!(svp.num_points, 2);
            assert_eq!(svp.points.len(), 2);
            assert_eq!(f64::from_bits(svp.points[0].depth_bits), 0.0);
            assert_eq!(f64::from_bits(svp.points[0].sound_velocity_bits), 1500.0);
            assert_eq!(f64::from_bits(svp.points[1].depth_bits), 25.0);
            assert_eq!(f64::from_bits(svp.points[1].sound_velocity_bits), 1490.5);
        }
        _ => panic!("expected Svp"),
    }
}

#[test]
fn parse_frame_decodes_ssp_like_svp() {
    let p = AllFrameParser::new();
    let payload = svp_payload(5, 1.0, &[(3.0, 1480.0)]);
    match p.parse_frame(&frame(MSG_SSP, &payload)) {
        Ok(ParsedFrame::Svp(svp)) => {
            assert_eq!(svp.ping_number, 5);
            assert_eq!(svp.points.len(), 1);
            assert_eq!(f64::from_bits(svp.points[0].sound_velocity_bits), 1480.0);
        }
        _ => panic!("expected Svp"),
    }
}

#[test]
fn parse_frame_decodes_depth_ping_with_all_beams() {
    let p = AllFrameParser::new();
    let bs = beams(3);
    let payload = ping_payload(0x0102_0304, 3, 1, &bs);
    match p.parse_frame(&frame(MSG_DEPTH, &payload)) {
        Ok(ParsedFrame::Ping(ping)) => {
            assert_eq!(ping.ping_number, 0x0102_0304);
            assert_eq!(ping.num_beams, 3);
            assert_eq!(ping.beams.len(), 3);
            assert_eq!(f64::from_bits(ping.unix_time_bits), 1234.5);
            assert_eq!(f32::from_bits(ping.sound_velocity_at_tx_bits), 1515.0);
            assert_eq!(f32::from_bits(ping.sample_rate_bits), 48000.0);
            assert_eq!(f32::from_bits(ping.tx_frequency_bits), 30000.0);
            assert_eq!(f32::from_bits(ping.tx_beamwidth_along_bits), 1.0);
            assert_eq!(f32::from_bits(ping.tx_beamwidth_across_bits), 0.5);
            assert_eq!(f64::from_bits(ping.heading_bits), 12.5);
            assert_eq!(f64::from_bits(ping.pitch_bits), 0.25);
            assert_eq!(f64::from_bits(ping.roll_bits), -0.5);
            assert_eq!(f64::from_bits(ping.heave_bits), 0.1);
            assert_eq!(f64::from_bits(ping.latitude_bits), 17.0);
            assert_eq!(f64::from_bits(ping.longitude_bits), -110.0);
            for (i, b) in ping.beams.iter().enumerate() {
                assert_eq!(b.beam_number, i as u16);
                assert_eq!(f64::from_bits(b.travel_time_bits), bs[i].travel);
                assert_eq!(f64::from_bits(b.tx_angle_bits), bs[i].tx);
                assert_eq!(f64::from_bits(b.rx_angle_bits), 0.25);
                assert_eq!(b.reflectivity, bs[i].refl);
                assert_eq!(b.quality, 7);
            }
        }
        _ => panic!("expected Ping"),
    }
}

#[test]
fn parse_frame_range_ping_uses_valid_count() {
    let p = AllFrameParser::new();
    let bs = beams(3);
    let payload = ping_payload(9, 3, 2, &bs);
    match p.parse_frame(&frame(MSG_RANGE, &payload)) {
        Ok(ParsedFrame::Ping(ping)) => {
            assert_eq!(ping.num_beams, 2);
            assert_eq!(ping.beams.len(), 2);
            assert_eq!(ping.beams[1].beam_number, 1);
        }
        _ => panic!("expected Ping"),
    }
}

#[test]
fn parse_frame_short_input() {
    let p = AllFrameParser::new();
    assert!(matches!(
        p.parse_frame(&[STX, 1, 0, 0]),
        Err(ProtocolError::BufferTooShort { need: 8, have: 4 })
    ));
}

#[test]
fn parse_frame_bad_start_byte() {
    let p = AllFrameParser::new();
    let mut f = frame(0x42, &[]);
    f[0] = 0x07;
    assert!(matches!(p.parse_frame(&f), Err(ProtocolError::InvalidSync)));
}

#[test]
fn parse_frame_bad_end_byte() {
    let p = AllFrameParser::new();
    let mut f = frame(0x42, &[1, 2]);
    let last = f.len() - 1;
    f[last] = 0x00;
    assert!(matches!(p.parse_frame(&f), Err(ProtocolError::InvalidSync)));
}

#[test]
fn parse_frame_declared_size_too_large() {
    let p = AllFrameParser::new();
    let mut f = frame(0x42, &[1, 2]);
    f[2] = 100;
    assert!(matches!(
        p.parse_frame(&f),
        Err(ProtocolError::BufferTooShort { need: 108, have: 10 })
    ));
}

#[test]
fn parse_frame_svp_payload_too_short() {
    let p = AllFrameParser::new();
    let f = frame(MSG_SVP, &[0u8; 10]);
    assert!(matches!(
        p.parse_frame(&f),
        Err(ProtocolError::BufferTooShort { need: 16, have: 10 })
    ));
}

#[test]
fn parse_frame_svp_points_missing() {
    let p = AllFrameParser::new();
    let mut payload = svp_payload(1, 0.0, &[(1.0, 1500.0)]);
    payload[12] = 3;
    assert!(matches!(
        p.parse_frame(&frame(MSG_SVP, &payload)),
        Err(ProtocolError::BufferTooShort { need: 48, have: 16 })
    ));
}

#[test]
fn parse_frame_ping_payload_too_short() {
    let p = AllFrameParser::new();
    assert!(matches!(
        p.parse_frame(&frame(MSG_DEPTH, &[0u8; 50])),
        Err(ProtocolError::BufferTooShort { need: 96, have: 50 })
    ));
}

#[test]
fn parse_frame_ping_beams_missing() {
    let p = AllFrameParser::new();
    let payload = ping_payload(1, 4, 0, &beams(1));
    assert!(matches!(
        p.parse_frame(&frame(MSG_DEPTH, &payload)),
        Err(ProtocolError::BufferTooShort { need: 128, have: 32 })
    ));
}

#[test]
fn parse_frame_accepts_wrong_checksum() {
    let p = AllFrameParser::new();
    let mut f = frame(0x42, &[1, 2, 3]);
    let n = f.len();
    f[n - 2] = 0xEE;
    assert!(matches!(p.parse_frame(&f), Ok(ParsedFrame::Other { msg_type: 0x42, size: 3 })));
}

#[test]
fn parse_frame_ignores_trailing_bytes() {
    let p = AllFrameParser::new();
    let f = frame(MSG_SVP, &svp_payload(3, 2.0, &[(1.0, 1499.0)]));
    let mut longer = f.clone();
    longer.extend_from_slice(&[STX, 0xFF, 0xFF, 7]);
    let a = p.parse_frame(&f);
    let b = p.parse_frame(&longer);
    match (a, b) {
        (Ok(ParsedFrame::Svp(x)), Ok(ParsedFrame::Svp(y))) => {
            assert_eq!(x.ping_number, y.ping_number);
            assert_eq!(x.points, y.points);
            assert_eq!(x.unix_time_bits, y.unix_time_bits);
        }
        _ => panic!("both should decode"),
    }
}

#[test]
fn find_next_frame_skips_garbage() {
    let p = AllFrameParser::new();
    let mut buf = vec![0xAA, 0xBB, 0xCC];
    buf.extend(frame(0x42, &[1, 2]));
    assert_eq!(p.find_next_frame(&buf), Some((3, 10)));
}

#[test]
fn find_next_frame_none_on_partial() {
    let p = AllFrameParser::new();
    let f = frame(0x42, &[1, 2, 3, 4]);
    assert_eq!(p.find_next_frame(&f[..f.len() - 1]), None);
    assert_eq!(p.find_next_frame(&[]), None);
    assert_eq!(p.find_next_frame(&[STX, 0, 0, 0, 0]), None);
}

#[test]
fn find_next_frame_takes_earliest() {
    let p = AllFrameParser::new();
    let mut buf = frame(0x01, &[]);
    buf.extend(frame(0x02, &[5]));
    assert_eq!(p.find_next_frame(&buf), Some((0, 8)));
}

#[test]
fn find_next_frame_skips_bogus_size() {
    let p = AllFrameParser::new();
    let mut buf = vec![STX, 0x10, 0xFF, 0xFF, 0xFF, 0xFF, 0, 0];
    buf.extend(frame(0x42, &[]));
    assert_eq!(p.find_next_frame(&buf), Some((8, 8)));
}

#[test]
fn found_frame_never_reports_sync_error() {
    let p = AllFrameParser::new();
    let mut buf = vec![STX, STX, 0x99];
    buf.extend(frame(MSG_SVP, &[0u8; 4]));
    let (s, n) = p.find_next_frame(&buf).unwrap();
    let r = p.parse_frame(&buf[s..s + n]);
    assert!(matches!(r, Err(ProtocolError::BufferTooShort { need: 16, have: 4 })));
}

#[test]
fn compute_checksum_sums_bytes() {
    let p = AllFrameParser::new();
    assert_eq!(p.compute_checksum(&[]), 0);
    assert_eq!(p.compute_checksum(&[1, 2, 3, 250]), 256);
    assert_eq!(p.compute_checksum(&[0xFF; 300]), 10964);
}

#[test]
fn compute_checksum_of_concatenation() {
    let p = AllFrameParser::new();
    let a = vec![0xFFu8; 200];
    let b = vec![0x7Fu8; 999];
    let mut ab = a.clone();
    ab.extend_from_slice(&b);
    let expect = p.compute_checksum(&a).wrapping_add(p.compute_checksum(&b));
    assert_eq!(p.compute_checksum(&ab), expect);
}

#[test]
fn streaming_parser_drains_frames_in_order() {
    let mut s = StreamingParser::new();
    let mut bytes = vec![0x00, 0x01];
    bytes.extend(frame(0x42, &[1]));
    bytes.extend(frame(MSG_SVP, &svp_payload(8, 0.0, &[])));
    bytes.extend(frame(0x43, &[]));
    let (first, second) = bytes.split_at(12);
    s.feed(first);
    let r1 = s.drain_frames();
    assert_eq!(r1.len(), 1);
    assert!(matches!(r1[0], Ok(ParsedFrame::Other { msg_type: 0x42, size: 1 })));
    s.feed(second);
    let r2 = s.drain_frames();
    assert_eq!(r2.len(), 2);
    assert!(matches!(&r2[0], Ok(ParsedFrame::Svp(svp)) if svp.ping_number == 8));
    assert!(matches!(r2[1], Ok(ParsedFrame::Other { msg_type: 0x43, size: 0 })));
    assert!(s.drain_frames().is_empty());
}

#[test]
fn streaming_parser_keeps_partial_frame() {
    let mut s = StreamingParser::default();
    let f = frame(0x50, &[1, 2, 3]);
    s.feed(&f[..5]);
    assert!(s.drain_frames().is_empty());
    s.feed(&f[5..]);
    let r = s.drain_frames();
    assert_eq!(r.len(), 1);
    assert!(matches!(r[0], Ok(ParsedFrame::Other { msg_type: 0x50, size: 3 })));
}

#[test]
fn streaming_parser_reports_payload_errors() {
    let mut s = StreamingParser::new();
    s.feed(&frame(MSG_DEPTH, &[0u8; 10]));
    let r = s.drain_frames();
    assert_eq!(r.len(), 1);
    assert!(matches!(r[0], Err(ProtocolError::BufferTooShort { need: 96, have: 10 })));
}

#[test]
fn default_parser_finds_frames() {
    let p = AllFrameParser::default();
    assert_eq!(p.find_next_frame(&frame(1, &[])), Some((0, 8)));
}

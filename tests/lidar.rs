use xavier_robot::lidar::{
    decode_frame_points, express_scan_request, is_express_scan_descriptor, varbitscale_decode,
    LidarEngine, LidarPoint, LidarRequest, LidarResponse, LidarScan, LidarStatus, ScanPacket,
    ScanPacketParseError, MIN_SCAN_POINTS,
};

#[test]
fn test_varbitscale_decode() {
    let mut scale_level = 0;
    assert_eq!(varbitscale_decode(1000, &mut scale_level), 1488);
    assert_eq!(scale_level, 1);
    scale_level = 0;
    assert_eq!(varbitscale_decode(2000, &mut scale_level), 5760);
    assert_eq!(scale_level, 3);
    scale_level = 0;
    assert_eq!(varbitscale_decode(1500, &mut scale_level), 2928);
    assert_eq!(scale_level, 2);
    scale_level = 0;
    assert_eq!(varbitscale_decode(15000, &mut scale_level), 203136);
    assert_eq!(scale_level, 4);
    scale_level = 0;
    assert_eq!(varbitscale_decode(0, &mut scale_level), 0);
    assert_eq!(scale_level, 0);
}

#[test]
fn varbitscale_row_thresholds() {
    let rows = [(0u32, 0u32, 0u32), (512, 512, 1), (1280, 2048, 2), (1792, 4096, 3), (3328, 16384, 4)];
    for (scaled, value, level) in rows {
        let mut l = 99;
        assert_eq!(varbitscale_decode(scaled, &mut l), value);
        assert_eq!(l, level);
    }
    let mut l = 0;
    assert_eq!(varbitscale_decode(511, &mut l), 511);
    assert_eq!(l, 0);
    assert_eq!(varbitscale_decode(4095, &mut l), 16384 + 767 * 16);
    assert_eq!(l, 4);
}

#[test]
fn varbitscale_round_trips_and_increases() {
    let thresholds = [0u32, 512, 1280, 1792, 3328];
    let bases = [0u32, 1 << 9, 1 << 11, 1 << 12, 1 << 14];
    let mut previous = None;
    for scaled in 0..4096u32 {
        let mut level = 0;
        let value = varbitscale_decode(scaled, &mut level);
        let row = level as usize;
        let offset = value - bases[row];
        assert_eq!(offset % (1 << level), 0);
        assert_eq!(thresholds[row] + (offset >> level), scaled);
        if let Some(p) = previous {
            assert!(value > p);
        }
        previous = Some(value);
    }
}

fn frame(start_angle_q6: u16, start_bit: bool, cabins: &[u32; 32]) -> [u8; 132] {
    let mut b = [0u8; 132];
    b[2] = (start_angle_q6 & 0xFF) as u8;
    b[3] = ((start_angle_q6 >> 8) as u8 & 0x7F) | if start_bit { 0x80 } else { 0 };
    for (i, c) in cabins.iter().enumerate() {
        b[4 + 4 * i..8 + 4 * i].copy_from_slice(&c.to_le_bytes());
    }
    let checksum = b[2..].iter().fold(0u8, |acc, x| acc ^ x);
    b[0] = 0xA0 | (checksum & 0x0F);
    b[1] = 0x50 | (checksum >> 4);
    b
}

fn cabin(major: u32, predict1: i32, predict2: i32) -> u32 {
    major | (((predict1 as u32) & 0x3FF) << 12) | (((predict2 as u32) & 0x3FF) << 22)
}

fn packet(start_angle_q6: u16, cabins: [u32; 32]) -> ScanPacket {
    ScanPacket { timestamp: 0, start_bit: false, start_angle_q6, ultra_cabins: cabins }
}

#[test]
fn frame_parses_fields() {
    let mut cabins = [0u32; 32];
    for (i, c) in cabins.iter_mut().enumerate() {
        *c = 0x0102_0304u32.wrapping_mul(i as u32 + 1);
    }
    let bytes = frame(0x1234, true, &cabins);
    let p = ScanPacket::from_buffer(&bytes, 77).ok().unwrap();
    assert_eq!(p.timestamp, 77);
    assert!(p.start_bit);
    assert_eq!(p.start_angle_q6, 0x1234);
    assert_eq!(p.ultra_cabins, cabins);

    let bytes = frame(23039, false, &[0; 32]);
    let p = ScanPacket::from_buffer(&bytes, 0).ok().unwrap();
    assert!(!p.start_bit);
    assert_eq!(p.start_angle_q6, 23039);
}

#[test]
fn frame_checksum_is_xor_of_payload() {
    let cabins = [0xDEAD_BEEFu32; 32];
    let bytes = frame(100, false, &cabins);
    let xor = bytes[2..].iter().fold(0u8, |acc, x| acc ^ x);
    assert_eq!((bytes[0] & 0x0F) | (bytes[1] << 4), xor);
    assert!(ScanPacket::from_buffer(&bytes, 0).is_ok());
}

#[test]
fn frame_rejects_bad_sync() {
    let mut bytes = frame(100, false, &[7; 32]);
    bytes[1] ^= 0x10;
    assert_eq!(ScanPacket::from_buffer(&bytes, 0).err(), Some(ScanPacketParseError::SyncByteMismatch));
    let mut bytes = frame(100, false, &[7; 32]);
    bytes[0] = 0xB0 | (bytes[0] & 0x0F);
    assert_eq!(ScanPacket::from_buffer(&bytes, 0).err(), Some(ScanPacketParseError::SyncByteMismatch));
}

#[test]
fn frame_rejects_bad_checksum() {
    let mut bytes = frame(100, false, &[7; 32]);
    bytes[77] ^= 0x01;
    assert_eq!(ScanPacket::from_buffer(&bytes, 0).err(), Some(ScanPacketParseError::ChecksumMismatch));
    let mut bytes = frame(100, false, &[7; 32]);
    bytes[0] ^= 0x01;
    assert_eq!(ScanPacket::from_buffer(&bytes, 0).err(), Some(ScanPacketParseError::ChecksumMismatch));
}

#[test]
fn cabins_give_three_points_each() {
    let prev = packet(0, [cabin(100, 5, -3); 32]);
    let next = packet(960, [cabin(100, 5, -3); 32]);
    let points = decode_frame_points(&prev, &next);
    assert_eq!(points.len(), 96);
    for (k, p) in points.iter().enumerate() {
        assert_eq!(p.angle_q6 as usize, 10 * k);
        assert_eq!(p.index as usize, k % 3);
        let expected = [100, 105, 97][k % 3];
        assert_eq!(p.distance_q0, expected);
    }
}

#[test]
fn cabin_uses_scale_level() {
    let mut cabins = [cabin(1000, 3, -2); 32];
    cabins[0] = cabin(1000, 3, -2);
    let prev = packet(0, cabins);
    let next = packet(96, [cabin(2000, 0, 0); 32]);
    let points = decode_frame_points(&prev, &next);
    // 1000 stands for 1488 at level 1; 3 << 1 = 6, -2 << 1 = -4.
    assert_eq!(points[0], LidarPoint { angle_q6: 0, distance_q0: 1488, index: 0 });
    assert_eq!(points[1], LidarPoint { angle_q6: 1, distance_q0: 1494, index: 1 });
    assert_eq!(points[2], LidarPoint { angle_q6: 2, distance_q0: 1484, index: 2 });
    // The last cabin reads its neighbour from the next frame: 2000 is 5760 at level 3.
    let last = &points[95];
    assert_eq!(last.index, 2);
    assert_eq!(last.distance_q0, 5760 - 16);
    assert_eq!(last.angle_q6, 95);
}

#[test]
fn cabin_gap_fill_and_sentinels() {
    let mut cabins = [cabin(0, 511, -512); 32];
    cabins[0] = cabin(0, 4, 511);
    cabins[1] = cabin(200, -512, 511);
    let prev = packet(0, cabins);
    let next = packet(0, [cabin(0, 511, 511); 32]);
    let points = decode_frame_points(&prev, &next);
    // Only the first cabin's second sample survives: its major distance is 0
    // and it borrows the neighbour's 200; the next cabin's own major is kept.
    assert_eq!(points.len(), 2);
    assert_eq!(points[0].distance_q0, 204);
    assert_eq!(points[0].index, 1);
    assert_eq!(points[1].distance_q0, 200);
    assert_eq!(points[1].index, 0);
}

#[test]
fn cabin_negative_distance_keeps_low_bits() {
    let mut cabins = [cabin(0, 511, 511); 32];
    cabins[0] = cabin(0, -5, 511);
    let prev = packet(0, cabins);
    let next = packet(0, [cabin(0, 511, 511); 32]);
    let points = decode_frame_points(&prev, &next);
    assert_eq!(points.len(), 1);
    assert_eq!(points[0].distance_q0, (1 << 30) - 5);
}

#[test]
fn angles_wrap_modulo_full_turn() {
    let prev = packet(23000, [cabin(100, 511, 511); 32]);
    let next = packet(40, [cabin(100, 511, 511); 32]);
    let points = decode_frame_points(&prev, &next);
    assert_eq!(points.len(), 32);
    // The step is (40 - 23000) mod 23040 = 80.
    assert_eq!(points[0].angle_q6, 23000);
    assert_eq!(points[15].angle_q6, 23000 + 80 * 45 / 96);
    assert_eq!(points[31].angle_q6, (23000 + 80 * 93 / 96) % 23040);
}

#[test]
fn engine_splits_scans_when_angle_wraps() {
    let mut engine = LidarEngine::new();
    let cabins = [cabin(100, 511, 511); 32];
    assert!(!engine.push_packet(packet(0, cabins)));
    assert!(engine.scans.is_empty());
    assert!(!engine.push_packet(packet(960, cabins)));
    assert_eq!(engine.scans.len(), 1);
    assert_eq!(engine.scans[0].points.len(), 32);
    assert!(engine.get_most_recent_scan().is_none());
    // From 960 to 720 the step is 22800: the last cabin of the frame at 960
    // lies past a full turn, at angle 7.
    assert!(engine.push_packet(packet(720, cabins)));
    assert_eq!(engine.scans.len(), 2);
    let complete = engine.get_most_recent_scan().unwrap();
    assert_eq!(complete.points.len(), 63);
    assert!(complete.points.windows(2).all(|w| w[0].angle_q6 <= w[1].angle_q6));
    assert_eq!(engine.scans[1].points.len(), 1);
    assert_eq!(engine.scans[1].points[0].angle_q6, 7);
    assert!(!engine.push_packet(packet(1440, cabins)));
    assert_eq!(engine.scan_packets.len(), 4);
    // The scans read end to end are the decoded points, in order.
    let mut decoded = Vec::new();
    for k in 1..engine.scan_packets.len() {
        decoded.extend(decode_frame_points(&engine.scan_packets[k - 1], &engine.scan_packets[k]));
    }
    let held: Vec<LidarPoint> = engine.scans.iter().flat_map(|s| s.points.iter().copied()).collect();
    assert_eq!(held, decoded);
    for k in 1..engine.scans.len() {
        let previous = engine.scans[k - 1].points.last().unwrap();
        assert!(previous.angle_q6 > engine.scans[k].points[0].angle_q6);
    }
}

#[test]
fn engine_process_frame() {
    let mut engine = LidarEngine::new();
    let cabins = [cabin(300, 511, 511); 32];
    assert_eq!(engine.process_frame(&frame(0, true, &cabins), 1), Ok(false));
    let mut bad = frame(960, false, &cabins);
    bad[50] ^= 0xFF;
    assert_eq!(engine.process_frame(&bad, 2), Err(ScanPacketParseError::ChecksumMismatch));
    assert_eq!(engine.scan_packets.len(), 1);
    assert!(engine.scans.is_empty());
    let mut unaligned = frame(960, false, &cabins);
    unaligned[0] = 0;
    assert_eq!(engine.process_frame(&unaligned, 2), Err(ScanPacketParseError::SyncByteMismatch));
    assert_eq!(engine.process_frame(&frame(960, false, &cabins), 3), Ok(false));
    assert_eq!(engine.scan_packets.len(), 2);
    assert_eq!(engine.scan_packets[1].timestamp, 3);
    assert_eq!(engine.scans.len(), 1);
    assert_eq!(engine.scans[0].points[0].distance_q0, 300);
}

#[test]
fn scan_point_minimum() {
    let p = LidarPoint { angle_q6: 0, distance_q0: 1, index: 0 };
    let scan = LidarScan { points: vec![p; MIN_SCAN_POINTS] };
    assert!(scan.has_min_points(MIN_SCAN_POINTS));
    let short = LidarScan { points: vec![p; MIN_SCAN_POINTS - 1] };
    assert!(!short.has_min_points(MIN_SCAN_POINTS));
}

#[test]
fn request_bytes() {
    assert_eq!(LidarRequest::Stop.to_bytes(), [0xA5, 0x25]);
    assert_eq!(LidarRequest::Reset.to_bytes(), [0xA5, 0x40]);
    assert_eq!(LidarRequest::GetDeviceInfo.to_bytes(), [0xA5, 0x50]);
    assert_eq!(LidarRequest::GetDeviceHealth.to_bytes(), [0xA5, 0x52]);
    assert_eq!(express_scan_request(), [0xA5, 0x82, 0x05, 0x03, 0x00, 0x00, 0x00, 0x00, 0x21]);
}

#[test]
fn express_scan_descriptor() {
    let good = [0xA5, 0x5A, 0x84, 0x00, 0x00, 0x40, 0x84];
    assert!(is_express_scan_descriptor(&good));
    for i in 0..7 {
        let mut bad = good;
        bad[i] ^= 0x01;
        assert!(!is_express_scan_descriptor(&bad));
    }
}

#[test]
fn device_info_response() {
    let descriptor = [0xA5, 0x5A, 0x14, 0x00, 0x00, 0x00, 0x04];
    let mut payload = [0u8; 20];
    for (i, b) in payload.iter_mut().enumerate() {
        *b = i as u8 + 1;
    }
    let r = LidarResponse::from_bytes(&descriptor, &payload).unwrap();
    let LidarResponse::DeviceInfo { model, firmware_minor, firmware_major, hardware, serial } = r;
    assert_eq!((model, firmware_minor, firmware_major, hardware), (1, 2, 3, 4));
    assert_eq!(serial, [5, 6, 7, 8, 9, 10, 11, 12, 13, 14, 15, 16, 17, 18, 19, 20]);
    let bad = [0xA5, 0x5B, 0x14, 0x00, 0x00, 0x00, 0x04];
    assert!(LidarResponse::from_bytes(&bad, &payload).is_none());
}

#[test]
fn lidar_status_compares() {
    assert_eq!(LidarStatus::Healthy, LidarStatus::Healthy);
    assert_ne!(LidarStatus::ProtocolError, LidarStatus::UnknownError);
    assert_ne!(LidarStatus::Initializing, LidarStatus::Healthy);
}

use xavier_robot::lidar::{
    lidar_step, LidarAction, LidarEvent, LidarLink, LidarStep, BUSY_DELAY_MS, POLL_PERIOD_MS, REOPEN_DELAY_MS,
};

#[test]
fn lidar_task_searches_and_handshakes() {
    let s = lidar_step(LidarLink::Searching, LidarStatus::Initializing, LidarEvent::OpenFailed { busy: true });
    assert_eq!(s.action, LidarAction::Open { delay_ms: BUSY_DELAY_MS });
    let s = lidar_step(s.link, s.status, LidarEvent::OpenFailed { busy: false });
    assert_eq!(s.action, LidarAction::Open { delay_ms: REOPEN_DELAY_MS });
    let s = lidar_step(s.link, s.status, LidarEvent::Opened);
    assert_eq!((s.link, s.action), (LidarLink::Handshaking, LidarAction::Handshake));
    let s = lidar_step(s.link, s.status, LidarEvent::HandshakeTimedOut);
    assert_eq!((s.link, s.action), (LidarLink::Handshaking, LidarAction::Handshake));
    let wrong = [0xA5, 0x5A, 0x84, 0x00, 0x00, 0x40, 0x81];
    let s = lidar_step(s.link, s.status, LidarEvent::Descriptor { bytes: wrong });
    assert_eq!((s.link, s.action), (LidarLink::Handshaking, LidarAction::Handshake));
    let right = [0xA5, 0x5A, 0x84, 0x00, 0x00, 0x40, 0x84];
    let s = lidar_step(s.link, s.status, LidarEvent::Descriptor { bytes: right });
    assert_eq!(
        s,
        LidarStep {
            link: LidarLink::Streaming,
            action: LidarAction::Poll { delay_ms: 0 },
            status: LidarStatus::Initializing,
        }
    );
}

#[test]
fn lidar_task_streams_frames() {
    let st = LidarLink::Streaming;
    let s = lidar_step(st, LidarStatus::Initializing, LidarEvent::NoFrame);
    assert_eq!(s.action, LidarAction::Poll { delay_ms: POLL_PERIOD_MS });
    assert_eq!(s.status, LidarStatus::Initializing);
    let s = lidar_step(st, LidarStatus::Initializing, LidarEvent::FrameDecoded { completed: Some(3) });
    assert_eq!(s.action, LidarAction::Poll { delay_ms: POLL_PERIOD_MS });
    assert_eq!(s.status, LidarStatus::Healthy);
    let s = lidar_step(st, LidarStatus::Healthy, LidarEvent::FrameDecoded { completed: Some(MIN_SCAN_POINTS) });
    assert_eq!(s.action, LidarAction::Publish);
    let s = lidar_step(
        st,
        LidarStatus::Healthy,
        LidarEvent::FrameRejected { error: ScanPacketParseError::SyncByteMismatch },
    );
    assert_eq!((s.action, s.status), (LidarAction::SkipByte, LidarStatus::ProtocolError));
    let s = lidar_step(
        st,
        LidarStatus::Healthy,
        LidarEvent::FrameRejected { error: ScanPacketParseError::ChecksumMismatch },
    );
    assert_eq!(
        (s.action, s.status),
        (LidarAction::Poll { delay_ms: POLL_PERIOD_MS }, LidarStatus::ProtocolError)
    );
    let s = lidar_step(st, LidarStatus::Healthy, LidarEvent::IoFailed);
    assert_eq!(
        s,
        LidarStep {
            link: LidarLink::Searching,
            action: LidarAction::Open { delay_ms: 0 },
            status: LidarStatus::UnknownError,
        }
    );
    let s = lidar_step(LidarLink::Searching, LidarStatus::Healthy, LidarEvent::NoFrame);
    assert_eq!(s.status, LidarStatus::UnknownError);
}

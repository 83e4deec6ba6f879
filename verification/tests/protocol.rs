use corsaconnect::protocol::{InputPacket, TelemetryPacket, INPUT_LEN, PROTO_VERSION, TELEMETRY_LEN};

fn input_bytes() -> Vec<u8> {
    vec![0x43, 0x43, 7, 0x34, 0x12, 0xFE, 0xFF, 200, 100, 50, 0x00, 0x80, 0xFF, 0x7F]
}

#[test]
fn input_parse_reads_every_field() {
    let p = InputPacket::parse(&input_bytes()).expect("a well-formed packet");
    assert_eq!(p.buttons, 0x1234);
    assert_eq!(p.steer, -2);
    assert_eq!(p.throttle, 200);
    assert_eq!(p.brake, 100);
    assert_eq!(p.clutch, 50);
    assert_eq!(p.joy_x, i16::MIN);
    assert_eq!(p.joy_y, i16::MAX);
}

#[test]
fn input_parse_ignores_trailing_bytes() {
    let mut b = input_bytes();
    b.extend_from_slice(&[9, 9, 9]);
    assert_eq!(InputPacket::parse(&b), InputPacket::parse(&input_bytes()));
    assert!(InputPacket::parse(&b).is_some());
}

#[test]
fn input_parse_rejects_short_packets() {
    let b = input_bytes();
    assert_eq!(INPUT_LEN, 14);
    assert!(InputPacket::parse(&b[..13]).is_none());
    assert!(InputPacket::parse(&[]).is_none());
}

#[test]
fn input_parse_rejects_other_traffic() {
    let mut wrong_magic = input_bytes();
    wrong_magic[1] = b'T';
    assert!(InputPacket::parse(&wrong_magic).is_none());
    let mut old_version = input_bytes();
    old_version[2] = 5;
    assert!(InputPacket::parse(&old_version).is_none());
    assert_eq!(PROTO_VERSION, 7);
}

#[test]
fn neutral_input_is_all_zero() {
    let n = InputPacket::neutral();
    assert_eq!(
        n,
        InputPacket { steer: 0, throttle: 0, brake: 0, clutch: 0, buttons: 0, joy_x: 0, joy_y: 0 }
    );
}

#[test]
fn packet_matches_the_shape_picopanel_unpacks() {
    let packet = TelemetryPacket::default().encode();
    assert_eq!(packet.len(), 86);
    assert_eq!(&packet[..2], b"CT");
    assert_eq!(packet[2], PROTO_VERSION);
}

#[test]
fn telemetry_fields_land_at_their_offsets() {
    let mut t = TelemetryPacket::zeroed();
    t.gear = -1;
    t.speed_kmh = 88.0f32.to_bits();
    t.rpm = 4200.0f32.to_bits();
    t.redline = 6500.0f32.to_bits();
    t.flags = 0xBEEF;
    t.show_lights = 0x0102_0304;
    t.display1[0] = b'H';
    t.display2[15] = b'Z';
    let b = t.encode();
    assert_eq!(b.len(), TELEMETRY_LEN);
    assert_eq!(b[3], 0xFF);
    assert_eq!(f32::from_le_bytes([b[4], b[5], b[6], b[7]]), 88.0);
    assert_eq!(f32::from_le_bytes([b[8], b[9], b[10], b[11]]), 4200.0);
    assert_eq!(f32::from_le_bytes([b[44], b[45], b[46], b[47]]), 6500.0);
    assert_eq!(u16::from_le_bytes([b[48], b[49]]), 0xBEEF);
    assert_eq!(u32::from_le_bytes([b[50], b[51], b[52], b[53]]), 0x0102_0304);
    assert_eq!(b[54], b'H');
    assert_eq!(b[85], b'Z');
}

#[test]
fn encoded_input_parses_back() {
    let p = InputPacket { steer: -32768, throttle: 1, brake: 254, clutch: 128, buttons: 0xF00F, joy_x: 32767, joy_y: -1 };
    let b = p.encode();
    assert_eq!(b.len(), INPUT_LEN);
    assert_eq!(&b[..3], &[b'C', b'C', 7]);
    assert_eq!(InputPacket::parse(&b), Some(p));
    assert_eq!(InputPacket::neutral().encode(), vec![0x43, 0x43, 7, 0, 0, 0, 0, 0, 0, 0, 0, 0, 0, 0]);
}

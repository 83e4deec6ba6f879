use corsaconnect::freetrack::{npclient_location, FtHandshake, FtWrite, CAM_HEIGHT, CAM_WIDTH, INITIAL_DATA_ID};
use corsaconnect::launcher::{
    copy_note, head_still_running, initial_device, mirror_address, mirror_at_start, record_pico, server_still_running, trimmed, yield_label,
    MirrorStart,
};
use corsaconnect::motionsim;
use corsaconnect::outgauge;
use corsaconnect::prefs::Prefs;
use corsaconnect::scstelemetry::{dash_lights, truck_gear};
use corsaconnect::server::DeviceMode;

#[test]
fn handshake_answers_a_new_game_then_ticks() {
    let mut h = FtHandshake::new();
    assert_eq!(h.step(0, 5), FtWrite { reset_table: false, game_id2: None, data_id: 6 });
    assert_eq!(h.step(1234, 6), FtWrite { reset_table: true, game_id2: Some(1234), data_id: 0 });
    assert_eq!(h.seen_game_id, 1234);
    assert_eq!(h.step(1234, u32::MAX), FtWrite { reset_table: false, game_id2: None, data_id: 0 });
    assert_eq!((INITIAL_DATA_ID, CAM_WIDTH, CAM_HEIGHT), (1, 100, 250));
}

#[test]
fn registry_location_uses_forward_slashes() {
    assert_eq!(
        npclient_location("C:\\Users\\me\\AppData\\Local\\CorsaConnect"),
        "C:/Users/me/AppData/Local/CorsaConnect/"
    );
    assert_eq!(npclient_location("C:\\dir\\"), "C:/dir/");
    assert_eq!(npclient_location("/already/"), "/already/");
    assert_eq!(npclient_location(""), "/");
}

#[test]
fn launcher_prefers_the_wheel() {
    assert_eq!(initial_device(true), DeviceMode::Wheel);
    assert_eq!(initial_device(false), DeviceMode::Xbox360);
}

#[test]
fn saved_mirror_choice_wins_over_the_environment() {
    assert_eq!(mirror_at_start(&Prefs::parse("picopanel.mirror=true\n")), MirrorStart::Typed);
    assert_eq!(mirror_at_start(&Prefs::parse("picopanel.mirror=false\n")), MirrorStart::Off);
    assert_eq!(mirror_at_start(&Prefs::parse("other=1\n")), MirrorStart::Keep);
}

#[test]
fn card_remembers_its_choices() {
    let mut p = Prefs::new();
    assert_eq!(mirror_address(&p), "127.0.0.1:5051");
    record_pico(&mut p, true, "  10.0.0.5:5051 ", Some("C:\\PicoPanel\\PicoPanel.exe"));
    assert_eq!(p.get("picopanel.mirror"), Some("true"));
    assert_eq!(p.get("picopanel.addr"), Some("10.0.0.5:5051"));
    assert_eq!(p.get("picopanel.exe"), Some("C:\\PicoPanel\\PicoPanel.exe"));
    assert_eq!(mirror_address(&p), "10.0.0.5:5051");
    record_pico(&mut p, false, "x", None);
    assert_eq!(p.get("picopanel.mirror"), Some("false"));
    assert_eq!(p.get("picopanel.exe"), Some("C:\\PicoPanel\\PicoPanel.exe"));
    assert_eq!(trimmed(" \t a b \n"), "a b");
}

#[test]
fn card_status_lines() {
    assert_eq!(yield_label(Some(true)), "Leaves port 4444 to us");
    assert_eq!(yield_label(Some(false)), "Still binding 4444 itself");
    assert_eq!(yield_label(None), "Never saved a setting yet");
    assert_eq!(copy_note(1234, false), "1234 packets copied");
    assert_eq!(copy_note(0, true), "waiting for telemetry from the game");
    assert_eq!(copy_note(0, false), "starts with the server");
}

fn outgauge_packet() -> Vec<u8> {
    let mut b = vec![0u8; 96];
    b[8..10].copy_from_slice(&0x4001u16.to_le_bytes());
    b[10] = 3;
    b[12..16].copy_from_slice(&25.0f32.to_le_bytes());
    b[16..20].copy_from_slice(&3500.0f32.to_le_bytes());
    b[20..24].copy_from_slice(&0.8f32.to_le_bytes());
    b[24..28].copy_from_slice(&90.0f32.to_le_bytes());
    b[28..32].copy_from_slice(&0.5f32.to_le_bytes());
    b[44..48].copy_from_slice(&0x0204u32.to_le_bytes());
    b[48..52].copy_from_slice(&1.0f32.to_le_bytes());
    b[52..56].copy_from_slice(&0.25f32.to_le_bytes());
    b[60..65].copy_from_slice(b"HELLO");
    b[76..81].copy_from_slice(b"WORLD");
    b
}

#[test]
fn outgauge_fields() {
    let g = outgauge::parse(&outgauge_packet()).expect("92+ bytes");
    assert_eq!(g.gear, 3);
    assert_eq!(g.flags, 0x4001);
    assert_eq!(f32::from_bits(g.speed_ms), 25.0);
    assert_eq!(f32::from_bits(g.rpm), 3500.0);
    assert_eq!(f32::from_bits(g.engine_temp), 90.0);
    assert_eq!(g.show_lights, 0x0204);
    assert_eq!(f32::from_bits(g.brake), 0.25);
    assert_eq!(&g.display1[..5], b"HELLO");
    assert_eq!(&g.display2[..5], b"WORLD");
    let t = g.telemetry((25.0f32 * 3.6).to_bits());
    assert_eq!(f32::from_bits(t.speed_kmh), 90.0);
    assert_eq!(t.rpm, g.rpm);
    assert_eq!(t.max_rpm, 0);
    assert!(outgauge::parse(&outgauge_packet()[..91]).is_none());
    assert!(outgauge::parse(&outgauge_packet()[..92]).is_some());
}

#[test]
fn motionsim_fields() {
    let mut b = vec![0u8; 76];
    b[0..4].copy_from_slice(b"BNG1");
    b[16..20].copy_from_slice(&10.0f32.to_le_bytes());
    b[20..24].copy_from_slice(&(-3.0f32).to_le_bytes());
    b[32..36].copy_from_slice(&9.81f32.to_le_bytes());
    b[60..64].copy_from_slice(&1.5f32.to_le_bytes());
    let m = motionsim::parse(&b).expect("a MotionSim packet");
    assert_eq!(f32::from_bits(m.vel[0]), 10.0);
    assert_eq!(f32::from_bits(m.vel[1]), -3.0);
    assert_eq!(f32::from_bits(m.acc[1]), 9.81);
    assert_eq!(f32::from_bits(m.yaw), 1.5);
    assert!(motionsim::parse(&b[..75]).is_none());
    b[3] = b'2';
    assert!(motionsim::parse(&b).is_none());
}

#[test]
fn truck_lights_and_gears() {
    assert_eq!(dash_lights(false, false, false, false), 0);
    assert_eq!(dash_lights(true, false, false, false), 0x4);
    assert_eq!(dash_lights(true, true, true, true), 0x4 | 0x100 | 0x200 | 0x2);
    assert_eq!(dash_lights(false, false, true, true), 0x202);
    assert_eq!(truck_gear(1), 2);
    assert_eq!(truck_gear(0), 1);
    assert_eq!(truck_gear(-1), 0);
    assert_eq!(truck_gear(12), 13);
}

#[test]
fn a_fatal_error_stops_the_server_button() {
    assert!(server_still_running(true, false, false));
    assert!(server_still_running(true, true, true));
    assert!(!server_still_running(true, true, false));
    assert!(!server_still_running(false, false, true));
}

#[test]
fn a_failed_head_thread_stops_the_head_button() {
    assert!(head_still_running(true, true, true));
    assert!(head_still_running(true, false, false));
    assert!(!head_still_running(true, false, true));
    assert!(!head_still_running(false, true, false));
}

use corsaconnect::protocol::InputPacket;
use corsaconnect::server::{
    beacon_targets, beacon_tick, idle_gamepad, phone_address, to_gamepad, DeviceMode, Game, LogRing,
    PeerIp, LOG_CAPACITY, PHONE_TELEMETRY_PORT,
};

#[test]
fn games_in_picker_order() {
    let all = Game::all();
    assert_eq!(all, [Game::BeamNg, Game::TruckSim, Game::Wrc10]);
    assert_eq!(Game::BeamNg.name(), "BeamNG.drive");
    assert_eq!(Game::TruckSim.name(), "Euro / American Truck Sim");
    assert_eq!(Game::Wrc10.name(), "WRC 10");
    assert!(Game::BeamNg.hint().contains("OutGauge (127.0.0.1:4444)"));
    assert!(Game::TruckSim.hint().starts_with("Drop the scs-sdk-plugin DLL"));
}

#[test]
fn device_modes() {
    assert_eq!(DeviceMode::all(), [DeviceMode::Wheel, DeviceMode::Xbox360]);
    assert_eq!(DeviceMode::Wheel.name(), "Racing wheel (vJoy)");
    assert_eq!(DeviceMode::Xbox360.name(), "Xbox 360 pad (ViGEmBus)");
    assert_eq!(DeviceMode::Wheel.dot(), "vJoy wheel");
    assert_eq!(DeviceMode::Xbox360.dot(), "ViGEmBus (virtual controller)");
    assert!(DeviceMode::Wheel.hint().ends_with("Needs the vJoy driver."));
    assert!(DeviceMode::Xbox360.hint().ends_with("Needs ViGEmBus."));
}

#[test]
fn pad_report_maps_each_control() {
    let input = InputPacket { steer: -1234, throttle: 200, brake: 100, clutch: 255, buttons: 0x9001, joy_x: 7, joy_y: -8 };
    let r = to_gamepad(&input);
    assert_eq!(r.buttons, 0x9001);
    assert_eq!(r.thumb_lx, -1234);
    assert_eq!(r.right_trigger, 200);
    assert_eq!(r.left_trigger, 100);
    assert_eq!(r.thumb_ry, 32767);
    assert_eq!(r.thumb_rx, 7);
    assert_eq!(r.thumb_ly, -8);
}

#[test]
fn clutch_scales_onto_the_right_stick() {
    let half = InputPacket { clutch: 128, ..InputPacket::neutral() };
    assert_eq!(to_gamepad(&half).thumb_ry, 16447);
    assert_eq!(to_gamepad(&InputPacket::neutral()).thumb_ry, 0);
    assert_eq!(to_gamepad(&InputPacket::neutral()), idle_gamepad());
}

#[test]
fn beacon_goes_to_broadcast_and_the_lan() {
    assert_eq!(beacon_targets(None), vec![([255, 255, 255, 255], 5001)]);
    assert_eq!(
        beacon_targets(Some([192, 168, 1, 42])),
        vec![([255, 255, 255, 255], 5001), ([192, 168, 1, 255], 5001)]
    );
}

#[test]
fn beacon_targets_refresh_every_tenth_tick() {
    assert_eq!(beacon_tick(0), (1, false));
    assert_eq!(beacon_tick(9), (10, true));
    assert_eq!(beacon_tick(10), (11, false));
    assert_eq!(beacon_tick(19), (20, true));
}

#[test]
fn phone_address_follows_the_sender() {
    let a = PeerIp::V4(0xC0A8_0105);
    let b = PeerIp::V4(0xC0A8_0106);
    assert_eq!(phone_address(None, a), Some((a, PHONE_TELEMETRY_PORT)));
    assert_eq!(phone_address(Some(a), a), None);
    assert_eq!(phone_address(Some(a), b), Some((b, 5001)));
    assert_eq!(phone_address(Some(PeerIp::V6(1)), PeerIp::V4(1)), Some((PeerIp::V4(1), 5001)));
}

#[test]
fn log_keeps_the_newest_lines() {
    let mut log = LogRing::new();
    assert!(log.log_lines().is_empty());
    for i in 0..(LOG_CAPACITY + 5) {
        log.log(format!("line {i}"));
    }
    let lines = log.log_lines();
    assert_eq!(lines.len(), 300);
    assert_eq!(lines[0], "line 5");
    assert_eq!(lines[299], "line 304");
}

#[test]
fn short_log_is_kept_whole() {
    let mut log = LogRing::new();
    log.log("Server stopped.".to_string());
    log.log("Phone connected from 10.0.0.2".to_string());
    assert_eq!(log.log_lines(), vec!["Server stopped.".to_string(), "Phone connected from 10.0.0.2".to_string()]);
}

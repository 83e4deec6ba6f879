use corsaconnect::protocol::InputPacket;
use corsaconnect::vjoy::{
    button, dll_candidates, installed_dll, program_files_dll, status_error, version_string, AxisCaps,
    DeviceCaps, Layout, Position, Probe, Wheel, AXIS_RX, AXIS_RY, AXIS_RZ, AXIS_SL0, AXIS_X, AXIS_Y,
    AXIS_Z, BUTTON_COUNT, VJD_STAT_BUSY, VJD_STAT_FREE, VJD_STAT_MISS, VJD_STAT_OWN,
};

fn caps(present: &[u32], buttons: i32) -> DeviceCaps {
    let mut axes = [AxisCaps { exists: false, max: None }; 8];
    for &u in present {
        axes[(u - AXIS_X) as usize] = AxisCaps { exists: true, max: Some(32767) };
    }
    DeviceCaps { axes, buttons }
}

fn full() -> DeviceCaps {
    caps(&[AXIS_X, AXIS_Y, AXIS_Z, AXIS_RX, AXIS_RY, AXIS_RZ, AXIS_SL0, 0x37], 14)
}

#[test]
fn full_device_layout() {
    let l = Layout::read(&full());
    assert_eq!(l.steer.unwrap().usage, AXIS_X);
    assert_eq!(l.throttle.unwrap().usage, AXIS_Y);
    assert_eq!(l.brake.unwrap().usage, AXIS_RZ);
    assert_eq!(l.clutch.unwrap().usage, AXIS_SL0);
    assert_eq!(l.stick_x.unwrap().usage, AXIS_RX);
    assert_eq!(l.stick_y.unwrap().usage, AXIS_RY);
    assert_eq!(l.buttons, 14);
    assert_eq!(
        l.summary(1),
        "vJoy device 1: steering = X axis (32768 steps), throttle = Y, brake = RZ, clutch = Slider, stick = RX/RY, 14 buttons."
    );
    assert!(l.warnings(1).is_empty());
}

#[test]
fn buttons_note_lists_the_mapping() {
    let l = Layout::read(&full());
    assert_eq!(
        l.buttons_note(),
        "Buttons: 1=A 2=B 3=X 4=Y 5=LB 6=RB 7=Back 8=Start 9=L-stick 10=R-stick 11=D-Up 12=D-Down 13=D-Left 14=D-Right."
    );
}

#[test]
fn short_device_warns_about_each_gap() {
    let l = Layout::read(&caps(&[AXIS_X, AXIS_Y], 8));
    assert!(l.brake.is_none() && l.clutch.is_none() && l.stick_x.is_none());
    assert_eq!(
        l.summary(1),
        "vJoy device 1: steering = X axis (32768 steps), throttle = Y, 8 buttons."
    );
    assert_eq!(
        l.warnings(1),
        vec![
            "Brake has no free axis on vJoy device 1 - add axes in vJoyConf.".to_string(),
            "Clutch has no free axis on vJoy device 1 - add axes in vJoyConf.".to_string(),
            "The free stick needs two spare axes on vJoy device 1 - enable RX and RY in vJoyConf.".to_string(),
            "vJoy device 1 has 8 buttons, so L-stick/R-stick/D-Up/D-Down/D-Left/D-Right are dropped - set it to 14 in vJoyConf.".to_string(),
        ]
    );
}

#[test]
fn pedals_win_axes_over_the_stick() {
    // X, Y, Z and RX only: throttle takes Y, brake Z, clutch RX; the stick gets nothing.
    let l = Layout::read(&caps(&[AXIS_X, AXIS_Y, AXIS_Z, AXIS_RX], 14));
    assert_eq!(l.brake.unwrap().usage, AXIS_Z);
    assert_eq!(l.clutch.unwrap().usage, AXIS_RX);
    assert!(l.stick_x.is_none());
}

#[test]
fn no_x_axis_means_no_wheel() {
    let l = Layout::read(&caps(&[AXIS_Y, AXIS_Z], 14));
    assert!(l.steer.is_none());
    assert_eq!(l.warnings(1)[0], "vJoy device 1 has no X axis - enable X in vJoyConf, it's the steering axis.");
    match Wheel::from_layout(1, &l) {
        Err(e) => assert_eq!(e, "vJoy device 1 has no X axis - enable X in vJoyConf, it's the steering axis."),
        Ok(_) => panic!("a wheel without steering"),
    }
}

#[test]
fn unknown_axis_max_falls_back_to_full_scale() {
    let mut c = full();
    c.axes[0] = AxisCaps { exists: true, max: None };
    c.axes[1] = AxisCaps { exists: true, max: Some(0) };
    let l = Layout::read(&c);
    assert_eq!(l.steer.unwrap().max, 32767);
    assert_eq!(l.throttle.unwrap().max, 32767);
}

#[test]
fn wheel_scales_every_control() {
    let l = Layout::read(&full());
    let w = Wheel::from_layout(1, &l).expect("steering present");
    let input = InputPacket { steer: 0, throttle: 255, brake: 128, clutch: 0, buttons: 0x1000 | 0x0008, joy_x: 2000, joy_y: 100 };
    let p = w.position(&input);
    assert_eq!(p.device, 1);
    assert_eq!(p.axis_x, 16383);
    assert_eq!(p.axis_y, 32767);
    assert_eq!(p.axis_z_rot, 16447);
    assert_eq!(p.slider, 0);
    assert_eq!(p.axis_x_rot, 17383);
    assert_eq!(p.axis_y_rot, 16333);
    assert_eq!(p.buttons, 1 | (1 << 13));
}

#[test]
fn stick_y_saturates_when_inverted() {
    let w = Wheel::from_layout(1, &Layout::read(&full())).unwrap();
    let input = InputPacket { joy_y: i16::MIN, ..InputPacket::neutral() };
    assert_eq!(w.position(&input).axis_y_rot, 32767);
}

#[test]
fn centre_is_the_neutral_report() {
    let w = Wheel::from_layout(1, &Layout::read(&full())).unwrap();
    let c = w.center();
    assert_eq!(c.axis_x, 16383);
    assert_eq!(c.axis_y, 0);
    assert_eq!(c.buttons, 0);
}

#[test]
fn buttons_beyond_the_device_are_dropped() {
    let w = Wheel::from_layout(1, &Layout::read(&caps(&[AXIS_X], 2))).unwrap();
    let input = InputPacket { buttons: 0xFFFF, ..InputPacket::neutral() };
    assert_eq!(w.position(&input).buttons, 0b11);
}

#[test]
fn button_table() {
    assert_eq!(BUTTON_COUNT, 14);
    assert_eq!(button(0), (0x1000, "A"));
    assert_eq!(button(7), (0x0010, "Start"));
    assert_eq!(button(13), (0x0008, "D-Right"));
}

#[test]
fn position_set_writes_the_usage_field() {
    let mut p = Position::new(3);
    p.set(AXIS_SL0, 5);
    p.set(0x37, 6);
    p.set(0x99, 7);
    assert_eq!(p.slider, 5);
    assert_eq!(p.dial, 6);
    assert_eq!(p.device, 3);
    assert_eq!(p.axis_x, 0);
}

#[test]
fn status_messages() {
    assert_eq!(status_error(1, VJD_STAT_FREE), None);
    assert_eq!(status_error(1, VJD_STAT_OWN), None);
    assert_eq!(
        status_error(1, VJD_STAT_BUSY).unwrap(),
        "vJoy device 1 is already used by another program - close it and Launch again."
    );
    assert_eq!(
        status_error(2, VJD_STAT_MISS).unwrap(),
        "vJoy device 2 isn't configured - open vJoyConf, enable device 2, apply."
    );
    assert_eq!(status_error(1, 7).unwrap(), "vJoy device 1 is in an unknown state.");
}

#[test]
fn version_is_two_hex_bytes() {
    assert_eq!(version_string(0x0219), "2.19");
    assert_eq!(version_string(0x0ab0), "a.b0");
    assert_eq!(version_string(-1), "ff.ff");
}

#[test]
fn probe_reports_version_summary_and_warnings() {
    let p = Probe::new(0x0219, &caps(&[AXIS_X, AXIS_Y, AXIS_RZ, AXIS_SL0, AXIS_RX, AXIS_RY], 14), 1);
    assert_eq!(p.version, "2.19");
    assert!(p.summary.starts_with("vJoy device 1: steering = X axis"));
    assert!(p.warnings.is_empty());
}

#[test]
fn dll_locations() {
    assert_eq!(installed_dll("C:\\Program Files\\vJoy\\\\"), "C:\\Program Files\\vJoy\\x64\\vJoyInterface.dll");
    assert_eq!(program_files_dll("C:\\Program Files"), "C:\\Program Files\\vJoy\\x64\\vJoyInterface.dll");
    let all = dll_candidates(&vec!["D:\\vJoy".to_string()], &vec!["C:\\PF".to_string(), "C:\\PF86".to_string()]);
    assert_eq!(
        all,
        vec![
            "vJoyInterface.dll".to_string(),
            "D:\\vJoy\\x64\\vJoyInterface.dll".to_string(),
            "C:\\PF\\vJoy\\x64\\vJoyInterface.dll".to_string(),
            "C:\\PF86\\vJoy\\x64\\vJoyInterface.dll".to_string(),
        ]
    );
}

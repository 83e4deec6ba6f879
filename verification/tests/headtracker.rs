use corsaconnect::headtracker::{
    choose_device, clsid_system_device_enum, downscale_half, exposure_target, green_samples, guid,
    iid_iam_camera_control, iid_iproperty_bag, low_light_message, penalty, preferred_modes, Applied,
    CameraMode, ExposureAction, ExposureControl, FaceWatch, FrameKind, EXPOSURE_FAST, EXPOSURE_SLOW,
};

fn mode(width: u32, height: u32, fps: u32, format: FrameKind) -> CameraMode {
    CameraMode { width, height, fps, format }
}

#[test]
fn exposure_starts_fast_when_boosted() {
    let (c, a) = ExposureControl::start(true);
    assert_eq!(a, Some(ExposureAction::Force { ev: EXPOSURE_FAST }));
    assert_eq!(c.exposure_ev, -5);
    let (c2, a2) = ExposureControl::start(false);
    assert_eq!(a2, None);
    assert!(!c2.low_light_on);
}

#[test]
fn exposure_backs_off_one_stop_after_46_faceless_frames() {
    let (mut c, _) = ExposureControl::start(true);
    for _ in 0..45 {
        assert_eq!(c.frame(false), None);
    }
    assert_eq!(c.no_face_frames, 45);
    assert_eq!(c.frame(false), Some(ExposureAction::LetMoreLight { ev: -4 }));
    assert_eq!(c.no_face_frames, 0);
    for _ in 0..45 {
        c.frame(false);
    }
    assert_eq!(c.frame(false), Some(ExposureAction::LetMoreLight { ev: EXPOSURE_SLOW }));
    for _ in 0..100 {
        assert_eq!(c.frame(false), None);
    }
    assert_eq!(c.exposure_ev, -3);
}

#[test]
fn a_face_resets_the_count() {
    let (mut c, _) = ExposureControl::start(true);
    for _ in 0..40 {
        c.frame(false);
    }
    assert_eq!(c.frame(true), None);
    assert_eq!(c.no_face_frames, 0);
}

#[test]
fn toggling_the_boost() {
    let (mut c, _) = ExposureControl::start(true);
    for _ in 0..46 {
        c.frame(false);
    }
    assert_eq!(c.exposure_ev, -4);
    assert_eq!(c.settings(true), None);
    assert_eq!(c.settings(false), Some(ExposureAction::Restore));
    assert_eq!(c.exposure_ev, EXPOSURE_FAST);
    assert_eq!(c.frame(false), None);
    assert_eq!(c.no_face_frames, 0);
    assert_eq!(c.stop(), None);
    assert_eq!(c.settings(true), Some(ExposureAction::Force { ev: -5 }));
    assert_eq!(c.stop(), Some(ExposureAction::Restore));
}

#[test]
fn low_light_messages() {
    assert_eq!(
        low_light_message(-5),
        "Low light boost: manual exposure 1/32 s (keeps the fps up in the dark)."
    );
    assert_eq!(
        low_light_message(-3),
        "Low light boost: manual exposure 1/8 s (keeps the fps up in the dark)."
    );
    assert_eq!(
        low_light_message(2),
        "Low light boost: manual exposure 1/1 s (keeps the fps up in the dark)."
    );
}

#[test]
fn face_is_lost_after_eleven_bad_frames() {
    let mut w = FaceWatch::new();
    assert!(w.needs_detect(false));
    assert!(!w.needs_detect(true));
    for _ in 0..10 {
        assert!(!w.landmarks(false));
    }
    assert!(!w.needs_detect(true));
    assert!(w.landmarks(false));
    assert!(w.needs_detect(true));
    w.detected();
    assert_eq!(w.low_conf_frames, 0);
    w.landmarks(false);
    assert!(!w.landmarks(true));
    assert_eq!(w.low_conf_frames, 0);
}

#[test]
fn penalty_formula() {
    assert_eq!(penalty(&mode(640, 480, 30, FrameKind::Mjpeg)), 0);
    assert_eq!(penalty(&mode(1280, 720, 30, FrameKind::Mjpeg)), 640 + 240);
    assert_eq!(penalty(&mode(320, 240, 15, FrameKind::Yuyv)), 320 + 240 + 15 * 20 + 8);
    assert_eq!(penalty(&mode(640, 480, 60, FrameKind::Nv12)), 8);
}

#[test]
fn modes_are_ranked_best_first() {
    let modes = vec![
        mode(1920, 1080, 30, FrameKind::Mjpeg),
        mode(640, 480, 5, FrameKind::Mjpeg),
        mode(640, 480, 30, FrameKind::Yuyv),
        mode(640, 480, 30, FrameKind::Mjpeg),
        mode(640, 480, 30, FrameKind::Mjpeg),
        mode(800, 600, 30, FrameKind::Mjpeg),
        mode(640, 360, 30, FrameKind::Mjpeg),
        mode(160, 120, 30, FrameKind::Mjpeg),
    ];
    let best = preferred_modes(&modes);
    assert_eq!(
        best,
        vec![
            mode(640, 480, 30, FrameKind::Mjpeg),
            mode(640, 480, 30, FrameKind::Yuyv),
            mode(640, 360, 30, FrameKind::Mjpeg),
            mode(800, 600, 30, FrameKind::Mjpeg),
        ]
    );
}

#[test]
fn equal_penalties_keep_their_order() {
    let a = mode(650, 480, 30, FrameKind::Mjpeg);
    let b = mode(630, 480, 30, FrameKind::Mjpeg);
    assert_eq!(preferred_modes(&vec![a, b]), vec![a, b]);
    assert_eq!(preferred_modes(&vec![b, a]), vec![b, a]);
}

#[test]
fn only_slow_modes_leave_nothing_to_try() {
    let modes = vec![mode(640, 480, 9, FrameKind::Mjpeg), mode(1280, 720, 1, FrameKind::Yuyv)];
    assert!(preferred_modes(&modes).is_empty());
    assert!(preferred_modes(&Vec::new()).is_empty());
}

#[test]
fn device_by_name_or_the_first() {
    let names = vec!["".to_string(), "Integrated Camera".to_string(), "USB Cam".to_string()];
    assert_eq!(choose_device(&names, &"USB Cam".to_string()), Some(2));
    assert_eq!(choose_device(&names, &"Missing".to_string()), Some(0));
    assert_eq!(choose_device(&names, &"".to_string()), Some(0));
    assert_eq!(choose_device(&Vec::new(), &"USB Cam".to_string()), None);
}

#[test]
fn guids_in_memory_order() {
    let g = guid(0x62BE5D10, 0x60EB, 0x11d0, [0xBD, 0x3B, 0x00, 0xA0, 0xC9, 0x11, 0xCE, 0x86]);
    assert_eq!(g, [0x10, 0x5D, 0xBE, 0x62, 0xEB, 0x60, 0xd0, 0x11, 0xBD, 0x3B, 0x00, 0xA0, 0xC9, 0x11, 0xCE, 0x86]);
    assert_eq!(clsid_system_device_enum(), g);
    assert_eq!(iid_iam_camera_control()[0..4], [0x70, 0x33, 0xE1, 0xC6]);
    assert_eq!(iid_iproperty_bag()[15], 0x51);
}

#[test]
fn exposure_is_clamped_to_the_camera_range() {
    assert_eq!(exposure_target(-5, -11, -2), -5);
    assert_eq!(exposure_target(-5, -3, 0), -3);
    assert_eq!(exposure_target(-5, -13, -7), -7);
    let a = Applied::default();
    assert!(!a.exposure && !a.gain);
}

#[test]
fn preview_takes_every_other_pixel() {
    let (fw, fh) = (4usize, 2usize);
    let rgb: Vec<u8> = (0..(fw * fh * 3) as u8).collect();
    let small = downscale_half(&rgb, fw, fh);
    assert_eq!(small, vec![0, 1, 2, 6, 7, 8]);
    let odd = downscale_half(&rgb, 3, 2);
    assert_eq!(odd, vec![0, 1, 2]);
}

#[test]
fn green_channel_is_sampled_every_sixteenth_pixel() {
    assert_eq!(green_samples(&[]), (0, 0));
    assert_eq!(green_samples(&[9]), (0, 0));
    assert_eq!(green_samples(&[9, 7, 5]), (7, 1));
    let mut frame = vec![0u8; 100];
    frame[1] = 10;
    frame[49] = 20;
    frame[97] = 30;
    frame[50] = 99;
    assert_eq!(green_samples(&frame), (60, 3));
    assert_eq!(green_samples(&frame[..97]), (30, 2));
    assert_eq!(green_samples(&frame[..98]), (60, 3));
}

use corsaconnect::npclient::{
    cksum, enhance, seal_tir_data, sig_app, sig_dll, TirSession, TirSignature, NP_VERSION,
    STATUS_DISABLED, STATUS_OK, TIR_DATA_LEN,
};

/// The TIR5 checksum, written out the way the games compute it.
fn reference_cksum(buf: &[u8]) -> u32 {
    let size = buf.len();
    if size == 0 {
        return 0;
    }
    let mut c: i32 = size as i32;
    let mut i = 0usize;
    for _ in 0..(size >> 2) {
        let a0 = i16::from_le_bytes([buf[i], buf[i + 1]]) as i32;
        let mut a2 = i16::from_le_bytes([buf[i + 2], buf[i + 3]]) as i32;
        i += 4;
        c = c.wrapping_add(a0);
        a2 ^= c.wrapping_shl(5);
        a2 = a2.wrapping_shl(11);
        c ^= a2;
        c = c.wrapping_add(c >> 11);
    }
    let rem = size & 3;
    let tail: i32 = match rem {
        3 => {
            let a0 = i16::from_le_bytes([buf[i], buf[i + 1]]) as i32;
            let a2 = buf[i + 2] as i8 as i32;
            c = c.wrapping_add(a0);
            let a2 = a2.wrapping_shl(2) ^ c;
            c ^= a2.wrapping_shl(16);
            c >> 11
        }
        2 => {
            let a2 = i16::from_le_bytes([buf[i], buf[i + 1]]) as i32;
            c = c.wrapping_add(a2);
            c ^= c.wrapping_shl(11);
            c >> 17
        }
        1 => {
            let a2 = buf[i] as i8 as i32;
            c = c.wrapping_add(a2);
            c ^= c.wrapping_shl(10);
            c >> 1
        }
        _ => 0,
    };
    if rem != 0 {
        c = c.wrapping_add(tail);
    }
    c ^= c.wrapping_shl(3);
    c = c.wrapping_add(c >> 5);
    c ^= c.wrapping_shl(4);
    c = c.wrapping_add(c >> 17);
    c ^= c.wrapping_shl(25);
    c = c.wrapping_add(c >> 6);
    c as u32
}

fn reference_enhance(buf: &mut [u8], table: &[u8; 8]) {
    let mut table_ptr = 0usize;
    let mut var: u8 = 0x88;
    let mut size = buf.len();
    if size == 0 {
        return;
    }
    loop {
        size -= 1;
        let tmp = buf[size];
        buf[size] = tmp ^ table[table_ptr] ^ var;
        var = var.wrapping_add((size as u8).wrapping_add(tmp));
        table_ptr += 1;
        if table_ptr >= table.len() {
            table_ptr = 0;
        }
        if size == 0 {
            break;
        }
    }
}

fn sample(len: usize) -> Vec<u8> {
    (0..len).map(|i| (i * 37 + 11) as u8 ^ 0xA5).collect()
}

#[test]
fn signature_text() {
    let dll = sig_dll();
    let text: Vec<u8> = dll.iter().copied().take_while(|&b| b != 0).collect();
    assert!(String::from_utf8_lossy(&text).contains("precise head tracking"));
}

#[test]
fn struct_sizes() {
    assert_eq!(seal_tir_data(0, 0, [0; 6]).len(), 68);
    assert_eq!(TIR_DATA_LEN, 68);
    assert_eq!(std::mem::size_of::<TirSignature>(), 400);
}

#[test]
fn signature_blocks_are_nul_padded() {
    let sig = TirSignature::new();
    assert_eq!(sig.dll_signature, sig_dll());
    assert_eq!(sig.app_signature, sig_app());
    let app: Vec<u8> = sig.app_signature.iter().copied().take_while(|&b| b != 0).collect();
    assert!(String::from_utf8_lossy(&app).starts_with("hardware camera"));
    assert_eq!(sig.dll_signature[199], 0);
}

#[test]
fn checksum_of_nothing_is_zero() {
    assert_eq!(cksum(&[]), 0);
}

#[test]
fn checksum_matches_the_games() {
    for len in [1usize, 2, 3, 4, 5, 6, 7, 8, 9, 31, 68, 100] {
        let b = sample(len);
        assert_eq!(cksum(&b), reference_cksum(&b), "length {len}");
    }
}

#[test]
fn sealed_frame_passes_the_games_check() {
    let axes = [1.5f32, -2.0, 100.0, 0.25, -0.5, 16383.0].map(f32::to_bits);
    let frame = seal_tir_data(STATUS_OK as i16, 1234, axes);
    assert_eq!(frame.len(), TIR_DATA_LEN);
    let stored = u32::from_le_bytes([frame[4], frame[5], frame[6], frame[7]]);
    let mut zeroed = frame.clone();
    zeroed[4..8].copy_from_slice(&[0, 0, 0, 0]);
    assert_eq!(reference_cksum(&zeroed), stored);
    assert_eq!(i16::from_le_bytes([frame[2], frame[3]]), 1234);
    assert_eq!(f32::from_le_bytes([frame[8], frame[9], frame[10], frame[11]]), 1.5);
    assert!(frame[32..].iter().all(|&b| b == 0));
}

#[test]
fn enhance_matches_the_legacy_obfuscation() {
    let table = [1u8, 2, 3, 4, 0x55, 0xAA, 0x0F, 0xF0];
    for len in [0usize, 1, 7, 8, 9, 68] {
        let mut ours = sample(len);
        let mut theirs = ours.clone();
        enhance(&mut ours, &table);
        reference_enhance(&mut theirs, &table);
        assert_eq!(ours, theirs, "length {len}");
    }
}

#[test]
fn session_counts_frames_and_reports_status() {
    let mut s = TirSession::new();
    let axes = [0u32; 6];
    let (a, status_a) = s.get_data(true, axes);
    let (b, status_b) = s.get_data(false, axes);
    assert_eq!(status_a, STATUS_OK);
    assert_eq!(status_b, STATUS_DISABLED);
    assert_eq!(i16::from_le_bytes([a[2], a[3]]), 1);
    assert_eq!(i16::from_le_bytes([b[2], b[3]]), 2);
    assert_eq!(i16::from_le_bytes([b[0], b[1]]), 1);
    assert_eq!(a, seal_tir_data(0, 1, axes));
}

#[test]
fn frame_counter_wraps_to_sixteen_bits() {
    let mut s = TirSession::new();
    s.frame_counter = 0x7FFF;
    assert_eq!(s.next_frame(), i16::MIN);
    s.frame_counter = i32::MAX;
    assert_eq!(s.next_frame(), 0);
    assert_eq!(s.frame_counter, i32::MIN);
}

#[test]
fn zero_table_means_no_obfuscation() {
    let mut s = TirSession::new();
    s.observe(42, 42, [0; 8]);
    assert!(s.table_checked);
    assert!(!s.encryption);
    let (d, _) = s.get_data(true, [7; 6]);
    assert_eq!(d, seal_tir_data(0, 1, [7; 6]));
}

#[test]
fn table_is_adopted_once_after_the_handshake() {
    let table = [0u8, 0, 9, 0, 0, 0, 0, 0];
    let mut s = TirSession::new();
    s.observe(42, 0, table);
    assert!(!s.table_checked);
    s.observe(42, 42, table);
    assert!(s.table_checked && s.encryption);
    s.observe(42, 42, [0; 8]);
    assert_eq!(s.table, table);
    let (d, _) = s.get_data(true, [3; 6]);
    let mut expected = seal_tir_data(0, 1, [3; 6]);
    reference_enhance(&mut expected, &table);
    assert_eq!(d, expected);
}

#[test]
fn interface_version() {
    assert_eq!(NP_VERSION, 0x0500);
}

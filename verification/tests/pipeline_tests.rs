use iatodng::correct::{apply_white, normalize, subtract_dual_black};
use iatodng::pwad::Pwad;
use iatodng::sinar_ia::{
    black0_key, black1_key, correct_capture, raw_key, thumb_key, white_key, SinarIAMeta,
    WhiteBalance,
};
use iatodng::IaError;

fn build_container(lumps: &[(Vec<u8>, Vec<u8>)]) -> Vec<u8> {
    let mut data: Vec<u8> = Vec::new();
    data.extend_from_slice(b"PWAD");
    data.extend_from_slice(&(lumps.len() as u32).to_le_bytes());
    data.extend_from_slice(&0u32.to_le_bytes());
    let mut entries: Vec<(u32, u32)> = Vec::new();
    for (_, bytes) in lumps {
        let offset = data.len() as u32;
        data.extend_from_slice(bytes);
        entries.push((offset, bytes.len() as u32));
    }
    let dir_offset = data.len() as u32;
    data[8..12].copy_from_slice(&dir_offset.to_le_bytes());
    for ((name, _), (offset, size)) in lumps.iter().zip(entries.iter()) {
        assert_eq!(name.len(), 8);
        data.extend_from_slice(&offset.to_le_bytes());
        data.extend_from_slice(&size.to_le_bytes());
        data.extend_from_slice(name);
    }
    data
}

fn le_samples(samples: &[u16]) -> Vec<u8> {
    let mut b = Vec::new();
    for s in samples {
        b.extend_from_slice(&s.to_le_bytes());
    }
    b
}

fn small_meta(width: u32, height: u32) -> SinarIAMeta {
    SinarIAMeta {
        shutter_count: 1,
        camera: "Sinar Hy6".to_string(),
        measured_shutter_us: 16000,
        req_shutter_us: 15625,
        f_stop_x256: 1408,
        black_ref: "b.BR1".to_string(),
        iso: 100,
        serial: "e22-1".to_string(),
        model: "Emotion 22".to_string(),
        height,
        width,
        white_balance_name: WhiteBalance::Manual,
        focal_length_x1000: 80000,
        white_ref: "w.WR1".to_string(),
    }
}

fn capture(raw: &[u16]) -> Pwad {
    Pwad::from_bytes(build_container(&[
        (raw_key(), le_samples(raw)),
        (thumb_key(), vec![0u8; 12]),
    ]))
    .unwrap()
}

fn black_refs(b0: &[u16], b1: &[u16]) -> Pwad {
    Pwad::from_bytes(build_container(&[
        (black0_key(), le_samples(b0)),
        (black1_key(), le_samples(b1)),
    ]))
    .unwrap()
}

fn white_ref(w: &[u16]) -> Pwad {
    Pwad::from_bytes(build_container(&[(white_key(), le_samples(w))])).unwrap()
}

#[test]
fn test_corrected_value_pre_rescale() {
    // raw 40000, both black references 1000, white 20000:
    // corrected value before rescale is (40000-1000)/20000 = 1.95 for
    // every pixel.
    let raw = normalize(&le_samples(&[40000, 40000]), 2, 1).unwrap();
    let b0 = normalize(&le_samples(&[1000, 1000]), 2, 1).unwrap();
    let b1 = normalize(&le_samples(&[1000, 1000]), 2, 1).unwrap();
    let white = normalize(&le_samples(&[20000, 20000]), 2, 1).unwrap();
    let mut image = raw;
    subtract_dual_black(&mut image, &b0, &b1).unwrap();
    apply_white(&mut image, &white).unwrap();
    for p in &image {
        // p == 1.95 == 39/20 exactly.
        assert_eq!(p.num * 20, p.den * 39);
    }
}

#[test]
fn test_correct_capture_end_to_end() {
    // Two pixels 1.95 and 1.0 after correction: the maximum maps to
    // 65535, the minimum to 0.
    let primary = capture(&[40000, 21000]);
    let black = black_refs(&[1000, 1000], &[1000, 1000]);
    let white = white_ref(&[20000, 20000]);
    let meta = small_meta(2, 1);
    let out = correct_capture(&primary, &meta, &black, Some(&white)).unwrap();
    assert_eq!(out, vec![65535, 0]);
}

#[test]
fn test_correct_capture_constant_plane_guard() {
    let primary = capture(&[40000, 40000]);
    let black = black_refs(&[1000, 1000], &[1000, 1000]);
    let white = white_ref(&[20000, 20000]);
    let meta = small_meta(2, 1);
    let out = correct_capture(&primary, &meta, &black, Some(&white)).unwrap();
    assert_eq!(out, vec![0, 0]);
}

#[test]
fn test_correct_capture_without_white_reference() {
    // White correction is best-effort: with no white container the
    // dual-black corrected plane is rescaled directly.
    let primary = capture(&[40000, 21000]);
    let black = black_refs(&[1000, 1000], &[1000, 1000]);
    let meta = small_meta(2, 1);
    let out = correct_capture(&primary, &meta, &black, None).unwrap();
    assert_eq!(out, vec![65535, 0]);
}

#[test]
fn test_correct_capture_bad_white_is_ignored() {
    // A missized white lump cannot fail the capture.
    let primary = capture(&[40000, 21000]);
    let black = black_refs(&[1000, 1000], &[1000, 1000]);
    let white = white_ref(&[20000]);
    let meta = small_meta(2, 1);
    let out = correct_capture(&primary, &meta, &black, Some(&white)).unwrap();
    assert_eq!(out, vec![65535, 0]);
}

#[test]
fn test_correct_capture_missing_raw() {
    let primary = Pwad::from_bytes(build_container(&[(thumb_key(), vec![0u8; 4])])).unwrap();
    let black = black_refs(&[0, 0], &[0, 0]);
    let meta = small_meta(2, 1);
    let r = correct_capture(&primary, &meta, &black, None);
    assert_eq!(r.err(), Some(IaError::NotFound));
}

#[test]
fn test_correct_capture_missized_raw() {
    let primary = capture(&[40000]);
    let black = black_refs(&[0, 0], &[0, 0]);
    let meta = small_meta(2, 1);
    let r = correct_capture(&primary, &meta, &black, None);
    assert_eq!(r.err(), Some(IaError::SizeMismatch));
}

#[test]
fn test_correct_capture_missing_black() {
    let primary = capture(&[40000, 21000]);
    let black = Pwad::from_bytes(build_container(&[(black0_key(), le_samples(&[0, 0]))])).unwrap();
    let meta = small_meta(2, 1);
    // BLACK1 absent.
    let r = correct_capture(&primary, &meta, &black, None);
    assert_eq!(r.err(), Some(IaError::NotFound));
}

#[test]
fn test_batch_reports_exactly_one_failure() {
    // Three captures, one malformed: the batch yields two corrected
    // planes and exactly one reported failure.
    let good1 = capture(&[40000, 21000]);
    let good2 = capture(&[30000, 22000]);
    let bad = Pwad::from_bytes(build_container(&[(thumb_key(), vec![0u8; 4])])).unwrap();
    let black = black_refs(&[1000, 1000], &[1000, 1000]);
    let meta = small_meta(2, 1);
    let mut ok = 0;
    let mut failed = 0;
    for p in [&good1, &bad, &good2] {
        match correct_capture(p, &meta, &black, None) {
            Ok(_) => ok += 1,
            Err(_) => failed += 1,
        }
    }
    assert_eq!(ok, 2);
    assert_eq!(failed, 1);
}

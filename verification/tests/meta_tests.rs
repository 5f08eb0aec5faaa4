use iatodng::sinar_ia::{model_name, model_size, SinarIAMeta, WhiteBalance};
use iatodng::IaError;

/// A fixture metadata record with every documented field filled in.
fn fixture_meta(serial: &str) -> Vec<u8> {
    let mut m = vec![0u8; 368];
    m[4..8].copy_from_slice(&4242u32.to_le_bytes());
    m[20..20 + 9].copy_from_slice(b"Sinar Hy6");
    m[100..102].copy_from_slice(&7u16.to_le_bytes());
    m[104..108].copy_from_slice(&16000u32.to_le_bytes());
    m[122..122 + 12].copy_from_slice(b"6C486AFC.BR1");
    m[186..186 + 12].copy_from_slice(b"6C486AFC.WR1");
    m[252..256].copy_from_slice(&100u32.to_le_bytes());
    m[272..272 + serial.len()].copy_from_slice(serial.as_bytes());
    m[344..348].copy_from_slice(&15625u32.to_le_bytes());
    m[352..354].copy_from_slice(&1408u16.to_le_bytes());
    m[356..360].copy_from_slice(&80000u32.to_le_bytes());
    m
}

#[test]
fn test_process_meta_fixture_e22() {
    let meta = SinarIAMeta::process_meta(&fixture_meta("e22-12345")).unwrap();
    assert_eq!(meta.model, "Emotion 22");
    assert_eq!(meta.width, 5344);
    assert_eq!(meta.height, 4008);
    assert_eq!(meta.camera, "Sinar Hy6");
    assert_eq!(meta.shutter_count, 4242);
    assert_eq!(meta.white_balance_name, WhiteBalance::Manual);
    assert_eq!(meta.measured_shutter_us, 16000);
    assert_eq!(meta.req_shutter_us, 15625);
    assert_eq!(meta.black_ref, "6C486AFC.BR1");
    assert_eq!(meta.white_ref, "6C486AFC.WR1");
    assert_eq!(meta.iso, 100);
    assert_eq!(meta.serial, "e22-12345");
    assert_eq!(meta.f_stop_x256, 1408);
    assert_eq!(meta.focal_length_x1000, 80000);
}

#[test]
fn test_process_meta_fixture_e75() {
    let meta = SinarIAMeta::process_meta(&fixture_meta("e75-99")).unwrap();
    assert_eq!(meta.model, "Emotion 75");
    assert_eq!(meta.width, 6668);
    assert_eq!(meta.height, 4992);
}

#[test]
fn test_unknown_model_is_unsupported() {
    let r = SinarIAMeta::process_meta(&fixture_meta("x99-1"));
    assert_eq!(r.err(), Some(IaError::UnsupportedModel));
}

#[test]
fn test_serial_without_separator() {
    // The whole serial is the model code when no separator is present.
    let meta = SinarIAMeta::process_meta(&fixture_meta("e22")).unwrap();
    assert_eq!(meta.model, "Emotion 22");
}

#[test]
fn test_short_buffer_is_format_error() {
    let r = SinarIAMeta::process_meta(&vec![0u8; 367]);
    assert_eq!(r.err(), Some(IaError::Format));
}

#[test]
fn test_non_ascii_field_is_format_error() {
    let mut m = fixture_meta("e22-12345");
    m[25] = 0xFF;
    assert_eq!(SinarIAMeta::process_meta(&m).err(), Some(IaError::Format));
}

#[test]
fn test_white_balance_codes() {
    assert_eq!(WhiteBalance::from(0), WhiteBalance::Flash);
    assert_eq!(WhiteBalance::from(1), WhiteBalance::Neon);
    assert_eq!(WhiteBalance::from(2), WhiteBalance::Tungsten);
    assert_eq!(WhiteBalance::from(3), WhiteBalance::Shadow);
    assert_eq!(WhiteBalance::from(4), WhiteBalance::Sun);
    assert_eq!(WhiteBalance::from(5), WhiteBalance::Cloudy);
    assert_eq!(WhiteBalance::from(6), WhiteBalance::Unknown);
    assert_eq!(WhiteBalance::from(7), WhiteBalance::Manual);
    assert_eq!(WhiteBalance::from(8), WhiteBalance::Unknown);
    assert_eq!(WhiteBalance::from(60000), WhiteBalance::Unknown);
}

#[test]
fn test_model_tables() {
    assert_eq!(model_name(&b"e22".to_vec()), Some("Emotion 22".to_string()));
    assert_eq!(model_name(&b"e75".to_vec()), Some("Emotion 75".to_string()));
    assert_eq!(model_name(&b"e54".to_vec()), None);
    assert_eq!(model_size(&b"e22".to_vec()), Some((5344, 4008)));
    assert_eq!(model_size(&b"e75".to_vec()), Some((6668, 4992)));
    assert_eq!(model_size(&b"".to_vec()), None);
}

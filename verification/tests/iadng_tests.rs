use iatodng::iadng::{
    as_shot_neutral, build_exif_tags, build_pointer_tags, build_raw_ifd_tags, build_root_tags,
    build_strip_tags, color_matrix_d50, output_file_name, split_strips, unique_camera_model,
    TagValue, TAG_ACTIVE_AREA, TAG_AS_SHOT_NEUTRAL, TAG_COLOR_MATRIX1, TAG_EXIF_IFD_POINTER,
    TAG_EXPOSURE_TIME, TAG_F_NUMBER, TAG_IMAGE_WIDTH, TAG_ISO_SPEED_RATINGS, TAG_MODEL,
    TAG_MODIFY_DATE, TAG_PHOTOMETRIC_INT, TAG_ROWS_PER_STRIP, TAG_SERIAL_NUMBER,
    TAG_STRIP_BYTE_COUNTS, TAG_STRIP_OFFSETS, TAG_SUB_IFDS, TAG_UNIQUE_CAMERA_MODEL,
};
use iatodng::sinar_ia::{SinarIAMeta, WhiteBalance};
use iatodng::IaError;

fn fixture_meta() -> SinarIAMeta {
    SinarIAMeta {
        shutter_count: 4242,
        camera: "Sinar Hy6".to_string(),
        measured_shutter_us: 16000,
        req_shutter_us: 15625,
        f_stop_x256: 1408,
        black_ref: "6C486AFC.BR1".to_string(),
        iso: 100,
        serial: "e22-12345".to_string(),
        model: "Emotion 22".to_string(),
        height: 4008,
        width: 5344,
        white_balance_name: WhiteBalance::Manual,
        focal_length_x1000: 80000,
        white_ref: "6C486AFC.WR1".to_string(),
    }
}

#[test]
fn test_color_matrix_values() {
    let m = color_matrix_d50();
    assert_eq!(m.len(), 9);
    assert_eq!(m[0], (20413, 10000));
    assert_eq!(m[1], (-5649, 10000));
    assert_eq!(m[8], (10154, 10000));
}

#[test]
fn test_as_shot_neutral_unity() {
    assert_eq!(as_shot_neutral(), vec![(100000, 100000); 3]);
}

#[test]
fn test_output_file_name() {
    assert_eq!(output_file_name(4242), "4242.dng");
    assert_eq!(output_file_name(0), "0.dng");
    assert_eq!(output_file_name(u32::MAX), "4294967295.dng");
}

#[test]
fn test_unique_camera_model() {
    assert_eq!(
        unique_camera_model("Emotion 22", "Sinar Hy6"),
        "Emotion 22 on Sinar Hy6"
    );
}

#[test]
fn test_build_root_tags() {
    let meta = fixture_meta();
    let tags = build_root_tags(&meta, "2024:01:02 03:04:05", 1000, 508368);
    assert_eq!(tags.len(), 22);
    assert_eq!(tags[0].tag, TAG_PHOTOMETRIC_INT);
    assert!(matches!(&tags[0].value, TagValue::Shorts(v) if v == &vec![2u16]));
    assert_eq!(tags[3].tag, TAG_IMAGE_WIDTH);
    assert!(matches!(&tags[3].value, TagValue::Longs(v) if v == &vec![356u32]));
    assert_eq!(tags[9].tag, TAG_STRIP_OFFSETS);
    assert!(matches!(&tags[9].value, TagValue::Longs(v) if v == &vec![1000u32]));
    assert_eq!(tags[12].tag, TAG_AS_SHOT_NEUTRAL);
    assert_eq!(tags[16].tag, TAG_MODEL);
    assert!(matches!(&tags[16].value, TagValue::Text(s) if s == "Emotion 22"));
    assert_eq!(tags[18].tag, TAG_UNIQUE_CAMERA_MODEL);
    assert!(matches!(&tags[18].value, TagValue::Text(s) if s == "Emotion 22 on Sinar Hy6"));
    assert_eq!(tags[19].tag, TAG_MODIFY_DATE);
    assert!(matches!(&tags[19].value, TagValue::Text(s) if s == "2024:01:02 03:04:05"));
    assert_eq!(tags[21].tag, TAG_COLOR_MATRIX1);
    assert!(matches!(&tags[21].value, TagValue::SRationals(v) if v.len() == 9));
}

#[test]
fn test_build_raw_ifd_tags() {
    let meta = fixture_meta();
    let tags = build_raw_ifd_tags(&meta);
    assert_eq!(tags.len(), 13);
    assert_eq!(tags[1].tag, TAG_ACTIVE_AREA);
    assert!(matches!(&tags[1].value, TagValue::Shorts(v) if v == &vec![0u16, 0, 4008, 5344]));
    assert_eq!(tags[3].tag, TAG_PHOTOMETRIC_INT);
    assert!(matches!(&tags[3].value, TagValue::Shorts(v) if v == &vec![32803u16]));
    assert_eq!(tags[4].tag, TAG_IMAGE_WIDTH);
    assert!(matches!(&tags[4].value, TagValue::Longs(v) if v == &vec![5344u32]));
    assert!(matches!(&tags[9].value, TagValue::Bytes(v) if v == &vec![0u8, 1, 1, 2]));
}

#[test]
fn test_build_exif_tags() {
    let meta = fixture_meta();
    let tags = build_exif_tags(&meta);
    assert_eq!(tags.len(), 6);
    assert!(matches!(&tags[0].value, TagValue::Undefined(v) if v == &vec![48u8, 50, 50, 48]));
    // f-number 1408/256 = 5.5, stored as 55000/10000.
    assert_eq!(tags[1].tag, TAG_F_NUMBER);
    assert!(matches!(&tags[1].value, TagValue::Rationals(v) if v == &vec![(55000u32, 10000u32)]));
    assert_eq!(tags[2].tag, TAG_ISO_SPEED_RATINGS);
    assert!(matches!(&tags[2].value, TagValue::Shorts(v) if v == &vec![100u16]));
    assert!(matches!(&tags[3].value, TagValue::Rationals(v) if v == &vec![(80000u32, 1000u32)]));
    assert_eq!(tags[4].tag, TAG_SERIAL_NUMBER);
    assert!(matches!(&tags[4].value, TagValue::Text(s) if s == "e22-12345"));
    assert_eq!(tags[5].tag, TAG_EXPOSURE_TIME);
    assert!(matches!(&tags[5].value, TagValue::Rationals(v) if v == &vec![(16000u32, 1000000u32)]));
}

#[test]
fn test_split_strips_even() {
    let image: Vec<u16> = (0..12).collect();
    let strips = split_strips(&image, 2, 3).unwrap();
    assert_eq!(strips.len(), 2);
    assert_eq!(strips[0], (0..6).collect::<Vec<u16>>());
    assert_eq!(strips[1], (6..12).collect::<Vec<u16>>());
    let rebuilt: Vec<u16> = strips.concat();
    assert_eq!(rebuilt, image);
}

#[test]
fn test_split_strips_remainder() {
    let image: Vec<u16> = (0..10).collect();
    let strips = split_strips(&image, 2, 3).unwrap();
    assert_eq!(strips.len(), 2);
    assert_eq!(strips[0].len(), 6);
    assert_eq!(strips[1].len(), 4);
    assert_eq!(strips.concat(), image);
}

#[test]
fn test_split_strips_zero_rows() {
    let image: Vec<u16> = vec![1, 2];
    assert_eq!(split_strips(&image, 2, 0).err(), Some(IaError::SizeMismatch));
}

#[test]
fn test_build_strip_tags() {
    let image: Vec<u16> = (0..10).collect();
    let strips = split_strips(&image, 2, 3).unwrap();
    let tags = build_strip_tags(&strips, &vec![100, 200], 2).unwrap();
    assert_eq!(tags.len(), 3);
    assert_eq!(tags[0].tag, TAG_STRIP_OFFSETS);
    assert!(matches!(&tags[0].value, TagValue::Longs(v) if v == &vec![100u32, 200]));
    assert_eq!(tags[1].tag, TAG_STRIP_BYTE_COUNTS);
    assert!(matches!(&tags[1].value, TagValue::Longs(v) if v == &vec![12u32, 8]));
    assert_eq!(tags[2].tag, TAG_ROWS_PER_STRIP);
    assert!(matches!(&tags[2].value, TagValue::Longs(v) if v == &vec![3u32, 2]));
}

#[test]
fn test_build_strip_tags_offset_count_mismatch() {
    let strips = vec![vec![1u16, 2]];
    assert_eq!(
        build_strip_tags(&strips, &vec![1, 2], 1).err(),
        Some(IaError::SizeMismatch)
    );
}

#[test]
fn test_build_pointer_tags() {
    let tags = build_pointer_tags(777, 888);
    assert_eq!(tags.len(), 2);
    assert_eq!(tags[0].tag, TAG_SUB_IFDS);
    assert!(matches!(&tags[0].value, TagValue::Longs(v) if v == &vec![777u32]));
    assert_eq!(tags[1].tag, TAG_EXIF_IFD_POINTER);
    assert!(matches!(&tags[1].value, TagValue::Longs(v) if v == &vec![888u32]));
}

//! Output-container encoder planning.
//!
//! The destination is a tagged multi-directory binary container (TIFF
//! family): a root directory with an embedded RGB thumbnail, camera
//! identification and a fixed D50 calibration matrix; a sub-directory for
//! the full-resolution 16-bit Bayer plane, strip-partitioned; and a
//! metadata sub-directory.  Data-block offsets are only known once the
//! data is written, so the plan is built in stages: the functions here
//! compute every tag's code and value, taking the offsets returned by the
//! writes as arguments, and an unverified shell performs the writes in the
//! order the plan dictates.

use vstd::prelude::*;
use vstd::string::StringExecFns;
use crate::IaError;
use crate::sinar_ia::{ascii_chars, ascii_to_string, SinarIAMeta, THUMB_HT, THUMB_WD};

verus! {

// Tag codes of the output format, in the standard registry.
pub const TAG_NEW_SUB_FILE_TYPE: u16 = 254;

pub const TAG_IMAGE_WIDTH: u16 = 256;

pub const TAG_IMAGE_LENGTH: u16 = 257;

pub const TAG_BITS_PER_SAMPLE: u16 = 258;

pub const TAG_COMPRESSION: u16 = 259;

pub const TAG_PHOTOMETRIC_INT: u16 = 262;

pub const TAG_MAKE: u16 = 271;

pub const TAG_MODEL: u16 = 272;

pub const TAG_STRIP_OFFSETS: u16 = 273;

pub const TAG_ORIENTATION: u16 = 274;

pub const TAG_SAMPLES_PER_PIXEL: u16 = 277;

pub const TAG_ROWS_PER_STRIP: u16 = 278;

pub const TAG_STRIP_BYTE_COUNTS: u16 = 279;

pub const TAG_PLANAR_CONFIGURATION: u16 = 284;

pub const TAG_SOFTWARE: u16 = 305;

pub const TAG_MODIFY_DATE: u16 = 306;

pub const TAG_SUB_IFDS: u16 = 330;

pub const TAG_SAMPLE_FORMAT: u16 = 339;

pub const TAG_CFA_REPEAT_PATTERN_DIM: u16 = 33421;

pub const TAG_CFA_PATTERN: u16 = 33422;

pub const TAG_EXPOSURE_TIME: u16 = 33434;

pub const TAG_F_NUMBER: u16 = 33437;

pub const TAG_EXIF_IFD_POINTER: u16 = 34665;

pub const TAG_ISO_SPEED_RATINGS: u16 = 34855;

pub const TAG_EXIF_VERSION: u16 = 36864;

pub const TAG_FOCAL_LENGTH: u16 = 37386;

pub const TAG_SERIAL_NUMBER: u16 = 42033;

pub const TAG_DNG_VERSION: u16 = 50706;

pub const TAG_DNG_BACKWARD_VERSION: u16 = 50707;

pub const TAG_UNIQUE_CAMERA_MODEL: u16 = 50708;

pub const TAG_CFA_PLANE_COLOR: u16 = 50710;

pub const TAG_CFA_LAYOUT: u16 = 50711;

pub const TAG_COLOR_MATRIX1: u16 = 50721;

pub const TAG_AS_SHOT_NEUTRAL: u16 = 50728;

pub const TAG_CALIBRATION_ILLUMINANT1: u16 = 50778;

pub const TAG_ACTIVE_AREA: u16 = 50829;

/// Photometric interpretation code of an RGB image.
pub const PHOTOMETRIC_RGB: u16 = 2;

/// Photometric interpretation code of a color-filter-array plane.
pub const PHOTOMETRIC_CFA: u16 = 32803;

/// Compression code for uncompressed strips.
pub const COMPRESSION_NONE: u16 = 1;

/// Calibration illuminant code of D50 light.
pub const ILLUMINANT_D50: u16 = 23;

/// One planned tag value, by the output format's value types.
#[derive(Debug)]
pub enum TagValue {
    /// 8-bit unsigned values.
    Bytes(Vec<u8>),
    /// NUL-terminated text (the terminator is the writer's concern).
    Text(String),
    /// 16-bit unsigned values.
    Shorts(Vec<u16>),
    /// 32-bit unsigned values.
    Longs(Vec<u32>),
    /// Unsigned fractions, numerator and denominator.
    Rationals(Vec<(u32, u32)>),
    /// Signed fractions, numerator and denominator.
    SRationals(Vec<(i32, i32)>),
    /// Raw bytes of declared-undefined type.
    Undefined(Vec<u8>),
}

/// One planned directory entry: a tag code and its value.
#[derive(Debug)]
pub struct TagEntry {
    pub tag: u16,
    pub value: TagValue,
}

/// The entry holds `tag` with exactly these 8-bit values.
pub open spec fn is_bytes(e: TagEntry, tag: u16, vals: Seq<u8>) -> bool {
    e.tag == tag && (e.value matches TagValue::Bytes(v) && v@ =~= vals)
}

/// The entry holds `tag` with exactly this text.
pub open spec fn is_text(e: TagEntry, tag: u16, vals: Seq<char>) -> bool {
    e.tag == tag && (e.value matches TagValue::Text(v) && v@ =~= vals)
}

/// The entry holds `tag` with exactly these 16-bit values.
pub open spec fn is_shorts(e: TagEntry, tag: u16, vals: Seq<u16>) -> bool {
    e.tag == tag && (e.value matches TagValue::Shorts(v) && v@ =~= vals)
}

/// The entry holds `tag` with exactly these 32-bit values.
pub open spec fn is_longs(e: TagEntry, tag: u16, vals: Seq<u32>) -> bool {
    e.tag == tag && (e.value matches TagValue::Longs(v) && v@ =~= vals)
}

/// The entry holds `tag` with exactly these unsigned fractions.
pub open spec fn is_rationals(e: TagEntry, tag: u16, vals: Seq<(u32, u32)>) -> bool {
    e.tag == tag && (e.value matches TagValue::Rationals(v) && v@ =~= vals)
}

/// The entry holds `tag` with exactly these signed fractions.
pub open spec fn is_srationals(e: TagEntry, tag: u16, vals: Seq<(i32, i32)>) -> bool {
    e.tag == tag && (e.value matches TagValue::SRationals(v) && v@ =~= vals)
}

/// The entry holds `tag` with exactly these undefined-type bytes.
pub open spec fn is_undefined(e: TagEntry, tag: u16, vals: Seq<u8>) -> bool {
    e.tag == tag && (e.value matches TagValue::Undefined(v) && v@ =~= vals)
}

/// The fixed XYZ-to-sensor calibration matrix for the D50 illuminant, as
/// signed fractions over 10000 (the sRGB D50 matrix in fixed point).
pub fn color_matrix_d50() -> (r: Vec<(i32, i32)>)
    ensures
        r@ =~= seq![
            (20413i32, 10000i32),
            (-5649i32, 10000i32),
            (-3446i32, 10000i32),
            (-9692i32, 10000i32),
            (18760i32, 10000i32),
            (415i32, 10000i32),
            (134i32, 10000i32),
            (-1183i32, 10000i32),
            (10154i32, 10000i32),
        ],
{
    let mut v: Vec<(i32, i32)> = Vec::new();
    v.push((20413, 10000));
    v.push((-5649, 10000));
    v.push((-3446, 10000));
    v.push((-9692, 10000));
    v.push((18760, 10000));
    v.push((415, 10000));
    v.push((134, 10000));
    v.push((-1183, 10000));
    v.push((10154, 10000));
    proof {
        assert(v@ =~= seq![
            (20413i32, 10000i32),
            (-5649i32, 10000i32),
            (-3446i32, 10000i32),
            (-9692i32, 10000i32),
            (18760i32, 10000i32),
            (415i32, 10000i32),
            (134i32, 10000i32),
            (-1183i32, 10000i32),
            (10154i32, 10000i32),
        ]);
    }
    v
}

/// The decimal digits of `n`, most significant first.
pub open spec fn spec_decimal(n: int) -> Seq<char>
    decreases n,
{
    if n < 10 {
        seq![((48 + if n >= 0 { n } else { 0 }) as u8) as char]
    } else {
        spec_decimal(n / 10) + seq![((48 + n % 10) as u8) as char]
    }
}

/// Renders `n` in decimal.
fn u32_decimal(n: u32) -> (r: String)
    ensures
        r@ == spec_decimal(n as int),
{
    let mut rest: u32 = n;
    let mut tail: Vec<u8> = Vec::new();
    let ghost mut suffix: Seq<char> = Seq::empty();
    proof {
        assert(spec_decimal(n as int) == spec_decimal(rest as int) + suffix);
    }
    while rest >= 10
        invariant
            spec_decimal(n as int) == spec_decimal(rest as int) + suffix,
            tail@.len() == suffix.len(),
            forall|i: int|
                0 <= i < tail@.len() ==> #[trigger] tail@[i] < 128 && (tail@[i] as char)
                    == suffix[suffix.len() - 1 - i],
        decreases rest,
    {
        let d: u8 = (rest % 10) as u8;
        tail.push(48 + d);
        proof {
            suffix = seq![((48 + (rest as int) % 10) as u8) as char] + suffix;
        }
        rest = rest / 10;
    }
    let mut digits: Vec<u8> = Vec::new();
    digits.push(48 + (rest % 10) as u8);
    proof {
        assert(rest < 10);
        assert((rest as int) % 10 == rest as int);
        assert(spec_decimal(rest as int) == seq![((48 + rest as int) as u8) as char]);
    }
    let mut k: usize = tail.len();
    while k > 0
        invariant
            k <= tail@.len(),
            tail@.len() == suffix.len(),
            forall|i: int|
                0 <= i < tail@.len() ==> #[trigger] tail@[i] < 128 && (tail@[i] as char)
                    == suffix[suffix.len() - 1 - i],
            digits@.len() == 1 + (tail@.len() - k),
            digits@[0] < 128,
            (digits@[0] as char) == spec_decimal(rest as int)[0],
            forall|i: int|
                1 <= i < digits@.len() ==> #[trigger] digits@[i] < 128 && (digits@[i] as char)
                    == suffix[i - 1],
        decreases k,
    {
        k -= 1;
        digits.push(tail[k]);
    }
    let s = ascii_to_string(&digits);
    proof {
        assert(s@ =~= spec_decimal(rest as int) + suffix);
    }
    s
}

/// The output file name derived from the shutter counter: its decimal
/// value with the container extension.
pub fn output_file_name(shutter_count: u32) -> (r: String)
    ensures
        r@ == spec_decimal(shutter_count as int) + ".dng"@,
{
    let mut s = u32_decimal(shutter_count);
    s.append(".dng");
    s
}

/// The unique camera identification, `"<model> on <camera>"`.
pub fn unique_camera_model(model: &str, camera: &str) -> (r: String)
    ensures
        r@ == model@ + " on "@ + camera@,
{
    let mut s = String::from_str(model);
    s.append(" on ");
    s.append(camera);
    s
}

/// The per-channel neutral white-balance coefficients: unity for each of
/// the three channels.
pub fn as_shot_neutral() -> (r: Vec<(u32, u32)>)
    ensures
        r@ =~= seq![(100000u32, 100000u32), (100000u32, 100000u32), (100000u32, 100000u32)],
{
    let mut v: Vec<(u32, u32)> = Vec::new();
    v.push((100000, 100000));
    v.push((100000, 100000));
    v.push((100000, 100000));
    proof {
        assert(v@ =~= seq![(100000u32, 100000u32), (100000u32, 100000u32), (100000u32, 100000u32)]);
    }
    v
}

fn tag_bytes(tag: u16, vals: Vec<u8>) -> (e: TagEntry)
    ensures
        is_bytes(e, tag, vals@),
{
    TagEntry { tag, value: TagValue::Bytes(vals) }
}

fn tag_text(tag: u16, vals: String) -> (e: TagEntry)
    ensures
        is_text(e, tag, vals@),
{
    TagEntry { tag, value: TagValue::Text(vals) }
}

fn tag_shorts(tag: u16, vals: Vec<u16>) -> (e: TagEntry)
    ensures
        is_shorts(e, tag, vals@),
{
    TagEntry { tag, value: TagValue::Shorts(vals) }
}

fn tag_longs(tag: u16, vals: Vec<u32>) -> (e: TagEntry)
    ensures
        is_longs(e, tag, vals@),
{
    TagEntry { tag, value: TagValue::Longs(vals) }
}

fn tag_rationals(tag: u16, vals: Vec<(u32, u32)>) -> (e: TagEntry)
    ensures
        is_rationals(e, tag, vals@),
{
    TagEntry { tag, value: TagValue::Rationals(vals) }
}

fn tag_srationals(tag: u16, vals: Vec<(i32, i32)>) -> (e: TagEntry)
    ensures
        is_srationals(e, tag, vals@),
{
    TagEntry { tag, value: TagValue::SRationals(vals) }
}

fn tag_undefined(tag: u16, vals: Vec<u8>) -> (e: TagEntry)
    ensures
        is_undefined(e, tag, vals@),
{
    TagEntry { tag, value: TagValue::Undefined(vals) }
}

/// The root directory's tags: thumbnail geometry and strip location,
/// neutral white balance, format versions, camera identification, the
/// creation timestamp, and the D50 calibration matrix.  `thumb_offset` and
/// `thumb_byte_count` locate the already-written thumbnail bytes.
pub fn build_root_tags(
    meta: &SinarIAMeta,
    timestamp: &str,
    thumb_offset: u32,
    thumb_byte_count: u32,
) -> (r: Vec<TagEntry>)
    ensures
        r@.len() == 22,
        is_shorts(r@[0], TAG_PHOTOMETRIC_INT, seq![PHOTOMETRIC_RGB]),
        is_longs(r@[1], TAG_NEW_SUB_FILE_TYPE, seq![1u32]),
        is_shorts(r@[2], TAG_ORIENTATION, seq![7u16]),
        is_longs(r@[3], TAG_IMAGE_WIDTH, seq![THUMB_WD]),
        is_longs(r@[4], TAG_IMAGE_LENGTH, seq![THUMB_HT]),
        is_shorts(r@[5], TAG_COMPRESSION, seq![COMPRESSION_NONE]),
        is_shorts(r@[6], TAG_BITS_PER_SAMPLE, seq![8u16, 8u16, 8u16]),
        is_shorts(r@[7], TAG_SAMPLE_FORMAT, seq![1u16, 1u16, 1u16]),
        is_shorts(r@[8], TAG_SAMPLES_PER_PIXEL, seq![3u16]),
        is_longs(r@[9], TAG_STRIP_OFFSETS, seq![thumb_offset]),
        is_longs(r@[10], TAG_STRIP_BYTE_COUNTS, seq![thumb_byte_count]),
        is_shorts(r@[11], TAG_ROWS_PER_STRIP, seq![476u16]),
        is_rationals(
            r@[12],
            TAG_AS_SHOT_NEUTRAL,
            seq![(100000u32, 100000u32), (100000u32, 100000u32), (100000u32, 100000u32)],
        ),
        is_text(r@[13], TAG_SOFTWARE, "iatodng_rs v1.0"@),
        is_bytes(r@[14], TAG_DNG_VERSION, seq![1u8, 6u8, 0u8, 0u8]),
        is_bytes(r@[15], TAG_DNG_BACKWARD_VERSION, seq![1u8, 1u8, 0u8, 0u8]),
        is_text(r@[16], TAG_MODEL, meta.model@),
        is_text(r@[17], TAG_MAKE, meta.camera@),
        is_text(r@[18], TAG_UNIQUE_CAMERA_MODEL, meta.model@ + " on "@ + meta.camera@),
        is_text(r@[19], TAG_MODIFY_DATE, timestamp@),
        is_shorts(r@[20], TAG_CALIBRATION_ILLUMINANT1, seq![ILLUMINANT_D50]),
        is_srationals(
            r@[21],
            TAG_COLOR_MATRIX1,
            seq![
                (20413i32, 10000i32),
                (-5649i32, 10000i32),
                (-3446i32, 10000i32),
                (-9692i32, 10000i32),
                (18760i32, 10000i32),
                (415i32, 10000i32),
                (134i32, 10000i32),
                (-1183i32, 10000i32),
                (10154i32, 10000i32),
            ],
        ),
{
    let mut r: Vec<TagEntry> = Vec::new();
    r.push(tag_shorts(TAG_PHOTOMETRIC_INT, vec![PHOTOMETRIC_RGB]));
    r.push(tag_longs(TAG_NEW_SUB_FILE_TYPE, vec![1u32]));
    r.push(tag_shorts(TAG_ORIENTATION, vec![7u16]));
    r.push(tag_longs(TAG_IMAGE_WIDTH, vec![THUMB_WD]));
    r.push(tag_longs(TAG_IMAGE_LENGTH, vec![THUMB_HT]));
    r.push(tag_shorts(TAG_COMPRESSION, vec![COMPRESSION_NONE]));
    r.push(tag_shorts(TAG_BITS_PER_SAMPLE, vec![8u16, 8u16, 8u16]));
    r.push(tag_shorts(TAG_SAMPLE_FORMAT, vec![1u16, 1u16, 1u16]));
    r.push(tag_shorts(TAG_SAMPLES_PER_PIXEL, vec![3u16]));
    r.push(tag_longs(TAG_STRIP_OFFSETS, vec![thumb_offset]));
    r.push(tag_longs(TAG_STRIP_BYTE_COUNTS, vec![thumb_byte_count]));
    r.push(tag_shorts(TAG_ROWS_PER_STRIP, vec![476u16]));
    r.push(tag_rationals(TAG_AS_SHOT_NEUTRAL, as_shot_neutral()));
    r.push(tag_text(TAG_SOFTWARE, String::from_str("iatodng_rs v1.0")));
    r.push(tag_bytes(TAG_DNG_VERSION, vec![1u8, 6u8, 0u8, 0u8]));
    r.push(tag_bytes(TAG_DNG_BACKWARD_VERSION, vec![1u8, 1u8, 0u8, 0u8]));
    r.push(tag_text(TAG_MODEL, meta.model.clone()));
    r.push(tag_text(TAG_MAKE, meta.camera.clone()));
    r.push(tag_text(TAG_UNIQUE_CAMERA_MODEL, unique_camera_model(meta.model.as_str(), meta.camera.as_str())));
    r.push(tag_text(TAG_MODIFY_DATE, String::from_str(timestamp)));
    r.push(tag_shorts(TAG_CALIBRATION_ILLUMINANT1, vec![ILLUMINANT_D50]));
    r.push(tag_srationals(TAG_COLOR_MATRIX1, color_matrix_d50()));
    r
}

/// The sensor sub-directory's fixed tags: the full-resolution
/// single-channel 16-bit plane with the 2-by-2 RGGB color-filter pattern,
/// uncompressed.  The strip tags follow separately once the strip offsets
/// are known.  The plane's dimensions must fit the format's 16-bit active
/// area fields.
pub fn build_raw_ifd_tags(meta: &SinarIAMeta) -> (r: Vec<TagEntry>)
    requires
        meta.width <= 65535,
        meta.height <= 65535,
    ensures
        r@.len() == 13,
        is_longs(r@[0], TAG_NEW_SUB_FILE_TYPE, seq![0u32]),
        is_shorts(
            r@[1],
            TAG_ACTIVE_AREA,
            seq![0u16, 0u16, meta.height as u16, meta.width as u16],
        ),
        is_shorts(r@[2], TAG_PLANAR_CONFIGURATION, seq![1u16]),
        is_shorts(r@[3], TAG_PHOTOMETRIC_INT, seq![PHOTOMETRIC_CFA]),
        is_longs(r@[4], TAG_IMAGE_WIDTH, seq![meta.width]),
        is_longs(r@[5], TAG_IMAGE_LENGTH, seq![meta.height]),
        is_shorts(r@[6], TAG_SAMPLES_PER_PIXEL, seq![1u16]),
        is_shorts(r@[7], TAG_BITS_PER_SAMPLE, seq![16u16]),
        is_shorts(r@[8], TAG_CFA_LAYOUT, seq![1u16]),
        is_bytes(r@[9], TAG_CFA_PATTERN, seq![0u8, 1u8, 1u8, 2u8]),
        is_shorts(r@[10], TAG_CFA_REPEAT_PATTERN_DIM, seq![2u16, 2u16]),
        is_bytes(r@[11], TAG_CFA_PLANE_COLOR, seq![0u8, 1u8, 2u8]),
        is_shorts(r@[12], TAG_COMPRESSION, seq![COMPRESSION_NONE]),
{
    let mut r: Vec<TagEntry> = Vec::new();
    r.push(tag_longs(TAG_NEW_SUB_FILE_TYPE, vec![0u32]));
    r.push(tag_shorts(TAG_ACTIVE_AREA, vec![0u16, 0u16, meta.height as u16, meta.width as u16]));
    r.push(tag_shorts(TAG_PLANAR_CONFIGURATION, vec![1u16]));
    r.push(tag_shorts(TAG_PHOTOMETRIC_INT, vec![PHOTOMETRIC_CFA]));
    r.push(tag_longs(TAG_IMAGE_WIDTH, vec![meta.width]));
    r.push(tag_longs(TAG_IMAGE_LENGTH, vec![meta.height]));
    r.push(tag_shorts(TAG_SAMPLES_PER_PIXEL, vec![1u16]));
    r.push(tag_shorts(TAG_BITS_PER_SAMPLE, vec![16u16]));
    r.push(tag_shorts(TAG_CFA_LAYOUT, vec![1u16]));
    r.push(tag_bytes(TAG_CFA_PATTERN, vec![0u8, 1u8, 1u8, 2u8]));
    r.push(tag_shorts(TAG_CFA_REPEAT_PATTERN_DIM, vec![2u16, 2u16]));
    r.push(tag_bytes(TAG_CFA_PLANE_COLOR, vec![0u8, 1u8, 2u8]));
    r.push(tag_shorts(TAG_COMPRESSION, vec![COMPRESSION_NONE]));
    r
}

/// The metadata sub-directory's tags: exposure, f-number, ISO, focal
/// length and serial.  Fixed-point fields are converted exactly: the
/// f-number `x/256` becomes the fraction `x*625/16` over 10000, the focal
/// length `x/1000` the fraction `x` over 1000; the ISO value is stored in
/// the format's 16-bit field, truncated as the field demands.
pub fn build_exif_tags(meta: &SinarIAMeta) -> (r: Vec<TagEntry>)
    ensures
        r@.len() == 6,
        is_undefined(r@[0], TAG_EXIF_VERSION, seq![48u8, 50u8, 50u8, 48u8]),
        is_rationals(
            r@[1],
            TAG_F_NUMBER,
            seq![((meta.f_stop_x256 * 625 / 16) as u32, 10000u32)],
        ),
        is_shorts(r@[2], TAG_ISO_SPEED_RATINGS, seq![meta.iso as u16]),
        is_rationals(r@[3], TAG_FOCAL_LENGTH, seq![(meta.focal_length_x1000, 1000u32)]),
        is_text(r@[4], TAG_SERIAL_NUMBER, meta.serial@),
        is_rationals(r@[5], TAG_EXPOSURE_TIME, seq![(meta.measured_shutter_us, 1000000u32)]),
{
    let mut r: Vec<TagEntry> = Vec::new();
    r.push(tag_undefined(TAG_EXIF_VERSION, vec![48u8, 50u8, 50u8, 48u8]));
    let fnum: u32 = (meta.f_stop_x256 as u32) * 625 / 16;
    proof {
        assert(fnum == meta.f_stop_x256 * 625 / 16);
    }
    r.push(tag_rationals(TAG_F_NUMBER, vec![(fnum, 10000u32)]));
    let iso16: u16 = #[verifier::truncate] (meta.iso as u16);
    r.push(tag_shorts(TAG_ISO_SPEED_RATINGS, vec![iso16]));
    r.push(tag_rationals(TAG_FOCAL_LENGTH, vec![(meta.focal_length_x1000, 1000u32)]));
    r.push(tag_text(TAG_SERIAL_NUMBER, meta.serial.clone()));
    r.push(tag_rationals(TAG_EXPOSURE_TIME, vec![(meta.measured_shutter_us, 1000000u32)]));
    r
}

/// The planned strips, concatenated back in order.
pub open spec fn spec_concat_strips(s: Seq<Seq<u16>>) -> Seq<u16>
    decreases s.len(),
{
    if s.len() == 0 {
        Seq::empty()
    } else {
        spec_concat_strips(s.drop_last()) + s.last()
    }
}

/// Copies `image[from..to]` into a fresh vector.
fn copy_u16_range(image: &Vec<u16>, from: usize, to: usize) -> (r: Vec<u16>)
    requires
        from <= to <= image@.len(),
    ensures
        r@ == image@.subrange(from as int, to as int),
{
    let mut out: Vec<u16> = Vec::new();
    let mut j: usize = from;
    while j < to
        invariant
            from <= j <= to <= image@.len(),
            out@ == image@.subrange(from as int, j as int),
        decreases to - j,
    {
        out.push(image[j]);
        assert(out@ =~= image@.subrange(from as int, j + 1));
        j += 1;
    }
    out
}

/// Partitions the sensor plane into strips of `rows_per_strip` rows each
/// (the last strip takes what remains).  Every sample is covered exactly
/// once, in order: the strips concatenate back to the plane.  Fails with
/// `SizeMismatch` when a strip would hold no samples.
pub fn split_strips(image: &Vec<u16>, width: u32, rows_per_strip: u32) -> (r: Result<
    Vec<Vec<u16>>,
    IaError,
>)
    ensures
        r is Ok <==> width > 0 && rows_per_strip > 0,
        r is Err ==> r.unwrap_err() == IaError::SizeMismatch,
        r is Ok ==> ({
            let ss = r.unwrap().deep_view();
            let chunk = (rows_per_strip as int) * (width as int);
            &&& spec_concat_strips(ss) == image@
            &&& forall|i: int| 0 <= i < ss.len() ==> 0 < (#[trigger] ss[i]).len() <= chunk
            &&& forall|i: int| 0 <= i < ss.len() - 1 ==> (#[trigger] ss[i]).len() == chunk
        }),
{
    if width == 0 || rows_per_strip == 0 {
        return Err(IaError::SizeMismatch);
    }
    proof {
        assert((rows_per_strip as int) * (width as int) <= 0xFFFF_FFFF * 0xFFFF_FFFF && 0 < (
        rows_per_strip as int) * (width as int)) by (nonlinear_arith)
            requires
                0 < rows_per_strip <= 0xFFFF_FFFFu32,
                0 < width <= 0xFFFF_FFFFu32,
        ;
    }
    let chunk: u64 = (rows_per_strip as u64) * (width as u64);
    let len: usize = image.len();
    let mut out: Vec<Vec<u16>> = Vec::new();
    let mut pos: usize = 0;
    while pos < len
        invariant
            len == image@.len(),
            chunk == (rows_per_strip as int) * (width as int),
            chunk > 0,
            pos <= len,
            pos == len || out@.len() == 0 || spec_concat_strips(out.deep_view()).len() == pos,
            spec_concat_strips(out.deep_view()) == image@.subrange(0, pos as int),
            forall|i: int|
                0 <= i < out.deep_view().len() ==> 0 < (#[trigger] out.deep_view()[i]).len()
                    <= chunk,
            forall|i: int|
                0 <= i < out.deep_view().len() - 1 ==> (#[trigger] out.deep_view()[i]).len()
                    == chunk,
            out.deep_view().len() > 0 ==> (pos < len ==> out.deep_view().last().len() == chunk),
        decreases len - pos,
    {
        let remaining: usize = len - pos;
        let step: usize = if chunk < (remaining as u64) {
            chunk as usize
        } else {
            remaining
        };
        let strip = copy_u16_range(image, pos, pos + step);
        let ghost old_view = out.deep_view();
        out.push(strip);
        proof {
            let nv = out.deep_view();
            assert(nv.len() == old_view.len() + 1);
            assert forall|i: int| 0 <= i < old_view.len() implies #[trigger] nv[i]
                == old_view[i] by {}
            assert(nv.last() == strip@);
            assert(nv.drop_last() =~= old_view);
            assert(spec_concat_strips(nv) == spec_concat_strips(old_view) + strip@);
            assert(spec_concat_strips(nv) =~= image@.subrange(0, (pos + step) as int));
        }
        pos += step;
    }
    proof {
        assert(image@.subrange(0, len as int) =~= image@);
    }
    Ok(out)
}

/// The strip location tags of the sensor sub-directory, from the offsets
/// the data writes returned: strip offsets, byte counts (two bytes per
/// 16-bit sample) and the row count of each strip.  Fails with
/// `SizeMismatch` unless there is exactly one offset per strip.
pub fn build_strip_tags(strips: &Vec<Vec<u16>>, offsets: &Vec<u32>, width: u32) -> (r: Result<
    Vec<TagEntry>,
    IaError,
>)
    requires
        forall|i: int| 0 <= i < strips@.len() ==> (#[trigger] strips@[i])@.len() <= 0x7FFF_FFFF,
    ensures
        r is Ok <==> (offsets@.len() == strips@.len() && width > 0),
        r is Err ==> r.unwrap_err() == IaError::SizeMismatch,
        r is Ok ==> ({
            let t = r.unwrap()@;
            &&& t.len() == 3
            &&& is_longs(t[0], TAG_STRIP_OFFSETS, offsets@)
            &&& is_longs(
                t[1],
                TAG_STRIP_BYTE_COUNTS,
                Seq::new(strips@.len(), |i: int| (2 * strips@[i]@.len()) as u32),
            )
            &&& is_longs(
                t[2],
                TAG_ROWS_PER_STRIP,
                Seq::new(
                    strips@.len(),
                    |i: int| ((strips@[i]@.len() as int) / (width as int)) as u32,
                ),
            )
        }),
{
    if offsets.len() != strips.len() || width == 0 {
        return Err(IaError::SizeMismatch);
    }
    let n: usize = strips.len();
    let mut byte_counts: Vec<u32> = Vec::new();
    let mut row_counts: Vec<u32> = Vec::new();
    let mut i: usize = 0;
    while i < n
        invariant
            n == strips@.len(),
            width > 0,
            forall|j: int| 0 <= j < n ==> (#[trigger] strips@[j])@.len() <= 0x7FFF_FFFF,
            i <= n,
            byte_counts@.len() == i,
            row_counts@.len() == i,
            forall|j: int|
                0 <= j < i ==> #[trigger] byte_counts@[j] == (2 * strips@[j]@.len()) as u32,
            forall|j: int|
                0 <= j < i ==> #[trigger] row_counts@[j] == ((strips@[j]@.len() as int) / (
                width as int)) as u32,
        decreases n - i,
    {
        let slen: usize = strips[i].len();
        byte_counts.push((2 * slen) as u32);
        row_counts.push((slen / (width as usize)) as u32);
        proof {
            assert((strips@[i as int]@.len() as int) / (width as int) <= strips@[i as int]@.len());
        }
        i += 1;
    }
    let mut r: Vec<TagEntry> = Vec::new();
    r.push(tag_longs(TAG_STRIP_OFFSETS, offsets.clone()));
    r.push(tag_longs(TAG_STRIP_BYTE_COUNTS, byte_counts));
    r.push(tag_longs(TAG_ROWS_PER_STRIP, row_counts));
    Ok(r)
}

/// The creation timestamp of the output container.
///
/// Relies on chrono's `Local::now` and `DateTime::format`: the wall-clock
/// time rendered as `YYYY:MM:DD HH:MM:SS`.  The value depends on the
/// clock and the time zone, so nothing is stated of it.
#[verifier::external_body]
pub fn creation_timestamp() -> String {
    chrono::Local::now().format("%Y:%m:%d %H:%M:%S").to_string()
}

/// The root directory's pointers to the sub-directories, from the offsets
/// their builds returned: the sensor sub-directory list and the metadata
/// directory pointer.
pub fn build_pointer_tags(raw_ifd_offset: u32, exif_ifd_offset: u32) -> (r: Vec<TagEntry>)
    ensures
        r@.len() == 2,
        is_longs(r@[0], TAG_SUB_IFDS, seq![raw_ifd_offset]),
        is_longs(r@[1], TAG_EXIF_IFD_POINTER, seq![exif_ifd_offset]),
{
    let mut r: Vec<TagEntry> = Vec::new();
    r.push(tag_longs(TAG_SUB_IFDS, vec![raw_ifd_offset]));
    r.push(tag_longs(TAG_EXIF_IFD_POINTER, vec![exif_ifd_offset]));
    r
}

} // verus!

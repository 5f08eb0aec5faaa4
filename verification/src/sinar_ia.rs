//! Capture metadata decoder.
//!
//! One lump of a capture container holds a fixed-layout metadata record.
//! Every field sits at a documented byte offset, integers are little-endian,
//! and text fields are NUL-padded ASCII.  The serial number yields a short
//! model code (the part before the first `-`), which the model tables map to
//! a display name and to the sensor dimensions; a code absent from the
//! tables is fatal for the capture, since the dimensions are required
//! downstream.

use vstd::prelude::*;
use vstd::string::StringExecFns;
use crate::IaError;
use crate::correct::{
    apply_white, buf_mid, buf_ok, normalize, rat_lt, rescale_to_u16, spec_rat_max, spec_rat_min,
    spec_rescale_val, subtract_dual_black, Pixel,
};
use crate::pwad::{copy_range, read_u16_at, read_u32_at, spec_le_u16_at, spec_le_u32_at, Pwad,
    spec_read_lump};

verus! {

/// Thumbnail width in the output container.
pub const THUMB_WD: u32 = 356;

/// Thumbnail height in the output container.
pub const THUMB_HT: u32 = 476;

/// Name of the metadata lump.
pub open spec fn spec_meta_key() -> Seq<u8> {
    seq![77u8, 69u8, 84u8, 65u8, 0u8, 0u8, 0u8, 0u8]
}

/// Name of the primary sensor-data lump.
pub open spec fn spec_raw_key() -> Seq<u8> {
    seq![82u8, 65u8, 87u8, 48u8, 0u8, 48u8, 0u8, 0u8]
}

/// Name of the thumbnail lump.
pub open spec fn spec_thumb_key() -> Seq<u8> {
    seq![84u8, 72u8, 85u8, 77u8, 66u8, 0u8, 0u8, 0u8]
}

/// Name of the first black-reference lump.
pub open spec fn spec_black0_key() -> Seq<u8> {
    seq![66u8, 76u8, 65u8, 67u8, 75u8, 48u8, 0u8, 0u8]
}

/// Name of the second black-reference lump.
pub open spec fn spec_black1_key() -> Seq<u8> {
    seq![66u8, 76u8, 65u8, 67u8, 75u8, 49u8, 0u8, 0u8]
}

/// Name of the white-reference lump.
pub open spec fn spec_white_key() -> Seq<u8> {
    seq![87u8, 72u8, 73u8, 84u8, 69u8, 0u8, 0u8, 0u8]
}

/// The metadata lump tag, `"META"` padded with NULs.
pub fn meta_key() -> (r: Vec<u8>)
    ensures
        r@ == spec_meta_key(),
{
    let v: Vec<u8> = vec![77u8, 69u8, 84u8, 65u8, 0u8, 0u8, 0u8, 0u8];
    proof {
        assert(v@ =~= spec_meta_key());
    }
    v
}

/// The primary sensor-data lump tag.
pub fn raw_key() -> (r: Vec<u8>)
    ensures
        r@ == spec_raw_key(),
{
    let v: Vec<u8> = vec![82u8, 65u8, 87u8, 48u8, 0u8, 48u8, 0u8, 0u8];
    proof {
        assert(v@ =~= spec_raw_key());
    }
    v
}

/// The thumbnail lump tag.
pub fn thumb_key() -> (r: Vec<u8>)
    ensures
        r@ == spec_thumb_key(),
{
    let v: Vec<u8> = vec![84u8, 72u8, 85u8, 77u8, 66u8, 0u8, 0u8, 0u8];
    proof {
        assert(v@ =~= spec_thumb_key());
    }
    v
}

/// The first black-reference lump tag.
pub fn black0_key() -> (r: Vec<u8>)
    ensures
        r@ == spec_black0_key(),
{
    let v: Vec<u8> = vec![66u8, 76u8, 65u8, 67u8, 75u8, 48u8, 0u8, 0u8];
    proof {
        assert(v@ =~= spec_black0_key());
    }
    v
}

/// The second black-reference lump tag.
pub fn black1_key() -> (r: Vec<u8>)
    ensures
        r@ == spec_black1_key(),
{
    let v: Vec<u8> = vec![66u8, 76u8, 65u8, 67u8, 75u8, 49u8, 0u8, 0u8];
    proof {
        assert(v@ =~= spec_black1_key());
    }
    v
}

/// The white-reference lump tag.
pub fn white_key() -> (r: Vec<u8>)
    ensures
        r@ == spec_white_key(),
{
    let v: Vec<u8> = vec![87u8, 72u8, 73u8, 84u8, 69u8, 0u8, 0u8, 0u8];
    proof {
        assert(v@ =~= spec_white_key());
    }
    v
}

/// White-balance setting, decoded from an integer code.  Codes outside the
/// documented range map to `Unknown`; decoding never fails.
#[derive(Debug, PartialEq, Eq, Structural, Clone, Copy)]
pub enum WhiteBalance {
    Manual,
    Flash,
    Neon,
    Tungsten,
    Shadow,
    Sun,
    Cloudy,
    Unknown,
}

/// The white-balance variant a stored code stands for.
pub open spec fn spec_white_balance(value: u16) -> WhiteBalance {
    if value == 0 {
        WhiteBalance::Flash
    } else if value == 1 {
        WhiteBalance::Neon
    } else if value == 2 {
        WhiteBalance::Tungsten
    } else if value == 3 {
        WhiteBalance::Shadow
    } else if value == 4 {
        WhiteBalance::Sun
    } else if value == 5 {
        WhiteBalance::Cloudy
    } else if value == 7 {
        WhiteBalance::Manual
    } else {
        WhiteBalance::Unknown
    }
}

impl WhiteBalance {
    /// Total conversion from the stored code; unmapped codes give `Unknown`.
    pub fn from(value: u16) -> (r: Self)
        ensures
            r == spec_white_balance(value),
    {
        match value {
            0 => WhiteBalance::Flash,
            1 => WhiteBalance::Neon,
            2 => WhiteBalance::Tungsten,
            3 => WhiteBalance::Shadow,
            4 => WhiteBalance::Sun,
            5 => WhiteBalance::Cloudy,
            6 => WhiteBalance::Unknown,
            7 => WhiteBalance::Manual,
            _ => WhiteBalance::Unknown,
        }
    }
}

/// Short code of the Emotion 22 back, the bytes of `"e22"`.
pub open spec fn spec_code_e22() -> Seq<u8> {
    seq![101u8, 50u8, 50u8]
}

/// Short code of the Emotion 75 back, the bytes of `"e75"`.
pub open spec fn spec_code_e75() -> Seq<u8> {
    seq![101u8, 55u8, 53u8]
}

/// Display name a short model code stands for, if the code is known.
pub open spec fn spec_model_name(code: Seq<u8>) -> Option<Seq<char>> {
    if code == spec_code_e22() {
        Some("Emotion 22"@)
    } else if code == spec_code_e75() {
        Some("Emotion 75"@)
    } else {
        None
    }
}

/// Sensor plane (width, height) in pixels for a known short model code.
pub open spec fn spec_model_size(code: Seq<u8>) -> Option<(u32, u32)> {
    if code == spec_code_e22() {
        Some((5344u32, 4008u32))
    } else if code == spec_code_e75() {
        Some((6668u32, 4992u32))
    } else {
        None
    }
}

/// Does `code` hold exactly the three given bytes?
fn code_is(code: &Vec<u8>, a: u8, b: u8, c: u8) -> (r: bool)
    ensures
        r == (code@ == seq![a, b, c]),
{
    if code.len() == 3 && code[0] == a && code[1] == b && code[2] == c {
        proof {
            assert(code@ =~= seq![a, b, c]);
        }
        true
    } else {
        proof {
            if code@ == seq![a, b, c] {
                assert(code@.len() == 3);
                assert(code@[0] == a && code@[1] == b && code@[2] == c);
            }
        }
        false
    }
}

/// Model-table lookup: short code to display name.
pub fn model_name(code: &Vec<u8>) -> (r: Option<String>)
    ensures
        r is Some <==> spec_model_name(code@) is Some,
        r is Some ==> r.unwrap()@ == spec_model_name(code@).unwrap(),
{
    if code_is(code, 101, 50, 50) {
        Some(String::from_str("Emotion 22"))
    } else if code_is(code, 101, 55, 53) {
        Some(String::from_str("Emotion 75"))
    } else {
        None
    }
}

/// Model-table lookup: short code to sensor (width, height).
pub fn model_size(code: &Vec<u8>) -> (r: Option<(u32, u32)>)
    ensures
        r == spec_model_size(code@),
{
    if code_is(code, 101, 50, 50) {
        Some((5344, 4008))
    } else if code_is(code, 101, 55, 53) {
        Some((6668, 4992))
    } else {
        None
    }
}

/// `s` with its trailing NUL padding removed.
pub open spec fn spec_trim_nuls(s: Seq<u8>) -> Seq<u8>
    decreases s.len(),
{
    if s.len() > 0 && s.last() == 0 {
        spec_trim_nuls(s.drop_last())
    } else {
        s
    }
}

/// Every byte of `s` is 7-bit ASCII.
pub open spec fn all_ascii(s: Seq<u8>) -> bool {
    forall|i: int| 0 <= i < s.len() ==> #[trigger] s[i] < 128
}

/// The characters the ASCII bytes of `s` stand for.
pub open spec fn ascii_chars(s: Seq<u8>) -> Seq<char> {
    Seq::new(s.len(), |i: int| s[i] as char)
}

/// The short model code: the serial's bytes before the first `-`.
pub open spec fn spec_short_code(s: Seq<u8>) -> Seq<u8>
    decreases s.len(),
{
    if s.len() == 0 {
        s
    } else if s.first() == 45 {
        Seq::empty()
    } else {
        seq![s.first()] + spec_short_code(s.drop_first())
    }
}

/// The short code is the prefix up to the first `-` (or the whole string).
proof fn lemma_short_code_prefix(s: Seq<u8>, i: int)
    requires
        0 <= i <= s.len(),
        forall|j: int| 0 <= j < i ==> s[j] != 45,
        i < s.len() ==> s[i] == 45,
    ensures
        spec_short_code(s) == s.subrange(0, i),
    decreases s.len(),
{
    if s.len() == 0 {
        assert(s.subrange(0, i) =~= s);
    } else if s.first() == 45 {
        assert(i == 0);
        assert(s.subrange(0, 0) =~= Seq::<u8>::empty());
    } else {
        assert(i >= 1);
        let t = s.drop_first();
        assert(forall|j: int| 0 <= j < i - 1 ==> #[trigger] t[j] == s[j + 1]);
        lemma_short_code_prefix(t, i - 1);
        assert(spec_short_code(s) == seq![s.first()] + t.subrange(0, i - 1));
        assert(seq![s.first()] + t.subrange(0, i - 1) =~= s.subrange(0, i));
    }
}

/// Checks that every byte is 7-bit ASCII.
fn check_ascii(v: &Vec<u8>) -> (r: bool)
    ensures
        r == all_ascii(v@),
{
    let mut i: usize = 0;
    let n = v.len();
    while i < n
        invariant
            0 <= i <= n == v@.len(),
            forall|j: int| 0 <= j < i ==> #[trigger] v@[j] < 128,
        decreases n - i,
    {
        if v[i] >= 128 {
            return false;
        }
        i += 1;
    }
    true
}

/// Removes the trailing NUL padding.
fn trim_nuls(v: &Vec<u8>) -> (r: Vec<u8>)
    ensures
        r@ == spec_trim_nuls(v@),
{
    let mut n: usize = v.len();
    assert(v@.subrange(0, n as int) =~= v@);
    while n > 0 && v[n - 1] == 0
        invariant
            0 <= n <= v@.len(),
            spec_trim_nuls(v@) == spec_trim_nuls(v@.subrange(0, n as int)),
        decreases n,
    {
        proof {
            let s = v@.subrange(0, n as int);
            assert(s.last() == v@[n - 1]);
            assert(s.drop_last() =~= v@.subrange(0, n - 1));
        }
        n -= 1;
    }
    proof {
        let s = v@.subrange(0, n as int);
        if n > 0 {
            assert(s.last() == v@[n - 1]);
            assert(s.last() != 0);
        }
        assert(spec_trim_nuls(s) == s);
    }
    copy_range(v, 0, n)
}

/// Builds the `String` the ASCII bytes spell.
///
/// Relies on `String::from_utf8`: ASCII bytes are valid UTF-8 and decode to
/// the characters with the same code points.
#[verifier::external_body]
pub(crate) fn ascii_to_string(bytes: &Vec<u8>) -> (r: String)
    requires
        all_ascii(bytes@),
    ensures
        r@ == ascii_chars(bytes@),
{
    String::from_utf8(bytes.clone()).unwrap()
}

/// The short model code of the serial field: its bytes before the first `-`.
fn short_code(serial: &Vec<u8>) -> (r: Vec<u8>)
    ensures
        r@ == spec_short_code(serial@),
{
    let n = serial.len();
    let mut i: usize = 0;
    while i < n && serial[i] != 45
        invariant
            0 <= i <= n == serial@.len(),
            forall|j: int| 0 <= j < i ==> #[trigger] serial@[j] != 45,
        decreases n - i,
    {
        i += 1;
    }
    proof {
        lemma_short_code_prefix(serial@, i as int);
    }
    copy_range(serial, 0, i)
}

/// Decoded capture metadata.  Fixed-point quantities are kept in their
/// stored integer form: the f-number is `f_stop_x256 / 256`, the focal
/// length is `focal_length_x1000 / 1000` millimetres.
#[derive(Debug)]
pub struct SinarIAMeta {
    /// Shutter actuation counter; also names the output file.
    pub shutter_count: u32,
    /// Camera (body) display name.
    pub camera: String,
    /// Measured exposure time in microseconds.
    pub measured_shutter_us: u32,
    /// Requested exposure time in microseconds.
    pub req_shutter_us: u32,
    /// F-number times 256.
    pub f_stop_x256: u16,
    /// File name of the black-reference container, relative to the capture.
    pub black_ref: String,
    /// ISO speed rating.
    pub iso: u32,
    /// Serial number; its prefix before the first `-` is the model code.
    pub serial: String,
    /// Model display name resolved from the model tables.
    pub model: String,
    /// Sensor plane height in pixels, from the model tables.
    pub height: u32,
    /// Sensor plane width in pixels, from the model tables.
    pub width: u32,
    /// Decoded white-balance setting.
    pub white_balance_name: WhiteBalance,
    /// Focal length in millimetres times 1000.
    pub focal_length_x1000: u32,
    /// File name of the white-reference container, relative to the capture.
    pub white_ref: String,
}

/// Byte range of the camera-name field.
pub open spec fn spec_camera_bytes(m: Seq<u8>) -> Seq<u8> {
    spec_trim_nuls(m.subrange(20, 64))
}

/// Byte range of the black-reference file name.
pub open spec fn spec_black_ref_bytes(m: Seq<u8>) -> Seq<u8> {
    spec_trim_nuls(m.subrange(122, 172))
}

/// Byte range of the white-reference file name.
pub open spec fn spec_white_ref_bytes(m: Seq<u8>) -> Seq<u8> {
    spec_trim_nuls(m.subrange(186, 236))
}

/// Byte range of the serial-number field.
pub open spec fn spec_serial_bytes(m: Seq<u8>) -> Seq<u8> {
    spec_trim_nuls(m.subrange(272, 288))
}

/// All four text fields are ASCII over their full padded extent.
pub open spec fn spec_meta_strings_ok(m: Seq<u8>) -> bool {
    &&& all_ascii(m.subrange(20, 64))
    &&& all_ascii(m.subrange(122, 172))
    &&& all_ascii(m.subrange(186, 236))
    &&& all_ascii(m.subrange(272, 288))
}

/// The short model code encoded in the serial field.
pub open spec fn spec_model_code(m: Seq<u8>) -> Seq<u8> {
    spec_short_code(spec_serial_bytes(m))
}

/// The record is long enough and its text fields decode.
pub open spec fn spec_meta_format_ok(m: Seq<u8>) -> bool {
    m.len() >= 368 && spec_meta_strings_ok(m)
}

/// The record decodes in full: format fine and model code known.
pub open spec fn spec_meta_ok(m: Seq<u8>) -> bool {
    &&& spec_meta_format_ok(m)
    &&& spec_model_name(spec_model_code(m)) is Some
    &&& spec_model_size(spec_model_code(m)) is Some
}

impl SinarIAMeta {
    /// Every field of the decoded record agrees with the lump bytes `m`.
    pub open spec fn decodes(&self, m: Seq<u8>) -> bool {
        &&& self.shutter_count == spec_le_u32_at(m, 4)
        &&& self.camera@ == ascii_chars(spec_camera_bytes(m))
        &&& self.white_balance_name == spec_white_balance(spec_le_u16_at(m, 100))
        &&& self.measured_shutter_us == spec_le_u32_at(m, 104)
        &&& self.black_ref@ == ascii_chars(spec_black_ref_bytes(m))
        &&& self.white_ref@ == ascii_chars(spec_white_ref_bytes(m))
        &&& self.iso == spec_le_u32_at(m, 252)
        &&& self.serial@ == ascii_chars(spec_serial_bytes(m))
        &&& self.req_shutter_us == spec_le_u32_at(m, 344)
        &&& self.f_stop_x256 == spec_le_u16_at(m, 352)
        &&& self.focal_length_x1000 == spec_le_u32_at(m, 356)
        &&& self.model@ == spec_model_name(spec_model_code(m)).unwrap()
        &&& Some((self.width, self.height)) == spec_model_size(spec_model_code(m))
    }

    /// Decodes the fixed-layout metadata record.
    ///
    /// Fails with `Format` when the buffer is shorter than the documented
    /// layout or a text field is not ASCII, and with `UnsupportedModel`
    /// when the short model code is absent from the model tables.
    pub fn process_meta(meta: &Vec<u8>) -> (r: Result<SinarIAMeta, IaError>)
        ensures
            r is Ok <==> spec_meta_ok(meta@),
            r is Ok ==> r.unwrap().decodes(meta@),
            r is Err ==> r.unwrap_err() == (if !spec_meta_format_ok(meta@) {
                IaError::Format
            } else {
                IaError::UnsupportedModel
            }),
    {
        if meta.len() < 368 {
            return Err(IaError::Format);
        }
        let camera_raw = copy_range(meta, 20, 64);
        let black_raw = copy_range(meta, 122, 172);
        let white_raw = copy_range(meta, 186, 236);
        let serial_raw = copy_range(meta, 272, 288);
        if !check_ascii(&camera_raw) || !check_ascii(&black_raw) || !check_ascii(&white_raw)
            || !check_ascii(&serial_raw) {
            return Err(IaError::Format);
        }
        let camera_bytes = trim_nuls(&camera_raw);
        let black_bytes = trim_nuls(&black_raw);
        let white_bytes = trim_nuls(&white_raw);
        let serial_bytes = trim_nuls(&serial_raw);
        proof {
            lemma_trim_nuls_ascii(camera_raw@);
            lemma_trim_nuls_ascii(black_raw@);
            lemma_trim_nuls_ascii(white_raw@);
            lemma_trim_nuls_ascii(serial_raw@);
        }
        let code = short_code(&serial_bytes);
        let name = match model_name(&code) {
            Some(n) => n,
            None => {
                return Err(IaError::UnsupportedModel);
            },
        };
        let (width, height) = match model_size(&code) {
            Some(wh) => wh,
            None => {
                return Err(IaError::UnsupportedModel);
            },
        };
        let shutter_count = read_u32_at(meta, 4);
        let wb_code = read_u16_at(meta, 100);
        let measured_shutter_us = read_u32_at(meta, 104);
        let iso = read_u32_at(meta, 252);
        let req_shutter_us = read_u32_at(meta, 344);
        let f_stop_x256 = read_u16_at(meta, 352);
        let focal_length_x1000 = read_u32_at(meta, 356);
        Ok(
            SinarIAMeta {
                shutter_count,
                camera: ascii_to_string(&camera_bytes),
                measured_shutter_us,
                req_shutter_us,
                f_stop_x256,
                black_ref: ascii_to_string(&black_bytes),
                iso,
                serial: ascii_to_string(&serial_bytes),
                model: name,
                height,
                width,
                white_balance_name: WhiteBalance::from(wb_code),
                focal_length_x1000,
                white_ref: ascii_to_string(&white_bytes),
            },
        )
    }
}

/// The normalized pixel plane a lump's bytes yield: one rational
/// `sample / 65535` per 16-bit little-endian sample, row-major.
pub open spec fn spec_normalized(bytes: Seq<u8>, w: int, h: int) -> Seq<Pixel> {
    Seq::new(
        (w * h) as nat,
        |i: int| Pixel { num: spec_le_u16_at(bytes, 2 * i) as i64, den: 65535i64 },
    )
}

/// The plane after dual-black correction, pointwise
/// `(sample - black0) - (black1 - black0)` over a common denominator.
pub open spec fn spec_subtracted(img: Seq<Pixel>, b0: Seq<Pixel>, b1: Seq<Pixel>) -> Seq<Pixel> {
    Seq::new(
        img.len(),
        |i: int| Pixel {
            num: ((img[i].num - b0[i].num) - (b1[i].num - b0[i].num)) as i64,
            den: img[i].den,
        },
    )
}

/// The plane after white flat-fielding: pointwise division by the
/// co-located white sample; a zero white sample yields exactly zero.
pub open spec fn spec_whitened(img: Seq<Pixel>, w: Seq<Pixel>) -> Seq<Pixel> {
    Seq::new(
        img.len(),
        |i: int|
            if w[i].num > 0 {
                Pixel { num: (img[i].num * w[i].den) as i64, den: (img[i].den * w[i].num) as i64 }
            } else if w[i].num < 0 {
                Pixel {
                    num: (-(img[i].num * w[i].den)) as i64,
                    den: (img[i].den * (-w[i].num)) as i64,
                }
            } else {
                Pixel { num: 0i64, den: 1i64 }
            },
    )
}

/// The container holds the named lump and its size is exactly one 16-bit
/// sample per pixel of a `width` by `height` plane.
pub open spec fn spec_lump_pixels_ok(w: Pwad, key: Seq<u8>, width: int, height: int) -> bool {
    &&& spec_read_lump(w, key) is Some
    &&& spec_read_lump(w, key).unwrap().len() == 2 * width * height
}

/// Everything the mandatory correction needs is present and well-sized:
/// the primary sensor lump and both black-reference lumps.
pub open spec fn spec_capture_ok(primary: Pwad, ia: SinarIAMeta, black: Pwad) -> bool {
    &&& spec_lump_pixels_ok(primary, spec_raw_key(), ia.width as int, ia.height as int)
    &&& spec_lump_pixels_ok(black, spec_black0_key(), ia.width as int, ia.height as int)
    &&& spec_lump_pixels_ok(black, spec_black1_key(), ia.width as int, ia.height as int)
}

/// The error a failed correction reports, in the order the stages run:
/// a missing lump is `NotFound`, a missized one `SizeMismatch`.
pub open spec fn spec_capture_error(primary: Pwad, ia: SinarIAMeta, black: Pwad) -> IaError {
    if spec_read_lump(primary, spec_raw_key()) is None {
        IaError::NotFound
    } else if spec_read_lump(primary, spec_raw_key()).unwrap().len() != 2 * (ia.width as int) * (
    ia.height as int) {
        IaError::SizeMismatch
    } else if spec_read_lump(black, spec_black0_key()) is None {
        IaError::NotFound
    } else if spec_read_lump(black, spec_black0_key()).unwrap().len() != 2 * (ia.width as int) * (
    ia.height as int) {
        IaError::SizeMismatch
    } else if spec_read_lump(black, spec_black1_key()) is None {
        IaError::NotFound
    } else {
        IaError::SizeMismatch
    }
}

/// The white reference takes part only when its container is given, its
/// lump is present and the lump has the plane's size; anything else means
/// dual-black correction alone (the documented best-effort policy).
pub open spec fn spec_white_used(white: Option<&Pwad>, width: int, height: int) -> bool {
    match white {
        Some(wp) => spec_lump_pixels_ok(*wp, spec_white_key(), width, height),
        None => false,
    }
}

/// The corrected plane of a capture, before the final rescale: normalized
/// primary samples, dual-black corrected, and white flat-fielded when the
/// white reference is usable.
pub open spec fn spec_corrected(
    primary: Pwad,
    ia: SinarIAMeta,
    black: Pwad,
    white: Option<&Pwad>,
) -> Seq<Pixel> {
    let w = ia.width as int;
    let h = ia.height as int;
    let raw = spec_normalized(spec_read_lump(primary, spec_raw_key()).unwrap(), w, h);
    let b0 = spec_normalized(spec_read_lump(black, spec_black0_key()).unwrap(), w, h);
    let b1 = spec_normalized(spec_read_lump(black, spec_black1_key()).unwrap(), w, h);
    let sub = spec_subtracted(raw, b0, b1);
    if spec_white_used(white, w, h) {
        spec_whitened(
            sub,
            spec_normalized(spec_read_lump(*white.unwrap(), spec_white_key()).unwrap(), w, h),
        )
    } else {
        sub
    }
}

/// Runs the whole correction of one capture over in-memory containers:
/// reads the primary plane and the two black references, normalizes them,
/// subtracts the dual black reference, divides by the white reference when
/// it is usable (best effort: a missing or missized white lump is ignored),
/// and rescales the result onto the 16-bit output range.
///
/// Succeeds exactly when the primary and both black lumps are present with
/// one 16-bit sample per pixel; the white reference can never fail the
/// capture.
pub fn correct_capture(primary: &Pwad, ia: &SinarIAMeta, black: &Pwad, white: Option<&Pwad>) -> (r:
    Result<Vec<u16>, IaError>)
    requires
        primary.wf(),
        black.wf(),
        white matches Some(wp) ==> wp.wf(),
    ensures
        r is Ok <==> spec_capture_ok(*primary, *ia, *black),
        r is Err ==> r.unwrap_err() == spec_capture_error(*primary, *ia, *black),
        r is Ok ==> ({
            let c = spec_corrected(*primary, *ia, *black, white);
            let lo = spec_rat_min(c);
            let hi = spec_rat_max(c);
            &&& r.unwrap()@.len() == c.len()
            &&& (rat_lt(lo, hi) ==> forall|i: int|
                0 <= i < c.len() ==> r.unwrap()@[i] == spec_rescale_val(c[i], lo, hi))
            &&& (!rat_lt(lo, hi) ==> forall|i: int| 0 <= i < c.len() ==> r.unwrap()@[i] == 0)
        }),
{
    let w = ia.width;
    let h = ia.height;
    let raw_bytes = match primary.read_lump_by_tag(raw_key().as_slice()) {
        Ok(b) => b,
        Err(_) => {
            return Err(IaError::NotFound);
        },
    };
    let mut img = match normalize(&raw_bytes, w, h) {
        Ok(p) => p,
        Err(_) => {
            proof {
                assert(2 * (w as int) * (h as int) == 2 * ((w as int) * (h as int)))
                    by (nonlinear_arith);
            }
            return Err(IaError::SizeMismatch);
        },
    };
    let b0_bytes = match black.read_lump_by_tag(black0_key().as_slice()) {
        Ok(b) => b,
        Err(_) => {
            return Err(IaError::NotFound);
        },
    };
    let b0 = match normalize(&b0_bytes, w, h) {
        Ok(p) => p,
        Err(_) => {
            return Err(IaError::SizeMismatch);
        },
    };
    let b1_bytes = match black.read_lump_by_tag(black1_key().as_slice()) {
        Ok(b) => b,
        Err(_) => {
            return Err(IaError::NotFound);
        },
    };
    let b1 = match normalize(&b1_bytes, w, h) {
        Ok(p) => p,
        Err(_) => {
            return Err(IaError::SizeMismatch);
        },
    };
    let ghost raw_seq = spec_normalized(raw_bytes@, w as int, h as int);
    proof {
        assert(img@ =~= raw_seq);
        assert(b0@ =~= spec_normalized(b0_bytes@, w as int, h as int));
        assert(b1@ =~= spec_normalized(b1_bytes@, w as int, h as int));
    }
    let sub_result = subtract_dual_black(&mut img, &b0, &b1);
    proof {
        assert(sub_result is Ok);
        assert(img@ =~= spec_subtracted(raw_seq, b0@, b1@));
    }
    let ghost sub_seq = img@;
    proof {
        assert forall|i: int| 0 <= i < sub_seq.len() implies crate::correct::pixel_mid(
            sub_seq[i],
        ) by {
            assert(raw_seq[i].num <= 65535 && raw_seq[i].num >= 0);
            assert(b0@[i].num <= 65535 && b0@[i].num >= 0);
            assert(b1@[i].num <= 65535 && b1@[i].num >= 0);
        }
        assert(buf_mid(sub_seq));
    }
    let mut white_used: bool = false;
    let ghost mut white_seq: Seq<Pixel> = Seq::empty();
    match white {
        Some(wp) => {
            match wp.read_lump_by_tag(white_key().as_slice()) {
                Ok(wbytes) => {
                    match normalize(&wbytes, w, h) {
                        Ok(wpix) => {
                            proof {
                                assert(buf_mid(wpix@));
                            }
                            let apply_result = apply_white(&mut img, &wpix);
                            proof {
                                assert(apply_result is Ok);
                                assert(img@ =~= spec_whitened(sub_seq, wpix@));
                                white_seq = wpix@;
                            }
                            white_used = true;
                        },
                        Err(_) => {},
                    }
                },
                Err(_) => {},
            }
        },
        None => {},
    }
    proof {
        let c = spec_corrected(*primary, *ia, *black, white);
        if white_used {
            assert(spec_white_used(white, w as int, h as int));
            assert(img@ =~= c);
        } else {
            assert(!spec_white_used(white, w as int, h as int));
            assert(img@ =~= c);
        }
        assert forall|i: int| 0 <= i < img@.len() implies crate::correct::pixel_ok(
            #[trigger] img@[i],
        ) by {
            if white_used {
                let a = sub_seq[i];
                let wx = white_seq[i];
                assert(-131070 <= a.num <= 131070);
                assert(a.den == 65535);
                assert(0 <= wx.num <= 65535 && wx.den == 65535);
                if wx.num > 0 {
                    assert(a.num * wx.den <= 0x10_0000_0000 && a.num * wx.den >= -0x10_0000_0000
                        && 1 <= a.den * wx.num <= 0x10_0000_0000) by (nonlinear_arith)
                        requires
                            -131070 <= a.num <= 131070,
                            a.den == 65535,
                            1 <= wx.num <= 65535,
                            wx.den == 65535,
                    ;
                }
            } else {
                assert(-131070 <= img@[i].num <= 131070 && img@[i].den == 65535);
            }
        }
        assert(buf_ok(img@));
    }
    Ok(rescale_to_u16(&img))
}

/// Trimming NUL padding keeps a prefix, so an ASCII field stays ASCII.
proof fn lemma_trim_nuls_ascii(s: Seq<u8>)
    requires
        all_ascii(s),
    ensures
        all_ascii(spec_trim_nuls(s)),
    decreases s.len(),
{
    if s.len() > 0 && s.last() == 0 {
        assert(forall|j: int|
            0 <= j < s.len() - 1 ==> #[trigger] s.drop_last()[j] == s[j]);
        lemma_trim_nuls_ascii(s.drop_last());
    }
}

} // verus!

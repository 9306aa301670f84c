//! Capture-metadata handling: a plain-value model of parsed metadata
//! fields, the human-readable summary, orientation extraction and
//! normalization inside a serialized metadata block, and the byte-level
//! splicing of a metadata segment into an encoded JPEG stream.

use vstd::prelude::*;

use crate::image_processor::ExifSummary;
use crate::strutil::{ascii_lower_chars, chars_to_string, str_to_chars, trim_chars};

verus! {

/// The raw value of a metadata field, in the numeric encodings the
/// orientation tag may use; other encodings are opaque here.
#[derive(Debug, Clone)]
pub enum NumVal {
    U8(Vec<u8>),
    U16(Vec<u16>),
    U32(Vec<u32>),
    I8(Vec<i8>),
    I16(Vec<i16>),
    I32(Vec<i32>),
    Other,
}

/// One parsed metadata field: tag number, human-readable value, raw value.
#[derive(Debug, Clone)]
pub struct ExifField {
    pub tag: u16,
    pub readable: String,
    pub numeric: NumVal,
}

/// What rexif parses out of an image: the fields of its metadata block,
/// or nothing when the image has none it can read.
pub uninterp spec fn exif_fields_of(bytes: Seq<u8>) -> Option<Seq<ExifField>>;

/// Relies on rexif::parse_buffer_quiet: parses the embedded metadata of a
/// JPEG or TIFF buffer; the result depends on the bytes alone.
#[verifier::external_body]
pub fn parse_exif_fields(bytes: &Vec<u8>) -> (r: Option<Vec<ExifField>>)
    ensures
        match r {
            Option::Some(v) => exif_fields_of(bytes@) == Option::Some(v@),
            Option::None => exif_fields_of(bytes@) is None,
        },
{
    let (res, _warnings) = rexif::parse_buffer_quiet(bytes);
    res.ok().map(
        |data|
            data.entries.iter().map(
                |e| ExifField {
                    tag: e.tag as u16,
                    readable: e.value_more_readable.to_string(),
                    numeric: numval_of(&e.value),
                },
            ).collect(),
    )
}

#[verifier::external_type_specification]
#[verifier::external_body]
pub struct ExTagValue(rexif::TagValue);

/// Relies on the rexif::TagValue variants: copies the numeric encodings,
/// leaving every other encoding opaque.
#[verifier::external_body]
fn numval_of(v: &rexif::TagValue) -> NumVal {
    match v {
        rexif::TagValue::U8(x) => NumVal::U8(x.clone()),
        rexif::TagValue::U16(x) => NumVal::U16(x.clone()),
        rexif::TagValue::U32(x) => NumVal::U32(x.clone()),
        rexif::TagValue::I8(x) => NumVal::I8(x.clone()),
        rexif::TagValue::I16(x) => NumVal::I16(x.clone()),
        rexif::TagValue::I32(x) => NumVal::I32(x.clone()),
        _ => NumVal::Other,
    }
}

/// What rexif serializes the parsed metadata of an image back into: a
/// TIFF-structured block, or nothing when parsing or serialization fails.
pub uninterp spec fn exif_block_of(bytes: Seq<u8>) -> Option<Seq<u8>>;

/// Relies on rexif::parse_buffer_quiet and rexif::ExifData::serialize:
/// re-serializes the embedded metadata; the result depends on the bytes
/// alone.
#[verifier::external_body]
pub fn serialize_exif(bytes: &Vec<u8>) -> (r: Option<Vec<u8>>)
    ensures
        match r {
            Option::Some(v) => exif_block_of(bytes@) == Option::Some(v@),
            Option::None => exif_block_of(bytes@) is None,
        },
{
    let (res, _warnings) = rexif::parse_buffer_quiet(bytes);
    res.ok().and_then(|data| data.serialize().ok())
}

/// The orientation code read from a raw field value: the first element,
/// widened or clamped into a `u16`, negatives mapped to zero; nothing for
/// non-numeric encodings or empty values.
pub fn tag_value_to_u16(value: &NumVal) -> (r: Option<u16>)
    ensures
        match value {
            NumVal::U16(v) => r == if v@.len() > 0 {
                Option::Some(v@[0])
            } else {
                Option::<u16>::None
            },
            NumVal::U8(v) => r == if v@.len() > 0 {
                Option::Some(v@[0] as u16)
            } else {
                Option::<u16>::None
            },
            NumVal::U32(v) => r == if v@.len() > 0 {
                if v@[0] <= 0xffff {
                    Option::Some(v@[0] as u16)
                } else {
                    Option::Some(0xffffu16)
                }
            } else {
                Option::<u16>::None
            },
            NumVal::I16(v) => r == if v@.len() > 0 {
                if v@[0] < 0 {
                    Option::Some(0u16)
                } else {
                    Option::Some(v@[0] as u16)
                }
            } else {
                Option::<u16>::None
            },
            NumVal::I32(v) => r == if v@.len() > 0 {
                if v@[0] < 0 {
                    Option::Some(0u16)
                } else if v@[0] <= 0xffff {
                    Option::Some(v@[0] as u16)
                } else {
                    Option::Some((v@[0] % 0x10000) as u16)
                }
            } else {
                Option::<u16>::None
            },
            NumVal::I8(v) => r == if v@.len() > 0 {
                if v@[0] < 0 {
                    Option::Some(0u16)
                } else {
                    Option::Some(v@[0] as u16)
                }
            } else {
                Option::<u16>::None
            },
            NumVal::Other => r is None,
        },
{
    match value {
        NumVal::U16(v) => {
            if v.len() > 0 {
                Option::Some(v[0])
            } else {
                Option::None
            }
        },
        NumVal::U8(v) => {
            if v.len() > 0 {
                Option::Some(v[0] as u16)
            } else {
                Option::None
            }
        },
        NumVal::U32(v) => {
            if v.len() > 0 {
                if v[0] <= 0xffff {
                    Option::Some(v[0] as u16)
                } else {
                    Option::Some(0xffff)
                }
            } else {
                Option::None
            }
        },
        NumVal::I16(v) => {
            if v.len() > 0 {
                if v[0] < 0 {
                    Option::Some(0)
                } else {
                    Option::Some(v[0] as u16)
                }
            } else {
                Option::None
            }
        },
        NumVal::I32(v) => {
            if v.len() > 0 {
                if v[0] < 0 {
                    Option::Some(0)
                } else {
                    if v[0] <= 0xffff {
                        Option::Some(v[0] as u16)
                    } else {
                        Option::Some((v[0] % 0x10000) as u16)
                    }
                }
            } else {
                Option::None
            }
        },
        NumVal::I8(v) => {
            if v.len() > 0 {
                if v[0] < 0 {
                    Option::Some(0)
                } else {
                    Option::Some(v[0] as u16)
                }
            } else {
                Option::None
            }
        },
        NumVal::Other => Option::None,
    }
}

/// The tag number of the orientation field.
pub const ORIENTATION_TAG: u16 = 0x0112;

/// Index of the first field with tag `tag`, or -1.
pub open spec fn spec_field_find(fields: Seq<ExifField>, tag: u16) -> int
    decreases fields.len(),
{
    if fields.len() == 0 {
        -1
    } else if fields[0].tag == tag {
        0
    } else {
        let r = spec_field_find(fields.drop_first(), tag);
        if r < 0 {
            -1
        } else {
            1 + r
        }
    }
}

proof fn lemma_field_find_unique(fields: Seq<ExifField>, tag: u16, i: int)
    requires
        0 <= i <= fields.len(),
        forall|k: int| 0 <= k < i ==> fields[k].tag != tag,
        i < fields.len() ==> fields[i].tag == tag,
    ensures
        i < fields.len() ==> spec_field_find(fields, tag) == i,
        i == fields.len() ==> spec_field_find(fields, tag) < 0,
    decreases fields.len(),
{
    if fields.len() == 0 {
    } else if fields[0].tag == tag {
        assert(i == 0);
    } else {
        lemma_field_find_unique(fields.drop_first(), tag, i - 1);
    }
}

proof fn lemma_field_find_props(fields: Seq<ExifField>, tag: u16)
    ensures
        spec_field_find(fields, tag) >= 0 ==> spec_field_find(fields, tag) < fields.len()
            && fields[spec_field_find(fields, tag)].tag == tag,
    decreases fields.len(),
{
    if fields.len() == 0 {
    } else if fields[0].tag == tag {
    } else {
        lemma_field_find_props(fields.drop_first(), tag);
    }
}

/// Finds the first field with the given tag.
pub fn find_field(fields: &Vec<ExifField>, tag: u16) -> (r: Option<usize>)
    ensures
        match r {
            Option::Some(k) => k < fields@.len() && spec_field_find(fields@, tag) == k,
            Option::None => spec_field_find(fields@, tag) < 0,
        },
{
    let mut i: usize = 0;
    while i < fields.len()
        invariant
            i <= fields@.len(),
            forall|j: int| 0 <= j < i ==> fields@[j].tag != tag,
        decreases fields@.len() - i,
    {
        if fields[i].tag == tag {
            proof {
                lemma_field_find_unique(fields@, tag, i as int);
            }
            return Option::Some(i);
        }
        i = i + 1;
    }
    proof {
        lemma_field_find_unique(fields@, tag, fields@.len() as int);
    }
    Option::None
}

/// The orientation code a raw field value denotes; see `tag_value_to_u16`.
pub open spec fn spec_tag_value_u16(value: NumVal) -> Option<u16> {
    match value {
        NumVal::U16(v) => if v@.len() > 0 {
            Some(v@[0])
        } else {
            None
        },
        NumVal::U8(v) => if v@.len() > 0 {
            Some(v@[0] as u16)
        } else {
            None
        },
        NumVal::U32(v) => if v@.len() > 0 {
            if v@[0] <= 0xffff {
                Some(v@[0] as u16)
            } else {
                Some(0xffffu16)
            }
        } else {
            None
        },
        NumVal::I16(v) => if v@.len() > 0 {
            if v@[0] < 0 {
                Some(0u16)
            } else {
                Some(v@[0] as u16)
            }
        } else {
            None
        },
        NumVal::I32(v) => if v@.len() > 0 {
            if v@[0] < 0 {
                Some(0u16)
            } else if v@[0] <= 0xffff {
                Some(v@[0] as u16)
            } else {
                Some((v@[0] % 0x10000) as u16)
            }
        } else {
            None
        },
        NumVal::I8(v) => if v@.len() > 0 {
            if v@[0] < 0 {
                Some(0u16)
            } else {
                Some(v@[0] as u16)
            }
        } else {
            None
        },
        NumVal::Other => None,
    }
}

/// The orientation code of parsed metadata: the first orientation
/// field's raw value, read as a `u16`.
pub open spec fn spec_exif_orientation(fields: Seq<ExifField>) -> Option<u16> {
    let k = spec_field_find(fields, ORIENTATION_TAG);
    if k < 0 {
        None
    } else {
        spec_tag_value_u16(fields[k].numeric)
    }
}

/// Reads the orientation code; see `spec_exif_orientation`.
pub fn exif_orientation(fields: &Vec<ExifField>) -> (r: Option<u16>)
    ensures
        r == spec_exif_orientation(fields@),
{
    match find_field(fields, ORIENTATION_TAG) {
        Option::Some(k) => tag_value_to_u16(&fields[k].numeric),
        Option::None => Option::None,
    }
}

/// The displayable value of the first field with the given tag: its
/// trimmed readable text, unless it is empty or case-folds to `none`.
pub open spec fn spec_exif_value(fields: Seq<ExifField>, tag: u16) -> Option<Seq<char>> {
    let k = spec_field_find(fields, tag);
    if k < 0 {
        None
    } else {
        let t = crate::strutil::spec_trim(fields[k].readable@);
        if t.len() == 0 {
            None
        } else if crate::strutil::spec_ascii_lower_seq(t) == "none"@ {
            None
        } else {
            Some(t)
        }
    }
}

/// Reads a field's displayable value; see `spec_exif_value`.
pub fn exif_value(fields: &Vec<ExifField>, tag: u16) -> (r: Option<String>)
    ensures
        match r {
            Option::Some(s) => spec_exif_value(fields@, tag) == Some(s@),
            Option::None => spec_exif_value(fields@, tag) is None,
        },
{
    match find_field(fields, tag) {
        Option::Some(k) => {
            proof {
                lemma_field_find_props(fields@, tag);
            }
            let t = trim_chars(&str_to_chars(fields[k].readable.as_str()));
            if t.len() == 0 {
                return Option::None;
            }
            let lower = ascii_lower_chars(&t);
            if crate::strutil::eq_str(&lower, "none") {
                Option::None
            } else {
                Option::Some(chars_to_string(&t))
            }
        },
        Option::None => Option::None,
    }
}

/// The camera description: make and model combined, with the make
/// dropped when the model already starts with it (ASCII case-folded).
pub open spec fn spec_camera_description(fields: Seq<ExifField>) -> Option<Seq<char>> {
    match (spec_exif_value(fields, 0x010f), spec_exif_value(fields, 0x0110)) {
        (Some(make), Some(model)) => {
            let kl = crate::strutil::spec_ascii_lower_seq(make);
            let ml = crate::strutil::spec_ascii_lower_seq(model);
            if ml.len() >= kl.len() && ml.subrange(0, kl.len() as int) == kl {
                Some(model)
            } else {
                Some(crate::strutil::spec_trim(make + seq![' '] + model))
            }
        },
        (Some(make), None) => Some(make),
        (None, Some(model)) => Some(model),
        (None, None) => None,
    }
}

/// Builds the camera description; see `spec_camera_description`.
pub fn camera_description(fields: &Vec<ExifField>) -> (r: Option<String>)
    ensures
        match r {
            Option::Some(s) => spec_camera_description(fields@) == Some(s@),
            Option::None => spec_camera_description(fields@) is None,
        },
{
    let make = exif_value(fields, 0x010f);
    let model = exif_value(fields, 0x0110);
    match (make, model) {
        (Option::Some(make), Option::Some(model)) => {
            let make_lower = ascii_lower_chars(&str_to_chars(make.as_str()));
            let model_lower = ascii_lower_chars(&str_to_chars(model.as_str()));
            if crate::strutil::starts_with_chars(&model_lower, &make_lower) {
                Option::Some(model)
            } else {
                let mut c = str_to_chars(make.as_str());
                c.push(' ');
                proof {
                    assert(make@.push(' ') =~= make@ + seq![' ']);
                }
                crate::strutil::append_str(&mut c, model.as_str());
                let t = trim_chars(&c);
                Option::Some(chars_to_string(&t))
            }
        },
        (Option::Some(make), Option::None) => Option::Some(make),
        (Option::None, Option::Some(model)) => Option::Some(model),
        (Option::None, Option::None) => Option::None,
    }
}

/// The lens description: the lens model, or the lens make and
/// specification combined.
pub open spec fn spec_lens_description(fields: Seq<ExifField>) -> Option<Seq<char>> {
    match spec_exif_value(fields, 0xa434) {
        Some(model) => Some(model),
        None => match (spec_exif_value(fields, 0xa433), spec_exif_value(fields, 0xa432)) {
            (Some(make), Some(s)) => Some(crate::strutil::spec_trim(make + seq![' '] + s)),
            (Some(make), None) => Some(make),
            (None, Some(s)) => Some(s),
            (None, None) => None,
        },
    }
}

/// Builds the lens description; see `spec_lens_description`.
pub fn lens_description(fields: &Vec<ExifField>) -> (r: Option<String>)
    ensures
        match r {
            Option::Some(s) => spec_lens_description(fields@) == Some(s@),
            Option::None => spec_lens_description(fields@) is None,
        },
{
    match exif_value(fields, 0xa434) {
        Option::Some(model) => {
            return Option::Some(model);
        },
        Option::None => {},
    }
    let make = exif_value(fields, 0xa433);
    let spec = exif_value(fields, 0xa432);
    match (make, spec) {
        (Option::Some(make), Option::Some(spec)) => {
            let mut c = str_to_chars(make.as_str());
            c.push(' ');
            proof {
                assert(make@.push(' ') =~= make@ + seq![' ']);
            }
            crate::strutil::append_str(&mut c, spec.as_str());
            let t = trim_chars(&c);
            Option::Some(chars_to_string(&t))
        },
        (Option::Some(make), Option::None) => Option::Some(make),
        (Option::None, Option::Some(spec)) => Option::Some(spec),
        (Option::None, Option::None) => Option::None,
    }
}

/// The aperture: the F-number, or the aperture value.
pub open spec fn spec_aperture_value(fields: Seq<ExifField>) -> Option<Seq<char>> {
    match spec_exif_value(fields, 0x829d) {
        Some(v) => Some(v),
        None => spec_exif_value(fields, 0x9202),
    }
}

/// Reads the aperture; see `spec_aperture_value`.
pub fn aperture_value(fields: &Vec<ExifField>) -> (r: Option<String>)
    ensures
        match r {
            Option::Some(s) => spec_aperture_value(fields@) == Some(s@),
            Option::None => spec_aperture_value(fields@) is None,
        },
{
    match exif_value(fields, 0x829d) {
        Option::Some(v) => Option::Some(v),
        Option::None => exif_value(fields, 0x9202),
    }
}

/// The shutter speed: the exposure time, or the shutter speed value.
pub open spec fn spec_shutter_value(fields: Seq<ExifField>) -> Option<Seq<char>> {
    match spec_exif_value(fields, 0x829a) {
        Some(v) => Some(v),
        None => spec_exif_value(fields, 0x9201),
    }
}

/// Reads the shutter speed; see `spec_shutter_value`.
pub fn shutter_value(fields: &Vec<ExifField>) -> (r: Option<String>)
    ensures
        match r {
            Option::Some(s) => spec_shutter_value(fields@) == Some(s@),
            Option::None => spec_shutter_value(fields@) is None,
        },
{
    match exif_value(fields, 0x829a) {
        Option::Some(v) => Option::Some(v),
        Option::None => exif_value(fields, 0x9201),
    }
}

/// A summary segment: one labelled entry when the value is present,
/// nothing otherwise.
pub open spec fn spec_summary_entry(label: Seq<char>, v: Option<Seq<char>>) -> Seq<
    (Seq<char>, Seq<char>),
> {
    match v {
        Some(x) => seq![(label, x)],
        None => Seq::empty(),
    }
}

/// The displayed metadata entries, in fixed order: camera, lens,
/// aperture, shutter speed, ISO, software, date — each present exactly
/// when the metadata has a usable value for it.
pub open spec fn spec_summary(fields: Seq<ExifField>) -> Seq<(Seq<char>, Seq<char>)> {
    spec_summary_entry("Camera"@, spec_camera_description(fields)) + spec_summary_entry(
        "Lens"@,
        spec_lens_description(fields),
    ) + spec_summary_entry("Aperture"@, spec_aperture_value(fields)) + spec_summary_entry(
        "Shutter speed"@,
        spec_shutter_value(fields),
    ) + spec_summary_entry("ISO"@, spec_exif_value(fields, 0x8827)) + spec_summary_entry(
        "Software"@,
        spec_exif_value(fields, 0x0131),
    ) + spec_summary_entry("Date"@, spec_exif_value(fields, 0x9003))
}

/// Builds the displayed metadata summary; its entries are exactly
/// `spec_summary` of the parsed fields.
pub fn summarize_exif(fields: &Vec<ExifField>) -> (r: ExifSummary)
    ensures
        r.entries@.map_values(|p: (String, String)| (p.0@, p.1@)) == spec_summary(fields@),
{
    let ghost m = |p: (String, String)| (p.0@, p.1@);
    let mut entries: Vec<(String, String)> = Vec::new();
    match camera_description(fields) {
        Option::Some(camera) => {
            entries.push(("Camera".to_owned(), camera));
        },
        Option::None => {},
    }
    let ghost s1 = spec_summary_entry("Camera"@, spec_camera_description(fields@));
    proof {
        assert(entries@.map_values(m) =~= s1);
    }
    match lens_description(fields) {
        Option::Some(lens) => {
            entries.push(("Lens".to_owned(), lens));
        },
        Option::None => {},
    }
    let ghost s2 = s1 + spec_summary_entry("Lens"@, spec_lens_description(fields@));
    proof {
        assert(entries@.map_values(m) =~= s2);
    }
    match aperture_value(fields) {
        Option::Some(aperture) => {
            entries.push(("Aperture".to_owned(), aperture));
        },
        Option::None => {},
    }
    let ghost s3 = s2 + spec_summary_entry("Aperture"@, spec_aperture_value(fields@));
    proof {
        assert(entries@.map_values(m) =~= s3);
    }
    match shutter_value(fields) {
        Option::Some(shutter) => {
            entries.push(("Shutter speed".to_owned(), shutter));
        },
        Option::None => {},
    }
    let ghost s4 = s3 + spec_summary_entry("Shutter speed"@, spec_shutter_value(fields@));
    proof {
        assert(entries@.map_values(m) =~= s4);
    }
    match exif_value(fields, 0x8827) {
        Option::Some(iso) => {
            entries.push(("ISO".to_owned(), iso));
        },
        Option::None => {},
    }
    let ghost s5 = s4 + spec_summary_entry("ISO"@, spec_exif_value(fields@, 0x8827));
    proof {
        assert(entries@.map_values(m) =~= s5);
    }
    match exif_value(fields, 0x0131) {
        Option::Some(software) => {
            entries.push(("Software".to_owned(), software));
        },
        Option::None => {},
    }
    let ghost s6 = s5 + spec_summary_entry("Software"@, spec_exif_value(fields@, 0x0131));
    proof {
        assert(entries@.map_values(m) =~= s6);
    }
    match exif_value(fields, 0x9003) {
        Option::Some(date) => {
            entries.push(("Date".to_owned(), date));
        },
        Option::None => {},
    }
    proof {
        assert(entries@.map_values(m) =~= spec_summary(fields@));
    }
    ExifSummary { entries }
}

/// The six-byte ASCII identifier a metadata block carries inside a JPEG
/// segment.
pub open spec fn spec_exif_header() -> Seq<u8> {
    seq![0x45u8, 0x78u8, 0x69u8, 0x66u8, 0u8, 0u8]
}

/// A metadata block with the `Exif\0\0` identifier ensured in front.
pub open spec fn spec_ensure_header(b: Seq<u8>) -> Seq<u8> {
    if b.len() >= 6 && b.subrange(0, 6) == spec_exif_header() {
        b
    } else {
        spec_exif_header() + b
    }
}

/// Prepends the `Exif\0\0` identifier when the block does not already
/// start with it.
pub fn ensure_exif_header(bytes: Vec<u8>) -> (r: Vec<u8>)
    ensures
        r@ == spec_ensure_header(bytes@),
{
    let has = bytes.len() >= 6 && bytes[0] == 0x45 && bytes[1] == 0x78 && bytes[2] == 0x69
        && bytes[3] == 0x66 && bytes[4] == 0 && bytes[5] == 0;
    proof {
        if bytes@.len() >= 6 {
            if has {
                assert(bytes@.subrange(0, 6) =~= spec_exif_header());
            } else {
                assert(bytes@.subrange(0, 6) != spec_exif_header()) by {
                    if bytes@.subrange(0, 6) == spec_exif_header() {
                        assert(bytes@[0] == 0x45 && bytes@[1] == 0x78 && bytes@[2] == 0x69
                            && bytes@[3] == 0x66 && bytes@[4] == 0 && bytes@[5] == 0) by {
                            assert(bytes@.subrange(0, 6)[0] == bytes@[0]);
                            assert(bytes@.subrange(0, 6)[1] == bytes@[1]);
                            assert(bytes@.subrange(0, 6)[2] == bytes@[2]);
                            assert(bytes@.subrange(0, 6)[3] == bytes@[3]);
                            assert(bytes@.subrange(0, 6)[4] == bytes@[4]);
                            assert(bytes@.subrange(0, 6)[5] == bytes@[5]);
                        }
                    }
                }
            }
        }
    }
    if has {
        bytes
    } else {
        let mut out: Vec<u8> = Vec::new();
        out.push(0x45);
        out.push(0x78);
        out.push(0x69);
        out.push(0x66);
        out.push(0);
        out.push(0);
        let mut i: usize = 0;
        while i < bytes.len()
            invariant
                i <= bytes.len(),
                out@ == spec_exif_header() + bytes@.subrange(0, i as int),
            decreases bytes.len() - i,
        {
            out.push(bytes[i]);
            i = i + 1;
            assert(spec_exif_header() + bytes@.subrange(0, i - 1) + seq![bytes@[i - 1]]
                =~= spec_exif_header() + bytes@.subrange(0, i as int));
        }
        assert(out@ =~= spec_exif_header() + bytes@);
        out
    }
}

/// The two-byte integer at `at`, little- or big-endian.
pub open spec fn spec_u16_at(s: Seq<u8>, at: int, le: bool) -> int {
    if le {
        s[at] + s[at + 1] * 0x100
    } else {
        s[at] * 0x100 + s[at + 1]
    }
}

/// The four-byte integer at `at`, little- or big-endian.
pub open spec fn spec_u32_at(s: Seq<u8>, at: int, le: bool) -> int {
    if le {
        s[at] + s[at + 1] * 0x100 + s[at + 2] * 0x1_0000 + s[at + 3] * 0x100_0000
    } else {
        s[at] * 0x100_0000 + s[at + 1] * 0x1_0000 + s[at + 2] * 0x100 + s[at + 3]
    }
}

/// Reads a two-byte integer at `at`, little- or big-endian.
pub fn read_u16_at(v: &Vec<u8>, at: usize, le: bool) -> (r: u16)
    requires
        at + 2 <= v@.len(),
    ensures
        r == spec_u16_at(v@, at as int, le),
{
    // Reading the length brings `v@.len() <= usize::MAX` into scope, which
    // bounds `at` for the index arithmetic below.
    let n = v.len();
    if le {
        (v[at] as u16) + (v[at + 1] as u16) * 0x100
    } else {
        (v[at] as u16) * 0x100 + (v[at + 1] as u16)
    }
}

/// Reads a four-byte integer at `at`, little- or big-endian.
pub fn read_u32_at(v: &Vec<u8>, at: usize, le: bool) -> (r: u32)
    requires
        at + 4 <= v@.len(),
    ensures
        r == spec_u32_at(v@, at as int, le),
{
    // As in `read_u16_at`, the length read bounds the index arithmetic.
    let n = v.len();
    if le {
        (v[at] as u32) + (v[at + 1] as u32) * 0x100 + (v[at + 2] as u32) * 0x1_0000 + (v[at
            + 3] as u32) * 0x100_0000
    } else {
        (v[at] as u32) * 0x100_0000 + (v[at + 1] as u32) * 0x1_0000 + (v[at + 2] as u32) * 0x100 + (
        v[at + 3] as u32)
    }
}

/// The value offset of the first orientation entry found by walking `k`
/// directory entries from `pos`, or nothing when the walk runs out of
/// entries or bytes first.
pub open spec fn spec_orient_scan(s: Seq<u8>, le: bool, pos: int, k: int) -> Option<int>
    decreases k,
{
    if k <= 0 {
        None
    } else if pos < 0 || pos + 12 > s.len() {
        None
    } else if spec_u16_at(s, pos, le) == ORIENTATION_TAG {
        Some(pos + 8)
    } else {
        spec_orient_scan(s, le, pos + 12, k - 1)
    }
}

/// Where a metadata block's orientation value sits, and the block's byte
/// order: the block must carry the identifier and a TIFF header with an
/// `II` or `MM` byte-order mark, and its first directory must hold the
/// orientation tag at an in-bounds entry.
pub open spec fn spec_orient_target(s: Seq<u8>) -> Option<(int, bool)> {
    if s.len() < 14 {
        None
    } else if (s[6] == 0x49 && s[7] == 0x49) || (s[6] == 0x4d && s[7] == 0x4d) {
        let le = s[6] == 0x49;
        let pos0 = 6 + spec_u32_at(s, 10, le);
        if pos0 + 2 > s.len() {
            None
        } else {
            match spec_orient_scan(s, le, pos0 + 2, spec_u16_at(s, pos0, le)) {
                Some(off) => Some((off, le)),
                None => None,
            }
        }
    } else {
        None
    }
}

/// A metadata block with its orientation forced to "normal": exactly the
/// two bytes of the first directory's orientation value become one in
/// the declared byte order; a block whose structure cannot be read stays
/// unchanged.
pub open spec fn spec_normalized(s: Seq<u8>) -> Seq<u8> {
    match spec_orient_target(s) {
        Some(t) => s.update(
            t.0,
            if t.1 {
                1u8
            } else {
                0u8
            },
        ).update(
            t.0 + 1,
            if t.1 {
                0u8
            } else {
                1u8
            },
        ),
        None => s,
    }
}

/// Forces the orientation field inside a serialized metadata block to
/// "normal"; see `spec_normalized`.
pub fn normalize_exif_orientation(exif_bytes: &mut Vec<u8>)
    ensures
        final(exif_bytes)@ == spec_normalized(old(exif_bytes)@),
{
    let ghost s = exif_bytes@;
    if exif_bytes.len() < 14 {
        return ;
    }
    let le: bool;
    if exif_bytes[6] == 0x49 && exif_bytes[7] == 0x49 {
        le = true;
    } else if exif_bytes[6] == 0x4d && exif_bytes[7] == 0x4d {
        le = false;
    } else {
        return ;
    }
    let ifd_offset = read_u32_at(exif_bytes, 10, le) as usize;
    if ifd_offset > usize::MAX - 6 {
        proof {
            assert(6 + spec_u32_at(s, 10, le) + 2 > s.len());
        }
        return ;
    }
    let pos0: usize = 6 + ifd_offset;
    if pos0 > exif_bytes.len() || exif_bytes.len() - pos0 < 2 {
        return ;
    }
    let entries = read_u16_at(exif_bytes, pos0, le) as usize;
    let mut pos: usize = pos0 + 2;
    let mut k: usize = entries;
    while k > 0
        invariant
            exif_bytes@ == s,
            s == old(exif_bytes)@,
            s.len() >= 14,
            le == (s[6] == 0x49),
            (s[6] == 0x49 && s[7] == 0x49) || (s[6] == 0x4d && s[7] == 0x4d),
            pos0 == 6 + spec_u32_at(s, 10, le),
            pos0 + 2 <= s.len(),
            entries == spec_u16_at(s, pos0 as int, le),
            k <= entries,
            spec_orient_scan(s, le, pos as int, k as int) == spec_orient_scan(
                s,
                le,
                pos0 + 2,
                entries as int,
            ),
        decreases k,
    {
        if pos > exif_bytes.len() || exif_bytes.len() - pos < 12 {
            return ;
        }
        let tag = read_u16_at(exif_bytes, pos, le);
        if tag == 0x0112 {
            let value_offset = pos + 8;
            if le {
                exif_bytes.set(value_offset, 1);
                exif_bytes.set(value_offset + 1, 0);
            } else {
                exif_bytes.set(value_offset, 0);
                exif_bytes.set(value_offset + 1, 1);
            }
            proof {
                assert(spec_orient_target(s) == Some((value_offset as int, le)));
            }
            return ;
        }
        pos = pos + 12;
        k = k - 1;
    }
}

/// The result of scanning a JPEG stream for an existing metadata segment
/// from position `i`: the byte range of the first `0xFFE1` segment before
/// the scan data, when one is found by walking the segment headers.
pub open spec fn spec_find_e1(s: Seq<u8>, i: int) -> Option<(int, int)>
    decreases s.len() - i,
{
    if 0 <= i && i + 4 <= s.len() && s[i] == 0xff {
        let m = s[i + 1];
        if m == 0xda {
            Option::None
        } else if m == 0xe1 {
            let l = s[i + 2] * 0x100 + s[i + 3];
            let end = if i + 2 + l <= s.len() {
                i + 2 + l
            } else {
                s.len() as int
            };
            Option::Some((i, end))
        } else if m == 0xd8 || m == 0xd9 || m == 0x01 || (0xd0 <= m && m <= 0xd7) {
            spec_find_e1(s, i + 2)
        } else {
            let l = s[i + 2] * 0x100 + s[i + 3];
            if l < 2 {
                Option::None
            } else if i + 2 + l <= s.len() {
                spec_find_e1(s, i + 2 + l)
            } else {
                Option::None
            }
        }
    } else {
        Option::None
    }
}

/// The position where a new metadata segment is inserted: scanning from
/// `i`, application segments (`0xE0`–`0xEF`) are skipped; the position
/// before the first other marker (or where the headers stop reading) is
/// the insertion point.
pub open spec fn spec_insert_pos(s: Seq<u8>, i: int) -> int
    decreases s.len() - i,
{
    if 0 <= i && i + 4 <= s.len() && s[i] == 0xff {
        let m = s[i + 1];
        if !(0xe0 <= m && m <= 0xef) {
            i
        } else {
            let l = s[i + 2] * 0x100 + s[i + 3];
            if l < 2 {
                i
            } else if i + 2 + l <= s.len() {
                spec_insert_pos(s, i + 2 + l)
            } else {
                spec_insert_pos(s, s.len() as int)
            }
        }
    } else {
        i
    }
}

/// The bytes of a fresh metadata segment: the `0xFFE1` marker, the
/// big-endian two-byte length (payload plus the length field itself), and
/// the payload.
pub open spec fn spec_e1_segment(e: Seq<u8>) -> Seq<u8> {
    let l = e.len() + 2;
    seq![0xffu8, 0xe1u8, (l / 0x100) as u8, (l % 0x100) as u8] + e
}

/// The stream after the existing metadata segment, if any, is removed.
pub open spec fn spec_without_e1(s: Seq<u8>) -> Seq<u8> {
    match spec_find_e1(s, 2) {
        Option::Some(ab) => s.subrange(0, ab.0) + s.subrange(ab.1, s.len() as int),
        Option::None => s,
    }
}

/// Excises the first `0xFFE1` segment found by walking the segment
/// headers, when there is one.
fn remove_e1_segment(jpeg: &mut Vec<u8>)
    ensures
        final(jpeg)@ == spec_without_e1(old(jpeg)@),
{
    let ghost s0 = jpeg@;
    let mut scan: usize = 2;
    while jpeg.len() >= 4 && scan <= jpeg.len() - 4 && jpeg[scan] == 0xff
        invariant
            jpeg@ == s0,
            s0 == old(jpeg)@,
            2 <= scan <= jpeg@.len() + 2,
            spec_find_e1(s0, 2) == spec_find_e1(s0, scan as int),
        decreases jpeg@.len() - scan,
    {
        let marker = jpeg[scan + 1];
        if marker == 0xda {
            assert(spec_find_e1(s0, scan as int) is None);
            assert(spec_find_e1(s0, 2) is None);
            assert(spec_without_e1(s0) == s0);
            return ;
        }
        if marker == 0xe1 {
            let l16: usize = (jpeg[scan + 2] as usize) * 0x100 + (jpeg[scan + 3] as usize);
            let end: usize = if l16 <= jpeg.len() - (scan + 2) {
                scan + 2 + l16
            } else {
                jpeg.len()
            };
            assert(spec_find_e1(s0, scan as int) == Option::Some((scan as int, end as int)));
            let mut kept = subvec_u8(jpeg, 0, scan);
            let tail = subvec_u8(jpeg, end, jpeg.len());
            append_u8(&mut kept, &tail);
            *jpeg = kept;
            assert(spec_find_e1(s0, 2) == Option::Some((scan as int, end as int)));
            assert(jpeg@ =~= spec_without_e1(s0));
            return ;
        }
        if marker == 0xd8 || marker == 0xd9 || marker == 0x01 || (0xd0 <= marker && marker
            <= 0xd7) {
            scan = scan + 2;
            continue ;
        }
        let l16: usize = (jpeg[scan + 2] as usize) * 0x100 + (jpeg[scan + 3] as usize);
        if l16 < 2 {
            assert(spec_find_e1(s0, scan as int) is None);
            return ;
        }
        if l16 > jpeg.len() - (scan + 2) {
            assert(spec_find_e1(s0, scan as int) is None);
            return ;
        }
        scan = scan + 2 + l16;
    }
    assert(spec_find_e1(s0, scan as int) is None);
}

proof fn lemma_find_e1_bounds(s: Seq<u8>, i: int)
    requires
        2 <= i,
    ensures
        spec_find_e1(s, i) matches Some(ab) ==> 2 <= ab.0 && ab.0 + 2 <= ab.1 <= s.len(),
    decreases s.len() - i,
{
    if 0 <= i && i + 4 <= s.len() && s[i] == 0xff {
        let m = s[i + 1];
        if m == 0xda {
        } else if m == 0xe1 {
        } else if m == 0xd8 || m == 0xd9 || m == 0x01 || (0xd0 <= m && m <= 0xd7) {
            lemma_find_e1_bounds(s, i + 2);
        } else {
            let l = s[i + 2] * 0x100 + s[i + 3];
            if l >= 2 && i + 2 + l <= s.len() {
                lemma_find_e1_bounds(s, i + 2 + l);
            }
        }
    }
}

/// The insertion point for a fresh segment: after the leading application
/// segments.
fn find_insert_pos(jpeg: &Vec<u8>) -> (pos: usize)
    ensures
        pos as int == spec_insert_pos(jpeg@, 2),
        pos <= jpeg@.len() || pos == 2,
{
    let mut pos: usize = 2;
    while jpeg.len() >= 4 && pos <= jpeg.len() - 4 && jpeg[pos] == 0xff
        invariant
            2 <= pos,
            pos <= jpeg@.len() || pos == 2,
            spec_insert_pos(jpeg@, 2) == spec_insert_pos(jpeg@, pos as int),
        decreases jpeg@.len() - pos,
    {
        let marker = jpeg[pos + 1];
        if !(0xe0 <= marker && marker <= 0xef) {
            assert(spec_insert_pos(jpeg@, pos as int) == pos);
            return pos;
        }
        let l16: usize = (jpeg[pos + 2] as usize) * 0x100 + (jpeg[pos + 3] as usize);
        if l16 < 2 {
            assert(spec_insert_pos(jpeg@, pos as int) == pos);
            return pos;
        }
        if l16 > jpeg.len() - (pos + 2) {
            pos = jpeg.len();
        } else {
            pos = pos + 2 + l16;
        }
    }
    assert(spec_insert_pos(jpeg@, pos as int) == pos);
    pos
}

/// The stream after splicing: unchanged when it does not start with a
/// start-of-image marker or the payload is too large; else the stream
/// without its old metadata segment, with the fresh segment inserted at
/// the position after the leading application segments.
pub open spec fn spec_spliced(s0: Seq<u8>, e: Seq<u8>) -> Seq<u8> {
    if s0.len() < 2 || s0[0] != 0xff || s0[1] != 0xd8 {
        s0
    } else if e.len() + 2 > 0xffff {
        s0
    } else {
        let s1 = spec_without_e1(s0);
        let pos = spec_insert_pos(s1, 2);
        s1.subrange(0, pos) + spec_e1_segment(e) + s1.subrange(pos, s1.len() as int)
    }
}

/// Splices a metadata segment into an encoded JPEG stream: an existing
/// `0xFFE1` segment is excised first, then a fresh segment carrying the
/// payload is inserted after the leading application segments and before
/// the scan data, with a correct big-endian length field. Streams that do
/// not start with a start-of-image marker, and payloads too large for the
/// length field, leave the stream unchanged.
pub fn insert_exif_segment(jpeg: &mut Vec<u8>, exif_data: &Vec<u8>)
    ensures
        final(jpeg)@ == spec_spliced(old(jpeg)@, exif_data@),
{
    let n0 = jpeg.len();
    if n0 < 2 || jpeg[0] != 0xff || jpeg[1] != 0xd8 {
        return ;
    }
    if exif_data.len() > 0xffff - 2 {
        return ;
    }
    let ghost s0 = jpeg@;
    remove_e1_segment(jpeg);
    let ghost s1 = jpeg@;
    let pos = find_insert_pos(jpeg);
    proof {
        lemma_find_e1_bounds(s0, 2);
        assert(s1.len() >= 2) by {
            match spec_find_e1(s0, 2) {
                Option::Some(ab) => {
                    assert(s1 == s0.subrange(0, ab.0) + s0.subrange(ab.1, s0.len() as int));
                },
                Option::None => {},
            }
        }
        assert(pos <= jpeg@.len());
    }
    let l: usize = exif_data.len() + 2;
    let mut out = subvec_u8(jpeg, 0, pos);
    out.push(0xff);
    out.push(0xe1);
    out.push((l / 0x100) as u8);
    out.push((l % 0x100) as u8);
    append_u8(&mut out, exif_data);
    let tail = subvec_u8(jpeg, pos, jpeg.len());
    append_u8(&mut out, &tail);
    proof {
        assert(out@ =~= s1.subrange(0, pos as int) + spec_e1_segment(exif_data@) + s1.subrange(
            pos as int,
            s1.len() as int,
        ));
    }
    *jpeg = out;
}

/// Copies `v[from .. to]` into a fresh byte vector.
fn subvec_u8(v: &Vec<u8>, from: usize, to: usize) -> (r: Vec<u8>)
    requires
        from <= to <= v@.len(),
    ensures
        r@ == v@.subrange(from as int, to as int),
{
    let mut r: Vec<u8> = Vec::new();
    let mut i: usize = from;
    while i < to
        invariant
            from <= i <= to <= v@.len(),
            r@ == v@.subrange(from as int, i as int),
        decreases to - i,
    {
        r.push(v[i]);
        i = i + 1;
        assert(v@.subrange(from as int, i - 1).push(v@[i - 1]) == v@.subrange(from as int, i as int));
    }
    r
}

/// Appends the bytes of `src` to `dst`.
fn append_u8(dst: &mut Vec<u8>, src: &Vec<u8>)
    ensures
        final(dst)@ == old(dst)@ + src@,
{
    let mut i: usize = 0;
    while i < src.len()
        invariant
            i <= src.len(),
            dst@ == old(dst)@ + src@.subrange(0, i as int),
        decreases src.len() - i,
    {
        dst.push(src[i]);
        i = i + 1;
        assert(old(dst)@ + src@.subrange(0, i - 1) + seq![src@[i - 1]] == old(dst)@ + src@.subrange(
            0,
            i as int,
        ));
    }
    assert(src@.subrange(0, src.len() as int) == src@);
}

} // verus!

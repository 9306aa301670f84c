//! The image ingestion, transformation and caching pipeline: format
//! detection, cache filename planning, display-size and variant planning,
//! and public URL resolution.
//!
//! The functions here are pure: they take bytes, names and directory
//! listings as plain values and return plans and descriptors. Reading and
//! writing files, fetching URLs and running resize workers happen outside
//! the library, which hands the results back in.

use vstd::prelude::*;

use vstd::relations::injective_on;
use vstd::set_lib::{lemma_int_range, lemma_len_subset, lemma_map_size, set_int_range};

use crate::config;
use crate::strutil::{
    all_digits, chars_to_string, digits_val, parse_u32_range, spec_ascii_lower_seq, spec_dec,
    spec_has_at, spec_is_space, spec_trim_char, str_to_chars, subvec, trim_str, u64_to_chars,
};

verus! {

/// A raster codec the pipeline can recognize.
#[derive(Debug, Clone, Copy, PartialEq, Eq, Structural)]
pub enum Codec {
    Jpeg,
    Png,
    Gif,
    Bmp,
    Tiff,
    WebP,
    Other,
}

/// The classification of a source image: vector or raster.
#[derive(Debug, Clone, Copy, PartialEq, Eq, Structural)]
pub enum SourceFormat {
    Svg,
    Raster(Codec),
}

/// A failure in the synchronous part of the pipeline.
#[derive(Debug, Clone)]
pub enum ImageError {
    Io(String),
    Network(String),
    Decode(String),
    UnsupportedFormat,
}

/// A published derivative descriptor.
#[derive(Debug, Clone)]
pub struct ImageVariant {
    pub width: u32,
    pub height: u32,
    pub url: String,
    pub mime_type: String,
}

/// Human-readable capture metadata, in display order.
#[derive(Debug, Clone)]
pub struct ExifSummary {
    pub entries: Vec<(String, String)>,
}

/// The descriptor returned for one processed image reference.
#[derive(Debug, Clone)]
pub struct ProcessedImage {
    pub variants: Vec<ImageVariant>,
    pub original: Option<ImageVariant>,
    pub display_width: u32,
    pub display_height: u32,
    pub original_reference: String,
    pub exif: Option<ExifSummary>,
    pub is_wide: bool,
}

/// A planned derivative: target size and output path.
#[derive(Debug, Clone)]
pub struct VariantSpec {
    pub width: u32,
    pub height: u32,
    pub path: String,
}

/// A derivative that still has to be generated.
#[derive(Debug, Clone)]
pub struct VariantJob {
    pub width: u32,
    pub height: u32,
    pub path: String,
}

/// A loaded source image: its reference, raw bytes, detected format, and
/// the path it was read from, when it came from a file.
#[derive(Debug, Clone)]
pub struct SourceImage {
    pub reference: String,
    pub bytes: Vec<u8>,
    pub format: SourceFormat,
    pub cached_path: Option<String>,
}

/// One file of the cache directory: its name and its byte content.
#[derive(Debug, Clone)]
pub struct CacheEntry {
    pub name: String,
    pub content: Vec<u8>,
}

/// The pipeline configuration: image settings, the cache directory and
/// the optional site root URL.
#[derive(Debug, Clone)]
pub struct ImageProcessor {
    pub config: config::ImagesConfig,
    pub cache_dir: String,
    pub root_url: Option<String>,
}

impl ImageProcessor {
    /// Builds a pipeline from a configuration. The cache directory is the
    /// configured one; the creation of that directory on disk is the
    /// caller's task.
    pub fn new(config: &config::Config) -> (r: Self)
        ensures
            r.cache_dir@ == config.images.cache_dir@,
            r.root_url == config.root_url,
    {
        ImageProcessor {
            config: config.images.clone(),
            cache_dir: config.images.cache_dir.clone(),
            root_url: clone_opt_string(&config.root_url),
        }
    }
}

/// Clones an optional string, keeping its characters.
pub fn clone_opt_string(v: &Option<String>) -> (r: Option<String>)
    ensures
        r == v,
{
    match v {
        Option::None => Option::None,
        Option::Some(s) => {
            let c = s.clone();
            assert(c == s);
            Option::Some(c)
        },
    }
}

/// The file extension used when writing a raster codec, when the codec is
/// one the pipeline encodes.
pub fn extension_for_format(format: Codec) -> (r: Option<&'static str>)
    ensures
        match format {
            Codec::Jpeg => r matches Some(e) && e@ == "jpg"@,
            Codec::Png => r matches Some(e) && e@ == "png"@,
            Codec::WebP => r matches Some(e) && e@ == "webp"@,
            _ => r is None,
        },
{
    match format {
        Codec::Jpeg => Option::Some("jpg"),
        Codec::Png => Option::Some("png"),
        Codec::WebP => Option::Some("webp"),
        _ => Option::None,
    }
}

/// The MIME type advertised for a raster codec.
pub open spec fn spec_mime(codec: Codec) -> Seq<char> {
    match codec {
        Codec::Jpeg => "image/jpeg"@,
        Codec::Png => "image/png"@,
        Codec::Gif => "image/gif"@,
        Codec::Bmp => "image/bmp"@,
        Codec::Tiff => "image/tiff"@,
        Codec::WebP => "image/webp"@,
        Codec::Other => "application/octet-stream"@,
    }
}

/// The file extension a codec's variants are written with, or nothing
/// for codecs the pipeline does not encode.
pub open spec fn spec_codec_ext(codec: Codec) -> Seq<char> {
    match codec {
        Codec::Jpeg => "jpg"@,
        Codec::Png => "png"@,
        Codec::WebP => "webp"@,
        _ => Seq::empty(),
    }
}

/// The MIME type advertised for a raster codec.
pub fn mime_type_for_format(format: Codec) -> (r: &'static str)
    ensures
        r@ == spec_mime(format),
{
    match format {
        Codec::Jpeg => "image/jpeg",
        Codec::Png => "image/png",
        Codec::Gif => "image/gif",
        Codec::Bmp => "image/bmp",
        Codec::Tiff => "image/tiff",
        Codec::WebP => "image/webp",
        Codec::Other => "application/octet-stream",
    }
}

/// The codec inferred from a bare file extension, for the extensions the
/// pipeline trusts when byte sniffing fails.
pub fn image_format_from_extension(ext: &str) -> (r: Option<Codec>)
    ensures
        ({
            let l = spec_ascii_lower_seq(ext@);
            if l == "jpg"@ || l == "jpeg"@ {
                r == Option::Some(Codec::Jpeg)
            } else if l == "png"@ {
                r == Option::Some(Codec::Png)
            } else if l == "webp"@ {
                r == Option::Some(Codec::WebP)
            } else {
                r is None
            }
        }),
{
    let v = str_to_chars(ext);
    let l = crate::strutil::ascii_lower_chars(&v);
    if eq_lit(&l, "jpg") || eq_lit(&l, "jpeg") {
        Option::Some(Codec::Jpeg)
    } else if eq_lit(&l, "png") {
        Option::Some(Codec::Png)
    } else if eq_lit(&l, "webp") {
        Option::Some(Codec::WebP)
    } else {
        Option::None
    }
}

/// Whether the character vector equals the string `p`.
fn eq_lit(v: &Vec<char>, p: &str) -> (r: bool)
    ensures
        r == (v@ == p@),
{
    crate::strutil::eq_str(v, p)
}

/// Whether a reference is remote: its ASCII-lowercased form starts with
/// `http://` or `https://`.
pub fn is_remote(reference: &str) -> (r: bool)
    ensures
        ({
            let l = spec_ascii_lower_seq(reference@);
            r == (spec_has_at(l, "http://"@, 0) || spec_has_at(l, "https://"@, 0))
        }),
{
    let v = str_to_chars(reference);
    let l = crate::strutil::ascii_lower_chars(&v);
    crate::strutil::starts_with_str(&l, "http://") || crate::strutil::starts_with_str(
        &l,
        "https://",
    )
}

/// Whether `b` is ASCII whitespace (space, tab, line feed, form feed,
/// carriage return).
pub open spec fn spec_ascii_ws(b: u8) -> bool {
    b == 0x20 || b == 0x09 || b == 0x0a || b == 0x0c || b == 0x0d
}

/// The ASCII-lowercased counterpart of a byte.
pub open spec fn spec_byte_lower(b: u8) -> u8 {
    if 0x41 <= b && b <= 0x5a {
        (b + 0x20) as u8
    } else {
        b
    }
}

/// Number of leading ASCII whitespace bytes.
pub open spec fn spec_ws_count(s: Seq<u8>) -> int
    decreases s.len(),
{
    if s.len() == 0 || !spec_ascii_ws(s[0]) {
        0
    } else {
        1 + spec_ws_count(s.drop_first())
    }
}

proof fn lemma_ws_count_unique(s: Seq<u8>, i: int)
    requires
        0 <= i <= s.len(),
        forall|j: int| 0 <= j < i ==> spec_ascii_ws(s[j]),
        i < s.len() ==> !spec_ascii_ws(s[i]),
    ensures
        i == spec_ws_count(s),
    decreases s.len(),
{
    if s.len() == 0 || !spec_ascii_ws(s[0]) {
    } else {
        lemma_ws_count_unique(s.drop_first(), i - 1);
    }
}

proof fn lemma_ws_count_bound(s: Seq<u8>)
    ensures
        0 <= spec_ws_count(s) <= s.len(),
    decreases s.len(),
{
    if s.len() == 0 || !spec_ascii_ws(s[0]) {
    } else {
        lemma_ws_count_bound(s.drop_first());
    }
}

/// The sniffing window of a byte buffer: the first 512 bytes after
/// leading ASCII whitespace.
pub open spec fn spec_svg_window(b: Seq<u8>) -> Seq<u8> {
    let a = spec_ws_count(b);
    let rest = b.skip(a);
    if rest.len() <= 512 {
        rest
    } else {
        rest.take(512)
    }
}

/// Whether the lowercased window holds the bytes of `<svg`.
pub open spec fn spec_window_has_svg(w: Seq<u8>) -> bool {
    exists|at: int|
        0 <= at && at + 4 <= w.len() && #[trigger] spec_byte_lower(w[at]) == 0x3c
            && spec_byte_lower(w[at + 1]) == 0x73 && spec_byte_lower(w[at + 2]) == 0x76
            && spec_byte_lower(w[at + 3]) == 0x67
}

/// Whether a source looks like an SVG document: the reference ends in
/// `.svg` (case-folded), or the first 512 non-leading-whitespace bytes
/// contain `<svg` (case-folded).
pub fn looks_like_svg(reference: &str, bytes: &Vec<u8>) -> (r: bool)
    ensures
        ({
            let l = spec_ascii_lower_seq(reference@);
            r == (spec_has_at(l, ".svg"@, l.len() - 4) || spec_window_has_svg(
                spec_svg_window(bytes@),
            ))
        }),
{
    let v = str_to_chars(reference);
    let l = crate::strutil::ascii_lower_chars(&v);
    if l.len() >= 4 {
        if crate::strutil::has_str_at(&l, ".svg", l.len() - 4) {
            return true;
        }
    }
    // Find the window.
    let mut a: usize = 0;
    while a < bytes.len() && is_ascii_ws(bytes[a])
        invariant
            a <= bytes.len(),
            forall|j: int| 0 <= j < a ==> spec_ascii_ws(bytes@[j]),
        decreases bytes.len() - a,
    {
        a = a + 1;
    }
    proof {
        lemma_ws_count_unique(bytes@, a as int);
    }
    let rest_len = bytes.len() - a;
    let wlen: usize = if rest_len <= 512 {
        rest_len
    } else {
        512
    };
    let ghost w = spec_svg_window(bytes@);
    assert(w =~= bytes@.subrange(a as int, a + wlen));
    if wlen < 4 {
        proof {
            if spec_window_has_svg(w) {
                let at = choose|at: int|
                    0 <= at && at + 4 <= w.len() && #[trigger] spec_byte_lower(w[at]) == 0x3c
                        && spec_byte_lower(w[at + 1]) == 0x73 && spec_byte_lower(w[at + 2]) == 0x76
                        && spec_byte_lower(w[at + 3]) == 0x67;
            }
        }
        return false;
    }
    let mut at: usize = 0;
    while at <= wlen - 4
        invariant
            a + wlen <= bytes.len(),
            4 <= wlen,
            at <= wlen - 4 + 1,
            w == spec_svg_window(bytes@),
            w == bytes@.subrange(a as int, a + wlen),
            forall|k: int|
                0 <= k < at ==> !(#[trigger] spec_byte_lower(w[k]) == 0x3c && spec_byte_lower(
                    w[k + 1],
                ) == 0x73 && spec_byte_lower(w[k + 2]) == 0x76 && spec_byte_lower(w[k + 3])
                    == 0x67),
        decreases wlen - at,
    {
        let b0 = byte_lower(bytes[a + at]);
        let b1 = byte_lower(bytes[a + at + 1]);
        let b2 = byte_lower(bytes[a + at + 2]);
        let b3 = byte_lower(bytes[a + at + 3]);
        if b0 == 0x3c && b1 == 0x73 && b2 == 0x76 && b3 == 0x67 {
            assert(w[at as int] == bytes@[a + at]);
            assert(spec_window_has_svg(w)) by {
                assert(spec_byte_lower(w[at as int]) == 0x3c && spec_byte_lower(w[at + 1]) == 0x73
                    && spec_byte_lower(w[at + 2]) == 0x76 && spec_byte_lower(w[at + 3]) == 0x67);
            }
            return true;
        }
        at = at + 1;
    }
    proof {
        if spec_window_has_svg(w) {
            let k = choose|k: int|
                0 <= k && k + 4 <= w.len() && #[trigger] spec_byte_lower(w[k]) == 0x3c
                    && spec_byte_lower(w[k + 1]) == 0x73 && spec_byte_lower(w[k + 2]) == 0x76
                    && spec_byte_lower(w[k + 3]) == 0x67;
            assert(!(spec_byte_lower(w[k]) == 0x3c && spec_byte_lower(w[k + 1]) == 0x73
                && spec_byte_lower(w[k + 2]) == 0x76 && spec_byte_lower(w[k + 3]) == 0x67));
        }
    }
    false
}

/// Whether `b` is ASCII whitespace.
fn is_ascii_ws(b: u8) -> (r: bool)
    ensures
        r == spec_ascii_ws(b),
{
    b == 0x20 || b == 0x09 || b == 0x0a || b == 0x0c || b == 0x0d
}

/// ASCII-lowercases a byte.
fn byte_lower(b: u8) -> (r: u8)
    ensures
        r == spec_byte_lower(b),
{
    if 0x41 <= b && b <= 0x5a {
        b + 0x20
    } else {
        b
    }
}

/// Index of the first `c1` or `c2` in `s`, or its length.
pub open spec fn spec_first_stop2(s: Seq<char>, c1: char, c2: char) -> int
    decreases s.len(),
{
    if s.len() == 0 {
        0
    } else if s[0] == c1 || s[0] == c2 {
        0
    } else {
        1 + spec_first_stop2(s.drop_first(), c1, c2)
    }
}

/// Index one past the last `c1` or `c2` in `s`, or zero.
pub open spec fn spec_after_last2(s: Seq<char>, c1: char, c2: char) -> int
    decreases s.len(),
{
    if s.len() == 0 {
        0
    } else if s.last() == c1 || s.last() == c2 {
        s.len() as int
    } else {
        spec_after_last2(s.drop_last(), c1, c2)
    }
}

proof fn lemma_after_last2_bound(s: Seq<char>, c1: char, c2: char)
    ensures
        0 <= spec_after_last2(s, c1, c2) <= s.len(),
    decreases s.len(),
{
    if s.len() == 0 || s.last() == c1 || s.last() == c2 {
    } else {
        lemma_after_last2_bound(s.drop_last(), c1, c2);
    }
}

proof fn lemma_first_stop2_props(s: Seq<char>, c1: char, c2: char)
    ensures
        forall|j: int| 0 <= j < spec_first_stop2(s, c1, c2) ==> s[j] != c1 && s[j] != c2,
    decreases s.len(),
{
    if s.len() == 0 || s[0] == c1 || s[0] == c2 {
    } else {
        lemma_first_stop2_props(s.drop_first(), c1, c2);
        lemma_first_stop2_bound(s.drop_first(), c1, c2);
        assert forall|j: int| 0 <= j < spec_first_stop2(s, c1, c2) implies s[j] != c1 && s[j]
            != c2 by {
            if j > 0 {
                assert(s.drop_first()[j - 1] != c1 && s.drop_first()[j - 1] != c2);
            }
        }
    }
}

proof fn lemma_first_stop2_unique(s: Seq<char>, c1: char, c2: char, i: int)
    requires
        0 <= i <= s.len(),
        forall|j: int| 0 <= j < i ==> s[j] != c1 && s[j] != c2,
        i < s.len() ==> (s[i] == c1 || s[i] == c2),
    ensures
        i == spec_first_stop2(s, c1, c2),
    decreases s.len(),
{
    if s.len() == 0 || s[0] == c1 || s[0] == c2 {
    } else {
        lemma_first_stop2_unique(s.drop_first(), c1, c2, i - 1);
    }
}

proof fn lemma_after_last2_unique(s: Seq<char>, c1: char, c2: char, i: int)
    requires
        0 <= i <= s.len(),
        forall|j: int| i <= j < s.len() ==> s[j] != c1 && s[j] != c2,
        i > 0 ==> (s[i - 1] == c1 || s[i - 1] == c2),
    ensures
        i == spec_after_last2(s, c1, c2),
    decreases s.len(),
{
    if s.len() == 0 {
    } else if s.last() == c1 || s.last() == c2 {
        assert(i == s.len()) by {
            if i < s.len() {
                assert(s[s.len() - 1] != c1 && s[s.len() - 1] != c2);
            }
        }
    } else {
        assert forall|j: int| i <= j < s.drop_last().len() implies s.drop_last()[j] != c1
            && s.drop_last()[j] != c2 by {
            assert(s.drop_last()[j] == s[j]);
        }
        lemma_after_last2_unique(s.drop_last(), c1, c2, i);
    }
}

/// Index of the first `c1` or `c2` in `v`, or its length.
fn find_first_of2(v: &Vec<char>, c1: char, c2: char) -> (i: usize)
    ensures
        i == spec_first_stop2(v@, c1, c2),
        i <= v.len(),
{
    let mut i: usize = 0;
    while i < v.len() && v[i] != c1 && v[i] != c2
        invariant
            i <= v.len(),
            forall|j: int| 0 <= j < i ==> v@[j] != c1 && v@[j] != c2,
        decreases v.len() - i,
    {
        i = i + 1;
    }
    proof {
        lemma_first_stop2_unique(v@, c1, c2, i as int);
    }
    i
}

/// Index one past the last `c1` or `c2` in `v`, or zero.
fn find_after_last2(v: &Vec<char>, c1: char, c2: char) -> (i: usize)
    ensures
        i == spec_after_last2(v@, c1, c2),
        i <= v.len(),
{
    let mut i: usize = v.len();
    while i > 0 && v[i - 1] != c1 && v[i - 1] != c2
        invariant
            i <= v.len(),
            forall|j: int| i <= j < v.len() ==> v@[j] != c1 && v@[j] != c2,
        decreases i,
    {
        i = i - 1;
    }
    proof {
        lemma_after_last2_unique(v@, c1, c2, i as int);
    }
    i
}

/// Whether a character survives filename sanitization unchanged: ASCII
/// letters and digits, dot, dash and underscore.
pub open spec fn spec_keep_char(c: char) -> bool {
    ('a' <= c && c <= 'z') || ('A' <= c && c <= 'Z') || ('0' <= c && c <= '9') || c == '.' || c
        == '-' || c == '_'
}

/// The sanitized counterpart of one character.
pub open spec fn spec_sanitize_char(c: char) -> char {
    if spec_keep_char(c) {
        c
    } else {
        '_'
    }
}

/// `s` cut at the first `?` or `#`.
pub open spec fn spec_cut_query(s: Seq<char>) -> Seq<char> {
    s.subrange(0, spec_first_stop2(s, '?', '#'))
}

/// The part of `s` after the last `/` or `\`.
pub open spec fn spec_base_name(s: Seq<char>) -> Seq<char> {
    s.subrange(spec_after_last2(s, '/', '\\'), s.len() as int)
}

/// The sanitized cache filename derived from a raw name: the name is cut
/// at the first query or fragment marker, reduced to its last path
/// segment, every unsafe character becomes `_`, and leading and trailing
/// underscores are removed.
pub open spec fn spec_sanitize(s: Seq<char>) -> Seq<char> {
    spec_trim_char(
        spec_base_name(spec_cut_query(s)).map_values(|c: char| spec_sanitize_char(c)),
        '_',
    )
}

/// Sanitizes a raw name into a safe cache filename; see `spec_sanitize`.
pub fn sanitize_filename(input: &str) -> (r: String)
    ensures
        r@ == spec_sanitize(input@),
{
    let v = str_to_chars(input);
    let cut = find_first_of2(&v, '?', '#');
    let q = subvec(&v, 0, cut);
    let bs = find_after_last2(&q, '/', '\\');
    let b = subvec(&q, bs, q.len());
    let mut mapped: Vec<char> = Vec::new();
    let mut i: usize = 0;
    while i < b.len()
        invariant
            i <= b.len(),
            mapped@ == b@.subrange(0, i as int).map_values(|c: char| spec_sanitize_char(c)),
        decreases b.len() - i,
    {
        let c = b[i];
        let keep = ('a' <= c && c <= 'z') || ('A' <= c && c <= 'Z') || ('0' <= c && c <= '9') || c
            == '.' || c == '-' || c == '_';
        if keep {
            mapped.push(c);
        } else {
            mapped.push('_');
        }
        i = i + 1;
        assert(b@.subrange(0, i as int).map_values(|c: char| spec_sanitize_char(c))
            =~= b@.subrange(0, i - 1).map_values(|c: char| spec_sanitize_char(c)).push(
            spec_sanitize_char(b@[i - 1]),
        ));
    }
    assert(b@.subrange(0, b.len() as int) == b@);
    let t = crate::strutil::trim_char(&mapped, '_');
    chars_to_string(&t)
}

/// Index one past the last `.` of a file name, for stem/extension
/// splitting. An extension exists when this is at least two (the dot is
/// not the first character).
pub open spec fn spec_ext_pos(name: Seq<char>) -> int {
    spec_after_last2(name, '.', '.')
}

/// The stem of a file name: the part before its extension's dot, or the
/// whole name when there is no extension.
pub open spec fn spec_stem(name: Seq<char>) -> Seq<char> {
    if spec_ext_pos(name) >= 2 {
        name.subrange(0, spec_ext_pos(name) - 1)
    } else {
        name
    }
}

/// The extension of a file name (possibly empty), when one exists.
pub open spec fn spec_ext(name: Seq<char>) -> Seq<char> {
    if spec_ext_pos(name) >= 2 {
        name.subrange(spec_ext_pos(name), name.len() as int)
    } else {
        Seq::empty()
    }
}

/// Whether a file name has an extension (a dot after its first character).
pub open spec fn spec_has_ext(name: Seq<char>) -> bool {
    spec_ext_pos(name) >= 2
}

/// The fallback cache filename when no usable name can be derived:
/// `image`, with the extension appended when there is one.
pub fn default_filename(extension: &str) -> (r: String)
    ensures
        extension@.len() == 0 ==> r@ == "image"@,
        extension@.len() > 0 ==> r@ == "image."@ + extension@,
{
    if extension.unicode_len() == 0 {
        "image".to_owned()
    } else {
        let mut v = str_to_chars("image.");
        crate::strutil::append_str(&mut v, extension);
        chars_to_string(&v)
    }
}

/// The `counter`-numbered variant of a base filename: `stem-counter` with
/// the original extension kept when there is a nonempty one.
pub fn numbered_filename(base: &str, counter: usize) -> (r: String)
    ensures
        ({
            let b = base@;
            let stem = spec_stem(b);
            let ext = spec_ext(b);
            if ext.len() > 0 {
                r@ == stem + "-"@ + spec_dec(counter as int) + "."@ + ext
            } else {
                r@ == stem + "-"@ + spec_dec(counter as int)
            }
        }),
{
    let v = str_to_chars(base);
    let e = find_after_last2(&v, '.', '.');
    let (stem, ext): (Vec<char>, Vec<char>) = if e >= 2 {
        (subvec(&v, 0, e - 1), subvec(&v, e, v.len()))
    } else {
        let empty: Vec<char> = Vec::new();
        (subvec(&v, 0, v.len()), empty)
    };
    assert(stem@ =~= spec_stem(base@));
    assert(ext@ =~= spec_ext(base@));
    let mut out = stem;
    out.push('-');
    proof {
        reveal_strlit("-");
        assert(seq!['-'] =~= "-"@);
    }
    let digits = u64_to_chars(counter as u64);
    crate::strutil::append_chars(&mut out, &digits);
    if ext.len() > 0 {
        out.push('.');
        proof {
            reveal_strlit(".");
            assert(seq!['.'] =~= "."@);
        }
        crate::strutil::append_chars(&mut out, &ext);
    }
    chars_to_string(&out)
}

/// The file extension of a reference string: the reference is cut at the
/// first `?`, reduced to its last `/`-separated segment, and the part
/// after the last non-leading dot is returned when it is nonempty.
pub fn path_extension_from_str(s: &str) -> (r: Option<String>)
    ensures
        ({
            let q = s@.subrange(0, spec_first_stop2(s@, '?', '?'));
            let f = q.subrange(spec_after_last2(q, '/', '/'), q.len() as int);
            let e = spec_ext(f);
            if spec_has_ext(f) && e.len() > 0 {
                r matches Some(x) && x@ == e
            } else {
                r is None
            }
        }),
{
    let v = str_to_chars(s);
    let cut = find_first_of2(&v, '?', '?');
    let q = subvec(&v, 0, cut);
    let bs = find_after_last2(&q, '/', '/');
    let f = subvec(&q, bs, q.len());
    let e = find_after_last2(&f, '.', '.');
    if e >= 2 && e < f.len() {
        let ext = subvec(&f, e, f.len());
        Option::Some(chars_to_string(&ext))
    } else {
        Option::None
    }
}

/// Appends a candidate name to a list, skipping empty names and names
/// already present.
pub fn push_unique_name(names: &mut Vec<String>, candidate: String)
    ensures
        candidate@.len() == 0 ==> final(names)@ == old(names)@,
        candidate@.len() > 0 && (exists|k: int|
            0 <= k < old(names)@.len() && old(names)@[k]@ == candidate@) ==> final(names)@ == old(
            names,
        )@,
        candidate@.len() > 0 && !(exists|k: int|
            0 <= k < old(names)@.len() && old(names)@[k]@ == candidate@) ==> final(names)@ == old(
            names,
        )@.push(candidate),
{
    if candidate.as_str().unicode_len() == 0 {
        return ;
    }
    let mut i: usize = 0;
    while i < names.len()
        invariant
            i <= names.len(),
            names@ == old(names)@,
            forall|k: int| 0 <= k < i ==> names@[k]@ != candidate@,
        decreases names.len() - i,
    {
        if names[i].as_str().unicode_len() == candidate.as_str().unicode_len() {
            if string_eq(&names[i], &candidate) {
                return ;
            }
        } else {
            assert(names@[i as int]@ != candidate@);
        }
        i = i + 1;
    }
    names.push(candidate);
}

/// A list grown by `push_unique_name` keeps its names pairwise distinct.
proof fn lemma_push_unique_distinct(before: Seq<String>, after: Seq<String>)
    requires
        distinct_names(before),
        after == before || exists|c: String|
            after == before.push(c) && forall|k: int| 0 <= k < before.len() ==> before[k]@ != c@,
    ensures
        distinct_names(after),
{
    if after != before {
        let c = choose|c: String|
            after == before.push(c) && forall|k: int| 0 <= k < before.len() ==> before[k]@ != c@;
        assert forall|i: int, j: int| 0 <= i < j < after.len() implies after[i]@ != after[j]@ by {
            if j < before.len() {
                assert(after[i] == before[i] && after[j] == before[j]);
            } else {
                assert(after[j] == c && after[i] == before[i]);
            }
        }
    }
}

/// Whether two strings hold the same characters.
fn string_eq(a: &String, b: &String) -> (r: bool)
    ensures
        r == (a@ == b@),
{
    a.eq(b)
}

/// The sidecar path holding the cached dimensions of an original file:
/// the original path with its extension replaced by `txt`.
pub fn dimension_cache_path(original_path: &str) -> (r: String)
    ensures
        ({
            let s = original_path@;
            let bs = spec_after_last2(s, '/', '/');
            let f = s.subrange(bs, s.len() as int);
            if spec_has_ext(f) {
                r@ == s.subrange(0, bs + spec_ext_pos(f) - 1) + ".txt"@
            } else {
                r@ == s + ".txt"@
            }
        }),
{
    let v = str_to_chars(original_path);
    let bs = find_after_last2(&v, '/', '/');
    let f = subvec(&v, bs, v.len());
    let e = find_after_last2(&f, '.', '.');
    let mut out: Vec<char> = if e >= 2 {
        subvec(&v, 0, bs + e - 1)
    } else {
        subvec(&v, 0, v.len())
    };
    crate::strutil::append_str(&mut out, ".txt");
    proof {
        if !(e >= 2) {
            assert(v@.subrange(0, v.len() as int) =~= v@);
        }
    }
    chars_to_string(&out)
}

/// The text stored in a dimension sidecar file: width, a space, height,
/// a newline.
pub fn dimension_sidecar_content(width: u32, height: u32) -> (r: String)
    ensures
        r@ == spec_dec(width as int) + " "@ + spec_dec(height as int) + "\n"@,
{
    let mut out = u64_to_chars(width as u64);
    out.push(' ');
    proof {
        reveal_strlit(" ");
        assert(seq![' '] =~= " "@);
    }
    let h = u64_to_chars(height as u64);
    crate::strutil::append_chars(&mut out, &h);
    out.push('\n');
    proof {
        reveal_strlit("\n");
        assert(seq!['\n'] =~= "\n"@);
    }
    chars_to_string(&out)
}

/// Position after skipping whitespace from `from`.
pub open spec fn spec_skip_ws(s: Seq<char>, from: int) -> int
    decreases s.len() - from,
{
    if from < 0 || from >= s.len() || !spec_is_space(s[from]) {
        from
    } else {
        spec_skip_ws(s, from + 1)
    }
}

/// Position after skipping non-whitespace from `from`.
pub open spec fn spec_skip_token(s: Seq<char>, from: int) -> int
    decreases s.len() - from,
{
    if from < 0 || from >= s.len() || spec_is_space(s[from]) {
        from
    } else {
        spec_skip_token(s, from + 1)
    }
}

proof fn lemma_skip_ws_unique(s: Seq<char>, from: int, i: int)
    requires
        0 <= from <= i <= s.len(),
        forall|j: int| from <= j < i ==> spec_is_space(s[j]),
        i < s.len() ==> !spec_is_space(s[i]),
    ensures
        i == spec_skip_ws(s, from),
    decreases i - from,
{
    if from < i {
        lemma_skip_ws_unique(s, from + 1, i);
    }
}

proof fn lemma_skip_token_unique(s: Seq<char>, from: int, i: int)
    requires
        0 <= from <= i <= s.len(),
        forall|j: int| from <= j < i ==> !spec_is_space(s[j]),
        i < s.len() ==> spec_is_space(s[i]),
    ensures
        i == spec_skip_token(s, from),
    decreases i - from,
{
    if from < i {
        lemma_skip_token_unique(s, from + 1, i);
    }
}

/// Parses a dimension sidecar file: the first two whitespace-separated
/// tokens as decimal numbers. Returns the pair exactly when both tokens
/// exist, are all digits, and fit in `u32`.
pub fn parse_cached_dimensions(contents: &str) -> (r: Option<(u32, u32)>)
    ensures
        ({
            let s = contents@;
            let a1 = spec_skip_ws(s, 0);
            let b1 = spec_skip_token(s, a1);
            let a2 = spec_skip_ws(s, b1);
            let b2 = spec_skip_token(s, a2);
            let t1 = s.subrange(a1, b1);
            let t2 = s.subrange(a2, b2);
            if a1 < b1 && all_digits(t1) && digits_val(t1) <= u32::MAX && a2 < b2 && all_digits(t2)
                && digits_val(t2) <= u32::MAX {
                r matches Some(p) && p.0 == digits_val(t1) && p.1 == digits_val(t2)
            } else {
                r is None
            }
        }),
{
    let v = str_to_chars(contents);
    let mut i: usize = 0;
    while i < v.len() && is_space_ch(v[i])
        invariant
            i <= v.len(),
            v@ == contents@,
            forall|j: int| 0 <= j < i ==> spec_is_space(v@[j]),
        decreases v.len() - i,
    {
        i = i + 1;
    }
    let start1 = i;
    proof {
        lemma_skip_ws_unique(v@, 0, i as int);
    }
    while i < v.len() && !is_space_ch(v[i])
        invariant
            start1 <= i <= v.len(),
            v@ == contents@,
            forall|j: int| start1 <= j < i ==> !spec_is_space(v@[j]),
        decreases v.len() - i,
    {
        i = i + 1;
    }
    let end1 = i;
    proof {
        lemma_skip_token_unique(v@, start1 as int, i as int);
    }
    let w = match parse_u32_range(&v, start1, end1) {
        Option::Some(w) => w,
        Option::None => {
            return Option::None;
        },
    };
    while i < v.len() && is_space_ch(v[i])
        invariant
            end1 <= i <= v.len(),
            v@ == contents@,
            forall|j: int| end1 <= j < i ==> spec_is_space(v@[j]),
        decreases v.len() - i,
    {
        i = i + 1;
    }
    let start2 = i;
    proof {
        lemma_skip_ws_unique(v@, end1 as int, i as int);
    }
    while i < v.len() && !is_space_ch(v[i])
        invariant
            start2 <= i <= v.len(),
            v@ == contents@,
            forall|j: int| start2 <= j < i ==> !spec_is_space(v@[j]),
        decreases v.len() - i,
    {
        i = i + 1;
    }
    let end2 = i;
    proof {
        lemma_skip_token_unique(v@, start2 as int, i as int);
    }
    match parse_u32_range(&v, start2, end2) {
        Option::Some(h) => Option::Some((w, h)),
        Option::None => Option::None,
    }
}

/// Whether `c` is Unicode whitespace.
fn is_space_ch(c: char) -> (r: bool)
    ensures
        r == spec_is_space(c),
{
    crate::strutil::is_space(c)
}


/// The normalized form of a path segment: backslashes become slashes.
pub open spec fn spec_norm_seg(seg: Seq<char>) -> Seq<char> {
    seg.map_values(|c: char| if c == '\\' { '/' } else { c })
}

/// Whether a raw path segment is a normal component: nonempty and neither
/// `.` nor `..`.
pub open spec fn spec_keep_seg(seg: Seq<char>) -> bool {
    seg.len() > 0 && seg != "."@ && seg != ".."@
}

/// The normal components of a `/`-separated path, in order, normalized.
pub open spec fn spec_components(s: Seq<char>) -> Seq<Seq<char>>
    decreases s.len(),
    via spec_components_decreases
{
    let p = spec_first_stop2(s, '/', '/');
    let seg = s.subrange(0, p);
    let head: Seq<Seq<char>> = if spec_keep_seg(seg) {
        seq![spec_norm_seg(seg)]
    } else {
        Seq::empty()
    };
    if p == s.len() {
        head
    } else {
        head + spec_components(s.subrange(p + 1, s.len() as int))
    }
}

/// The `/`-joined form of a list of segments.
pub open spec fn spec_join_from(parts: Seq<Seq<char>>, i: int) -> Seq<char>
    decreases parts.len() - i,
{
    if i < 0 || i >= parts.len() {
        Seq::empty()
    } else if i == parts.len() - 1 {
        parts[i]
    } else {
        parts[i] + "/"@ + spec_join_from(parts, i + 1)
    }
}

/// The views of a vector of character vectors.
pub open spec fn views_of(v: Seq<Vec<char>>) -> Seq<Seq<char>> {
    v.map_values(|x: Vec<char>| x@)
}

#[via_fn]
proof fn spec_components_decreases(s: Seq<char>) {
    lemma_first_stop2_bound(s, '/', '/');
}

proof fn lemma_first_stop2_bound(s: Seq<char>, c1: char, c2: char)
    ensures
        0 <= spec_first_stop2(s, c1, c2) <= s.len(),
    decreases s.len(),
{
    if s.len() == 0 || s[0] == c1 || s[0] == c2 {
    } else {
        lemma_first_stop2_bound(s.drop_first(), c1, c2);
    }
}

/// Splits a path into its normal components; see `spec_components`.
fn components(v: &Vec<char>) -> (r: Vec<Vec<char>>)
    ensures
        views_of(r@) == spec_components(v@),
    decreases v.len(),
{
    proof {
        lemma_first_stop2_bound(v@, '/', '/');
    }
    let p = find_first_of2(&v, '/', '/');
    let seg = subvec(v, 0, p);
    let keep = seg.len() > 0 && !eq_lit(&seg, ".") && !eq_lit(&seg, "..");
    let normed: Vec<char> = if keep {
        norm_seg(&seg)
    } else {
        Vec::new()
    };
    if p == v.len() {
        let mut r: Vec<Vec<char>> = Vec::new();
        if keep {
            r.push(normed);
            assert(views_of(r@) =~= seq![spec_norm_seg(seg@)]);
        } else {
            assert(views_of(r@) =~= Seq::<Seq<char>>::empty());
        }
        r
    } else {
        let rest = subvec(v, p + 1, v.len());
        let mut r = components(&rest);
        if keep {
            r.insert(0, normed);
            assert(views_of(r@) =~= seq![spec_norm_seg(seg@)] + spec_components(rest@));
        }
        proof {
            if !keep {
                assert(views_of(r@) =~= Seq::<Seq<char>>::empty() + spec_components(rest@));
            }
        }
        r
    }
}

/// Replaces backslashes by slashes in a segment.
fn norm_seg(seg: &Vec<char>) -> (r: Vec<char>)
    ensures
        r@ == spec_norm_seg(seg@),
{
    let mut r: Vec<char> = Vec::new();
    let mut i: usize = 0;
    while i < seg.len()
        invariant
            i <= seg.len(),
            r@ == seg@.subrange(0, i as int).map_values(
                |c: char| if c == '\\' { '/' } else { c },
            ),
        decreases seg.len() - i,
    {
        let c = seg[i];
        if c == '\\' {
            r.push('/');
        } else {
            r.push(c);
        }
        i = i + 1;
        assert(seg@.subrange(0, i as int).map_values(|c: char| if c == '\\' { '/' } else { c })
            =~= seg@.subrange(0, i - 1).map_values(|c: char| if c == '\\' { '/' } else { c }).push(
            if seg@[i - 1] == '\\' {
                '/'
            } else {
                seg@[i - 1]
            },
        ));
    }
    assert(seg@.subrange(0, seg.len() as int) == seg@);
    r
}

/// Joins segments with `/` starting at index `i`; see `spec_join_from`.
fn join_from(parts: &Vec<Vec<char>>, i: usize) -> (r: Vec<char>)
    requires
        i <= parts.len(),
    ensures
        r@ == spec_join_from(views_of(parts@), i as int),
    decreases parts.len() - i,
{
    if i >= parts.len() {
        let r: Vec<char> = Vec::new();
        assert(r@ =~= Seq::<char>::empty());
        r
    } else if i == parts.len() - 1 {
        let r = subvec(&parts[i], 0, parts[i].len());
        assert(parts@[i as int]@.subrange(0, parts@[i as int]@.len() as int) =~= views_of(
            parts@,
        )[i as int]);
        r
    } else {
        let mut r = subvec(&parts[i], 0, parts[i].len());
        assert(r@ =~= views_of(parts@)[i as int]);
        r.push('/');
        proof {
            reveal_strlit("/");
            assert(views_of(parts@)[i as int].push('/') =~= views_of(parts@)[i as int] + "/"@);
        }
        let rest = join_from(parts, i + 1);
        crate::strutil::append_chars(&mut r, &rest);
        r
    }
}

/// The path relative to the cache directory: the cache directory prefix
/// (followed by a separator) is removed when present.
pub open spec fn spec_strip_cache(path: Seq<char>, cache: Seq<char>) -> Seq<char> {
    if cache.len() == 0 {
        path
    } else if path == cache {
        Seq::empty()
    } else if path.len() > cache.len() + 1 && path.subrange(0, cache.len() as int) == cache && path[
        cache.len() as int
    ] == '/' {
        path.subrange(cache.len() as int + 1, path.len() as int)
    } else {
        path
    }
}

/// The `/`-rooted or root-prefixed site URL for a joined cache path.
pub open spec fn spec_site_url(cache: Seq<char>, root: Option<Seq<char>>, rel: Seq<char>) -> Seq<
    char,
> {
    let cparts = spec_components(cache);
    let parts = if rel.len() == 0 {
        cparts
    } else {
        cparts + seq![rel]
    };
    let joined = spec_join_from(parts, 0);
    match root {
        Option::Some(r) => {
            if r == "/"@ {
                if joined.len() == 0 {
                    "/"@
                } else {
                    "/"@ + joined.subrange(
                        crate::strutil::spec_lead_count(joined, '/'),
                        joined.len() as int,
                    )
                }
            } else {
                if joined.len() == 0 {
                    r
                } else {
                    crate::strutil::spec_trim_end_char(r, '/') + "/"@ + joined
                }
            }
        },
        Option::None => {
            if joined.len() == 0 {
                "/"@
            } else {
                "/"@ + joined.subrange(
                    crate::strutil::spec_lead_count(joined, '/'),
                    joined.len() as int,
                )
            }
        },
    }
}

/// The character view of an optional string.
pub open spec fn opt_view(o: Option<String>) -> Option<Seq<char>> {
    match o {
        Option::Some(s) => Option::Some(s@),
        Option::None => Option::None,
    }
}

/// The public URL for a cache file path, given the cache directory, the
/// optional external asset host prefix, and the optional site root URL.
pub open spec fn spec_public_url(
    cache: Seq<char>,
    img_root: Option<Seq<char>>,
    root: Option<Seq<char>>,
    path: Seq<char>,
) -> Seq<char> {
    let rel = spec_join_from(spec_components(spec_strip_cache(path, cache)), 0);
    match img_root {
        Option::Some(p) => {
            if p.len() > 0 {
                if rel.len() == 0 {
                    p
                } else {
                    crate::strutil::spec_trim_end_char(p, '/') + "/"@ + rel
                }
            } else {
                spec_site_url(cache, root, rel)
            }
        },
        Option::None => spec_site_url(cache, root, rel),
    }
}

impl ImageProcessor {
    /// The public URL of a cache file: the cache-relative path's segments
    /// joined with `/`, prefixed by the configured asset host when one is
    /// set, else rooted under the cache directory path with the optional
    /// site root URL in front.
    pub fn public_url_for(&self, path: &str) -> (r: String)
        ensures
            r@ == spec_public_url(
                self.cache_dir@,
                match self.config.img_root_url {
                    Option::Some(p) => Option::Some(p@),
                    Option::None => Option::None,
                },
                match self.root_url {
                    Option::Some(p) => Option::Some(p@),
                    Option::None => Option::None,
                },
                path@,
            ),
    {
        let pv = str_to_chars(path);
        let cv = str_to_chars(self.cache_dir.as_str());
        // Strip the cache-directory prefix.
        let rel: Vec<char> = if cv.len() == 0 {
            subvec(&pv, 0, pv.len())
        } else if pv.len() == cv.len() && crate::strutil::has_str_at(
            &pv,
            self.cache_dir.as_str(),
            0,
        ) {
            proof {
                assert(pv@.subrange(0, cv@.len() as int) =~= pv@);
            }
            Vec::new()
        } else if pv.len() > cv.len() && pv.len() - cv.len() > 1 && crate::strutil::has_str_at(
            &pv,
            self.cache_dir.as_str(),
            0,
        ) && pv[cv.len()] == '/' {
            subvec(&pv, cv.len() + 1, pv.len())
        } else {
            proof {
                if pv@.len() == cv@.len() && pv@.subrange(0, cv@.len() as int) == cv@ {
                    assert(pv@ =~= cv@);
                }
            }
            subvec(&pv, 0, pv.len())
        };
        proof {
            assert(pv@.subrange(0, pv@.len() as int) =~= pv@);
            assert(rel@ == spec_strip_cache(pv@, cv@));
        }
        let rel_parts = components(&rel);
        let rel_str = join_from(&rel_parts, 0);
        let has_img_root = match &self.config.img_root_url {
            Option::Some(p) => p.as_str().unicode_len() > 0,
            Option::None => false,
        };
        if has_img_root {
            let prefix = match &self.config.img_root_url {
                Option::Some(p) => p.clone(),
                Option::None => String::new(),
            };
            if rel_str.len() == 0 {
                prefix
            } else {
                let pvx = str_to_chars(prefix.as_str());
                let mut out = crate::strutil::trim_end_char(&pvx, '/');
                out.push('/');
                proof {
                    reveal_strlit("/");
                    assert(crate::strutil::spec_trim_end_char(pvx@, '/').push('/')
                        =~= crate::strutil::spec_trim_end_char(pvx@, '/') + "/"@);
                }
                crate::strutil::append_chars(&mut out, &rel_str);
                chars_to_string(&out)
            }
        } else {
            let mut parts = components(&cv);
            if rel_str.len() > 0 {
                let ghost cparts = views_of(parts@);
                parts.push(rel_str);
                assert(views_of(parts@) =~= cparts + seq![spec_join_from(spec_components(rel@), 0)]);
            }
            let joined = join_from(&parts, 0);
            let is_root_slash = match &self.root_url {
                Option::Some(r) => {
                    let rv = str_to_chars(r.as_str());
                    let one = rv.len() == 1 && {
                        let c = rv[0];
                        c == '/'
                    };
                    proof {
                        reveal_strlit("/");
                        if one {
                            assert(rv@ =~= "/"@);
                        } else {
                            assert(rv@ != "/"@);
                        }
                    }
                    one
                },
                Option::None => false,
            };
            match &self.root_url {
                Option::Some(r) if !is_root_slash => {
                    if joined.len() == 0 {
                        r.clone()
                    } else {
                        let rv = str_to_chars(r.as_str());
                        let mut out = crate::strutil::trim_end_char(&rv, '/');
                        out.push('/');
                        proof {
                            reveal_strlit("/");
                            assert(crate::strutil::spec_trim_end_char(rv@, '/').push('/')
                                =~= crate::strutil::spec_trim_end_char(rv@, '/') + "/"@);
                        }
                        crate::strutil::append_chars(&mut out, &joined);
                        chars_to_string(&out)
                    }
                },
                _ => {
                    if joined.len() == 0 {
                        "/".to_owned()
                    } else {
                        let a = crate::strutil::lead_count(&joined, '/');
                        let tail = subvec(&joined, a, joined.len());
                        let mut out = str_to_chars("/");
                        crate::strutil::append_chars(&mut out, &tail);
                        chars_to_string(&out)
                    }
                },
            }
        }
    }
}


/// A path joined to a name below it.
pub open spec fn spec_join_path(cache: Seq<char>, name: Seq<char>) -> Seq<char> {
    if cache.len() == 0 {
        name
    } else if cache.last() == '/' {
        cache + name
    } else {
        cache + "/"@ + name
    }
}

/// Distinct names yield distinct joined paths under one directory.
pub proof fn lemma_join_path_injective(c: Seq<char>, a: Seq<char>, b: Seq<char>)
    requires
        spec_join_path(c, a) == spec_join_path(c, b),
    ensures
        a == b,
{
    if c.len() == 0 {
    } else if c.last() == '/' {
        assert((c + a).subrange(c.len() as int, (c + a).len() as int) =~= a);
        assert((c + b).subrange(c.len() as int, (c + b).len() as int) =~= b);
    } else {
        let p = c + "/"@;
        assert(spec_join_path(c, a) == p + a);
        assert((p + a).subrange(p.len() as int, (p + a).len() as int) =~= a);
        assert((p + b).subrange(p.len() as int, (p + b).len() as int) =~= b);
    }
}

/// Pairwise distinct names.
pub open spec fn distinct_names(s: Seq<String>) -> bool {
    forall|i: int, j: int| 0 <= i < j < s.len() ==> s[i]@ != s[j]@
}

/// Joins the cache directory and a filename with `/`.
pub fn join_path(cache: &str, name: &str) -> (r: String)
    ensures
        r@ == spec_join_path(cache@, name@),
{
    let cv = str_to_chars(cache);
    if cv.len() == 0 {
        let nv = str_to_chars(name);
        chars_to_string(&nv)
    } else if cv[cv.len() - 1] == '/' {
        let mut out = subvec(&cv, 0, cv.len());
        crate::strutil::append_str(&mut out, name);
        proof {
            assert(cv@.subrange(0, cv@.len() as int) =~= cv@);
        }
        chars_to_string(&out)
    } else {
        let mut out = subvec(&cv, 0, cv.len());
        out.push('/');
        proof {
            reveal_strlit("/");
            assert(cv@.subrange(0, cv@.len() as int) =~= cv@);
            assert(cv@.push('/') =~= cv@ + "/"@);
        }
        crate::strutil::append_str(&mut out, name);
        chars_to_string(&out)
    }
}

/// The nearest-integer height of a variant of target width `target` for a
/// source of size `width x height`, floored at one.
pub open spec fn spec_variant_height(target: int, width: int, height: int) -> int {
    let r = crate::dims::rat_round(target * height, width);
    if r < 1 {
        1
    } else {
        r
    }
}

/// Computes a variant's height; see `spec_variant_height`.
pub fn variant_height(target: u32, width: u32, height: u32) -> (r: u32)
    requires
        1 <= width,
        target <= width,
    ensures
        r == spec_variant_height(target as int, width as int, height as int),
        r <= height || r == 1,
{
    let tu: u128 = target as u128;
    let hu: u128 = height as u128;
    proof {
        assert(tu * hu <= 0xffff_ffff * 0xffff_ffff) by (nonlinear_arith)
            requires
                tu <= 0xffff_ffff && hu <= 0xffff_ffff,
        ;
    }
    let p: u128 = tu * hu;
    let q: u128 = width as u128;
    let v: u128 = (2 * p + q) / (2 * q);
    proof {
        assert(v <= height) by (nonlinear_arith)
            requires
                1 <= q,
                target <= q,
                p == target * height,
                v == (2 * p + q) / (2 * q),
                height >= 0,
        ;
    }
    if v < 1 {
        1
    } else {
        v as u32
    }
}

/// The filename of a variant: the original's stem, a dash, the target
/// width, and the extension when there is one.
pub open spec fn spec_variant_filename(stem: Seq<char>, ext: Seq<char>, w: int) -> Seq<char> {
    if ext.len() == 0 {
        stem + "-"@ + spec_dec(w)
    } else {
        stem + "-"@ + spec_dec(w) + "."@ + ext
    }
}

/// Builds a variant's filename; see `spec_variant_filename`.
pub fn variant_filename(stem: &str, extension: &str, w: u32) -> (r: String)
    ensures
        r@ == spec_variant_filename(stem@, extension@, w as int),
{
    let mut out = str_to_chars(stem);
    out.push('-');
    proof {
        reveal_strlit("-");
        assert(stem@.push('-') =~= stem@ + "-"@);
    }
    let digits = u64_to_chars(w as u64);
    crate::strutil::append_chars(&mut out, &digits);
    if extension.unicode_len() > 0 {
        out.push('.');
        proof {
            reveal_strlit(".");
            assert((stem@ + "-"@ + spec_dec(w as int)).push('.') =~= stem@ + "-"@ + spec_dec(
                w as int,
            ) + "."@);
        }
        crate::strutil::append_str(&mut out, extension);
    }
    chars_to_string(&out)
}

/// Whether `x` is a useful target width: one of the configured size
/// buckets, the layout width, or the nonzero display width — and
/// strictly below the original width.
pub open spec fn spec_target_cond(
    sizes: Seq<u32>,
    layout: u32,
    dw: u32,
    width: u32,
    x: u32,
) -> bool {
    (sizes.contains(x) || x == layout || (dw > 0 && x == dw)) && 0 < x && x < width
}

/// The ascending list of target widths below `n`.
pub open spec fn spec_targets_below(
    sizes: Seq<u32>,
    layout: u32,
    dw: u32,
    width: u32,
    n: int,
) -> Seq<u32>
    decreases n,
{
    if n <= 0 {
        Seq::empty()
    } else {
        spec_targets_below(sizes, layout, dw, width, n - 1) + (if 0 <= n - 1 < 0x1_0000_0000
            && spec_target_cond(sizes, layout, dw, width, (n - 1) as u32) {
            seq![(n - 1) as u32]
        } else {
            Seq::empty()
        })
    }
}

/// The ascending, duplicate-free list of all useful target widths.
pub open spec fn spec_targets(sizes: Seq<u32>, layout: u32, dw: u32, width: u32) -> Seq<u32> {
    spec_targets_below(sizes, layout, dw, width, width as int)
}

proof fn lemma_targets_below_props(sizes: Seq<u32>, layout: u32, dw: u32, width: u32, n: int)
    requires
        0 <= n <= 0x1_0000_0000,
    ensures
        config::strictly_sorted(spec_targets_below(sizes, layout, dw, width, n)),
        forall|x: u32|
            spec_targets_below(sizes, layout, dw, width, n).contains(x) <==> (spec_target_cond(
                sizes,
                layout,
                dw,
                width,
                x,
            ) && x < n),
    decreases n,
{
    if n > 0 {
        lemma_targets_below_props(sizes, layout, dw, width, n - 1);
        let prev = spec_targets_below(sizes, layout, dw, width, n - 1);
        let cur = spec_targets_below(sizes, layout, dw, width, n);
        if spec_target_cond(sizes, layout, dw, width, (n - 1) as u32) {
            assert(cur =~= prev.push((n - 1) as u32));
            assert forall|a: int, b: int| 0 <= a < b < cur.len() implies cur[a] < cur[b] by {
                if b < cur.len() - 1 {
                    assert(cur[a] == prev[a] && cur[b] == prev[b]);
                } else {
                    let y = prev[a];
                    assert(prev.contains(y)) by {
                        assert(prev[a] == y);
                    }
                    assert(spec_target_cond(sizes, layout, dw, width, y));
                    assert(y < n - 1);
                    assert(cur[b] == (n - 1) as u32);
                }
            }
            assert forall|x: u32| cur.contains(x) implies (spec_target_cond(
                sizes,
                layout,
                dw,
                width,
                x,
            ) && x < n) by {
                let k = choose|k: int| 0 <= k < cur.len() && cur[k] == x;
                if k < cur.len() - 1 {
                    assert(prev[k] == x);
                    assert(prev.contains(x));
                }
            }
            assert forall|x: u32| (spec_target_cond(sizes, layout, dw, width, x) && x < n) implies
                cur.contains(x) by {
                if x < n - 1 {
                    assert(prev.contains(x));
                    let k = choose|k: int| 0 <= k < prev.len() && prev[k] == x;
                    assert(cur[k] == x);
                } else {
                    assert(cur[cur.len() - 1] == x);
                }
            }
        } else {
            assert(cur =~= prev);
            assert forall|x: u32| cur.contains(x) implies (spec_target_cond(
                sizes,
                layout,
                dw,
                width,
                x,
            ) && x < n) by {}
        }
    }
}

/// Two strictly sorted sequences with the same members are equal.
proof fn lemma_sorted_same_members_eq(a: Seq<u32>, b: Seq<u32>)
    requires
        config::strictly_sorted(a),
        config::strictly_sorted(b),
        forall|x: u32| a.contains(x) <==> b.contains(x),
    ensures
        a == b,
    decreases a.len(),
{
    if a.len() == 0 {
        if b.len() > 0 {
            assert(b.contains(b[0]));
            assert(a.contains(b[0]));
        }
        assert(a =~= b);
    } else {
        assert(b.len() > 0) by {
            assert(a.contains(a[0]));
        }
        let la = a.last();
        let lb = b.last();
        assert(la == lb) by {
            assert(a.contains(la) && b.contains(lb));
            let i = choose|i: int| 0 <= i < b.len() && b[i] == la;
            if i < b.len() - 1 {
                assert(b[i] < lb);
            }
            let j = choose|j: int| 0 <= j < a.len() && a[j] == lb;
            if j < a.len() - 1 {
                assert(a[j] < la);
            }
        }
        let a2 = a.drop_last();
        let b2 = b.drop_last();
        assert(config::strictly_sorted(a2)) by {
            assert(forall|i: int| 0 <= i < a2.len() ==> a2[i] == a[i]);
        }
        assert(config::strictly_sorted(b2)) by {
            assert(forall|i: int| 0 <= i < b2.len() ==> b2[i] == b[i]);
        }
        assert forall|x: u32| a2.contains(x) <==> b2.contains(x) by {
            if a2.contains(x) {
                let k = choose|k: int| 0 <= k < a2.len() && a2[k] == x;
                assert(a[k] == x && x < la);
                assert(b.contains(x));
                let m = choose|m: int| 0 <= m < b.len() && b[m] == x;
                assert(m < b.len() - 1) by {
                    if m == b.len() - 1 {
                        assert(x == lb);
                    }
                }
                assert(b2[m] == x);
            }
            if b2.contains(x) {
                let k = choose|k: int| 0 <= k < b2.len() && b2[k] == x;
                assert(b[k] == x && x < lb);
                assert(a.contains(x));
                let m = choose|m: int| 0 <= m < a.len() && a[m] == x;
                assert(m < a.len() - 1) by {
                    if m == a.len() - 1 {
                        assert(x == la);
                    }
                }
                assert(a2[m] == x);
            }
        }
        lemma_sorted_same_members_eq(a2, b2);
        assert forall|i: int| 0 <= i < a.len() implies a[i] == b[i] by {
            if i < a.len() - 1 {
                assert(a2[i] == b2[i]);
            }
        }
        assert(a =~= b);
    }
}

impl ImageProcessor {
    /// The deduplicated ascending list of target widths worth generating:
    /// the configured size buckets, the layout width and the display width
    /// (when nonzero), restricted to widths strictly below the original.
    pub fn target_resize_widths(&self, original_width: u32, display_width: u32) -> (r: Vec<u32>)
        ensures
            config::strictly_sorted(r@),
            forall|x: u32|
                r@.contains(x) <==> ((self.config.sizes@.contains(x) || x
                    == self.config.layout_width || (display_width > 0 && x == display_width)) && 0
                    < x && x < original_width),
            r@ == spec_targets(
                self.config.sizes@,
                self.config.layout_width,
                display_width,
                original_width,
            ),
    {
        let mut all: Vec<u32> = Vec::new();
        let mut i: usize = 0;
        while i < self.config.sizes.len()
            invariant
                i <= self.config.sizes.len(),
                all@ == self.config.sizes@.subrange(0, i as int),
            decreases self.config.sizes.len() - i,
        {
            all.push(self.config.sizes[i]);
            i = i + 1;
            assert(self.config.sizes@.subrange(0, i - 1).push(self.config.sizes@[i - 1])
                == self.config.sizes@.subrange(0, i as int));
        }
        proof {
            assert(self.config.sizes@.subrange(0, self.config.sizes@.len() as int)
                =~= self.config.sizes@);
        }
        let ghost base = self.config.sizes@;
        all.push(self.config.layout_width);
        if display_width > 0 {
            all.push(display_width);
        }
        proof {
            assert forall|x: u32| all@.contains(x) implies (base.contains(x) || x
                == self.config.layout_width || (display_width > 0 && x == display_width)) by {
                let k = choose|k: int| 0 <= k < all@.len() && all@[k] == x;
                if k < base.len() {
                    assert(base[k] == x);
                }
            }
            assert forall|x: u32| (base.contains(x) || x == self.config.layout_width || (
            display_width > 0 && x == display_width)) implies all@.contains(x) by {
                if base.contains(x) {
                    let k = choose|k: int| 0 <= k < base.len() && base[k] == x;
                    assert(all@[k] == x);
                } else if x == self.config.layout_width {
                    assert(all@[base.len() as int] == x);
                } else {
                    assert(all@[base.len() as int + 1] == x);
                }
            }
        }
        let s = config::sorted_unique_positive(&all);
        let mut out: Vec<u32> = Vec::new();
        let mut j: usize = 0;
        while j < s.len()
            invariant
                j <= s.len(),
                config::strictly_sorted(s@),
                config::strictly_sorted(out@),
                forall|x: u32|
                    out@.contains(x) <==> (s@.subrange(0, j as int).contains(x) && x
                        < original_width),
            decreases s.len() - j,
        {
            let ghost pre = out@;
            if s[j] < original_width {
                proof {
                    assert forall|k: int| 0 <= k < out@.len() implies out@[k] < s@[j as int] by {
                        let y = out@[k];
                        assert(out@.contains(y));
                        let m = choose|m: int| 0 <= m < j && s@.subrange(0, j as int)[m] == y;
                        assert(s@[m] == y);
                    }
                }
                out.push(s[j]);
            }
            j = j + 1;
            proof {
                let prefix = s@.subrange(0, j as int);
                let oldprefix = s@.subrange(0, j - 1);
                assert(prefix.drop_last() =~= oldprefix);
                assert forall|y: u32| pre.contains(y) implies out@.contains(y) by {
                    let k2 = choose|k2: int| 0 <= k2 < pre.len() && pre[k2] == y;
                    assert(out@[k2] == y);
                }
                assert forall|y: u32| out@.contains(y) implies (prefix.contains(y) && y
                    < original_width) by {
                    if y == s@[j - 1] && s@[j - 1] < original_width {
                        assert(prefix[j - 1] == y);
                    } else {
                        assert(pre.contains(y));
                        let k = choose|k: int| 0 <= k < oldprefix.len() && oldprefix[k] == y;
                        assert(prefix[k] == y);
                    }
                }
                assert forall|y: u32| (prefix.contains(y) && y < original_width) implies
                    out@.contains(y) by {
                    let k = choose|k: int| 0 <= k < prefix.len() && prefix[k] == y;
                    if k == j - 1 {
                        assert(y == s@[j - 1]);
                        if !pre.contains(y) {
                            assert(out@ == pre.push(s@[j - 1]));
                            assert(out@[out@.len() - 1] == y);
                            assert(out@.contains(y));
                        } else {
                            assert(out@.contains(y));
                        }
                    } else {
                        assert(oldprefix[k] == y);
                        assert(oldprefix.contains(y));
                        assert(pre.contains(y));
                        assert(out@.contains(y));
                    }
                }
            }
        }
        proof {
            assert(s@.subrange(0, s@.len() as int) =~= s@);
            assert forall|x: u32|
                out@.contains(x) <==> ((self.config.sizes@.contains(x) || x
                    == self.config.layout_width || (display_width > 0 && x == display_width)) && 0
                    < x && x < original_width) by {
                assert(out@.contains(x) <==> (s@.contains(x) && x < original_width));
                assert(s@.contains(x) <==> (all@.contains(x) && x > 0));
                if all@.contains(x) {
                    assert(base.contains(x) || x == self.config.layout_width || (display_width > 0
                        && x == display_width));
                }
                if base.contains(x) {
                    let k = choose|k: int| 0 <= k < base.len() && base[k] == x;
                    assert(all@[k] == x);
                    assert(all@.contains(x));
                } else if x == self.config.layout_width {
                    assert(all@[base.len() as int] == x);
                    assert(all@.contains(x));
                } else if display_width > 0 && x == display_width {
                    assert(all@[base.len() as int + 1] == x);
                    assert(all@.contains(x));
                }
            }
            lemma_targets_below_props(
                self.config.sizes@,
                self.config.layout_width,
                display_width,
                original_width,
                original_width as int,
            );
            let ts = spec_targets(
                self.config.sizes@,
                self.config.layout_width,
                display_width,
                original_width,
            );
            assert forall|x: u32| out@.contains(x) <==> ts.contains(x) by {
                assert(out@.contains(x) == ((self.config.sizes@.contains(x) || x
                    == self.config.layout_width || (display_width > 0 && x == display_width)) && 0
                    < x && x < original_width));
                assert(spec_targets_below(
                    self.config.sizes@,
                    self.config.layout_width,
                    display_width,
                    original_width,
                    original_width as int,
                ).contains(x) == (spec_target_cond(
                    self.config.sizes@,
                    self.config.layout_width,
                    display_width,
                    original_width,
                    x,
                ) && x < original_width));
                assert(ts == spec_targets_below(
                    self.config.sizes@,
                    self.config.layout_width,
                    display_width,
                    original_width,
                    original_width as int,
                ));
            }
            lemma_sorted_same_members_eq(
                out@,
                spec_targets(
                    self.config.sizes@,
                    self.config.layout_width,
                    display_width,
                    original_width,
                ),
            );
        }
        out
    }

    /// Plans the derivative files for a source of size `width x height`:
    /// one spec per target width, with the rounded height and the cache
    /// path derived from the original's stem and extension.
    pub fn plan_variants(
        &self,
        targets: &Vec<u32>,
        stem: &str,
        extension: &str,
        width: u32,
        height: u32,
    ) -> (r: Vec<VariantSpec>)
        requires
            1 <= width,
            forall|k: int| 0 <= k < targets@.len() ==> targets@[k] <= width,
        ensures
            r@.len() == targets@.len(),
            forall|k: int|
                0 <= k < r@.len() ==> r@[k].width == targets@[k] && r@[k].height
                    == spec_variant_height(targets@[k] as int, width as int, height as int)
                    && r@[k].path@ == spec_join_path(
                    self.cache_dir@,
                    spec_variant_filename(stem@, extension@, targets@[k] as int),
                ),
    {
        let mut r: Vec<VariantSpec> = Vec::new();
        let mut i: usize = 0;
        while i < targets.len()
            invariant
                i <= targets.len(),
                1 <= width,
                forall|k: int| 0 <= k < targets@.len() ==> targets@[k] <= width,
                r@.len() == i,
                forall|k: int|
                    0 <= k < i ==> r@[k].width == targets@[k] && r@[k].height
                        == spec_variant_height(targets@[k] as int, width as int, height as int)
                        && r@[k].path@ == spec_join_path(
                        self.cache_dir@,
                        spec_variant_filename(stem@, extension@, targets@[k] as int),
                    ),
            decreases targets.len() - i,
        {
            let t = targets[i];
            let h = variant_height(t, width, height);
            let name = variant_filename(stem, extension, t);
            let path = join_path(self.cache_dir.as_str(), name.as_str());
            r.push(VariantSpec { width: t, height: h, path });
            i = i + 1;
        }
        r
    }
}

/// Whether two byte vectors hold the same bytes.
pub fn bytes_eq(a: &Vec<u8>, b: &Vec<u8>) -> (r: bool)
    ensures
        r == (a@ == b@),
{
    if a.len() != b.len() {
        return false;
    }
    let mut i: usize = 0;
    while i < a.len()
        invariant
            i <= a.len(),
            a@.len() == b@.len(),
            forall|j: int| 0 <= j < i ==> a@[j] == b@[j],
        decreases a.len() - i,
    {
        if a[i] != b[i] {
            assert(a@ != b@);
            return false;
        }
        i = i + 1;
    }
    assert(a@ =~= b@);
    true
}

/// Index of the entry named `n` in a directory listing, or -1.
pub open spec fn spec_dir_find(d: Seq<CacheEntry>, n: Seq<char>) -> int
    decreases d.len(),
{
    if d.len() == 0 {
        -1
    } else if d[0].name@ == n {
        0
    } else {
        let r = spec_dir_find(d.drop_first(), n);
        if r < 0 {
            -1
        } else {
            1 + r
        }
    }
}

proof fn lemma_dir_find_props(d: Seq<CacheEntry>, n: Seq<char>)
    ensures
        spec_dir_find(d, n) >= 0 ==> spec_dir_find(d, n) < d.len() && d[spec_dir_find(d, n)].name@
            == n,
        spec_dir_find(d, n) < 0 ==> forall|k: int| 0 <= k < d.len() ==> d[k].name@ != n,
    decreases d.len(),
{
    if d.len() == 0 {
    } else if d[0].name@ == n {
    } else {
        lemma_dir_find_props(d.drop_first(), n);
        if spec_dir_find(d.drop_first(), n) < 0 {
            assert forall|k: int| 0 <= k < d.len() implies d[k].name@ != n by {
                if k > 0 {
                    assert(d.drop_first()[k - 1].name@ != n);
                }
            }
        }
    }
}

proof fn lemma_dir_find_unique(d: Seq<CacheEntry>, n: Seq<char>, i: int)
    requires
        0 <= i <= d.len(),
        forall|k: int| 0 <= k < i ==> d[k].name@ != n,
        i < d.len() ==> d[i].name@ == n,
    ensures
        i < d.len() ==> spec_dir_find(d, n) == i,
        i == d.len() ==> spec_dir_find(d, n) < 0,
    decreases d.len(),
{
    if d.len() == 0 {
    } else if d[0].name@ == n {
        assert(i == 0);
    } else {
        assert(i > 0 || i < d.len());
        lemma_dir_find_unique(d.drop_first(), n, i - 1);
    }
}

/// Finds the entry named `n` in a directory listing.
fn dir_find(dir: &Vec<CacheEntry>, n: &String) -> (r: Option<usize>)
    ensures
        match r {
            Option::Some(k) => k < dir@.len() && spec_dir_find(dir@, n@) == k,
            Option::None => spec_dir_find(dir@, n@) < 0,
        },
{
    let mut i: usize = 0;
    while i < dir.len()
        invariant
            i <= dir.len(),
            forall|k: int| 0 <= k < i ==> dir@[k].name@ != n@,
        decreases dir.len() - i,
    {
        if string_eq(&dir[i].name, n) {
            proof {
                lemma_dir_find_unique(dir@, n@, i as int);
            }
            return Option::Some(i);
        }
        i = i + 1;
    }
    proof {
        lemma_dir_find_unique(dir@, n@, dir@.len() as int);
    }
    Option::None
}

/// The numbered counterpart of a base filename in spec form.
pub open spec fn spec_numbered_name(base: Seq<char>, c: int) -> Seq<char> {
    if spec_ext(base).len() > 0 {
        spec_stem(base) + "-"@ + spec_dec(c) + "."@ + spec_ext(base)
    } else {
        spec_stem(base) + "-"@ + spec_dec(c)
    }
}

/// The candidate name probed at step `c`: the base name first, then its
/// numbered variants.
pub open spec fn spec_probe_name(base: Seq<char>, c: int) -> Seq<char> {
    if c == 1 {
        base
    } else {
        spec_numbered_name(base, c)
    }
}

/// The original-cache decision: probe the preferred name, then numbered
/// names, until a file with the same content (reuse it) or a free name
/// (write there) is found; `None` when the probe budget is exhausted.
pub open spec fn spec_plan_cache(
    d: Seq<CacheEntry>,
    base: Seq<char>,
    content: Seq<u8>,
    c: int,
    fuel: nat,
) -> Option<(Seq<char>, bool)>
    decreases fuel,
{
    if fuel == 0 {
        Option::None
    } else {
        let name = spec_probe_name(base, c);
        let k = spec_dir_find(d, name);
        if k < 0 {
            Option::Some((name, true))
        } else if d[k].content@ == content {
            Option::Some((name, false))
        } else {
            spec_plan_cache(d, base, content, if c == 1 { 2 } else { c + 1 }, (fuel - 1) as nat)
        }
    }
}

/// Chooses the cache filename for new original content, deduplicating
/// against the given directory listing by direct byte comparison.
///
/// Returns the chosen name and whether a write is needed: `(name, false)`
/// reuses an existing identical file, `(name, true)` means the name is
/// free and the content should be written there. Probing starts at the
/// preferred base name and continues with `-2`, `-3`, ... suffixes.
pub fn plan_original_cache(dir: &Vec<CacheEntry>, base_name: &str, content: &Vec<u8>) -> (r: Option<
    (String, bool),
>)
    requires
        dir@.len() + 3 <= usize::MAX,
    ensures
        match r {
            Option::Some(p) => {
                &&& spec_plan_cache(dir@, base_name@, content@, 1, (dir@.len() + 2) as nat)
                    matches Some(q)
                &&& q.0 == p.0@
                &&& q.1 == p.1
                &&& (p.1 ==> forall|k: int| 0 <= k < dir@.len() ==> dir@[k].name@ != p.0@)
                &&& (!p.1 ==> exists|k: int|
                    0 <= k < dir@.len() && dir@[k].name@ == p.0@ && dir@[k].content@ == content@)
            },
            Option::None => spec_plan_cache(dir@, base_name@, content@, 1, (dir@.len() + 2) as nat)
                is None,
        },
        (forall|k1: int, k2: int|
            0 <= k1 < k2 < dir@.len() ==> dir@[k1].name@ != dir@[k2].name@) ==> r is Some,
{
    let mut counter: usize = 1;
    let mut fuel: usize = dir.len() + 2;
    while fuel > 0
        invariant
            spec_plan_cache(dir@, base_name@, content@, counter as int, fuel as nat)
                == spec_plan_cache(dir@, base_name@, content@, 1, (dir@.len() + 2) as nat),
            counter >= 1,
            counter + fuel == dir@.len() + 3,
            dir@.len() + 3 <= usize::MAX,
        decreases fuel,
    {
        let name: String = if counter == 1 {
            base_name.to_owned()
        } else {
            numbered_filename(base_name, counter)
        };
        assert(name@ == spec_probe_name(base_name@, counter as int));
        match dir_find(dir, &name) {
            Option::None => {
                proof {
                    lemma_dir_find_props(dir@, name@);
                }
                return Option::Some((name, true));
            },
            Option::Some(k) => {
                if bytes_eq(&dir[k].content, content) {
                    proof {
                        lemma_dir_find_props(dir@, name@);
                        assert(dir@[k as int].name@ == name@ && dir@[k as int].content@
                            == content@);
                    }
                    return Option::Some((name, false));
                }
            },
        }
        counter = if counter == 1 {
            2
        } else {
            counter + 1
        };
        fuel = fuel - 1;
    }
    proof {
        if forall|k1: int, k2: int|
            0 <= k1 < k2 < dir@.len() ==> dir@[k1].name@ != dir@[k2].name@ {
            lemma_cache_plan_total(dir@, base_name@, content@);
            assert(false);
        }
    }
    Option::None
}


/// The file-name part of a path: trailing slashes ignored, the part after
/// the last remaining slash.
pub open spec fn spec_file_name(s: Seq<char>) -> Seq<char> {
    let t = crate::strutil::spec_trim_end_char(s, '/');
    t.subrange(spec_after_last2(t, '/', '/'), t.len() as int)
}

/// The file-name part of a path; see `spec_file_name`.
pub fn file_name_of(v: &Vec<char>) -> (r: Vec<char>)
    ensures
        r@ == spec_file_name(v@),
{
    let t = crate::strutil::trim_end_char(v, '/');
    let bs = find_after_last2(&t, '/', '/');
    subvec(&t, bs, t.len())
}

/// The filesystem path a local reference resolves to: `./` and `../`
/// references and other relative references are joined to the asset root;
/// absolute references are used as written.
pub fn local_source_path(reference: &str, asset_root: &str) -> (r: String)
    ensures
        ({
            let s = reference@;
            if s.len() >= 1 && s[0] == '/' && !spec_has_at(s, "./"@, 0) && !spec_has_at(
                s,
                "../"@,
                0,
            ) {
                r@ == s
            } else {
                r@ == spec_join_path(asset_root@, s)
            }
        }),
{
    let v = str_to_chars(reference);
    let dotslash = crate::strutil::starts_with_str(&v, "./");
    let dotdotslash = crate::strutil::starts_with_str(&v, "../");
    if !dotslash && !dotdotslash && v.len() >= 1 && v[0] == '/' {
        reference.to_owned()
    } else {
        proof {
            reveal_strlit("./");
            reveal_strlit("../");
        }
        join_path(asset_root, reference)
    }
}

/// The preferred cache filename for a loaded source: the sanitized
/// file-name of the path it was read from (or of its reference, cut at a
/// query), with the target extension appended when the name has none.
/// Nothing when no nonempty name can be derived.
/// The file-name of a reference string, cut at a query marker: the part
/// after the last slash (trailing slashes ignored), unless it is empty
/// or a dot component.
pub open spec fn spec_reference_file_name(reference: Seq<char>) -> Option<Seq<char>> {
    let q = reference.subrange(0, spec_first_stop2(reference, '?', '?'));
    let f = spec_file_name(q);
    if f.len() > 0 && f != "."@ && f != ".."@ {
        Some(f)
    } else {
        None
    }
}

/// The raw name a cached source prefers: the file-name of the path it
/// was read from, or of its query-cut reference.
pub open spec fn spec_preferred_raw(cached_path: Option<Seq<char>>, reference: Seq<char>) -> Option<
    Seq<char>,
> {
    match cached_path {
        Some(p) => {
            let f = spec_file_name(p);
            if f.len() > 0 && f != "."@ && f != ".."@ {
                Some(f)
            } else {
                spec_reference_file_name(reference)
            }
        },
        None => spec_reference_file_name(reference),
    }
}

/// The preferred cache filename: the raw name sanitized, with the target
/// extension appended when the sanitized name has none; nothing when no
/// nonempty name can be derived.
pub open spec fn spec_preferred_filename(
    cached_path: Option<Seq<char>>,
    reference: Seq<char>,
    ext: Seq<char>,
) -> Option<Seq<char>> {
    match spec_preferred_raw(cached_path, reference) {
        None => None,
        Some(raw) => {
            let s = spec_sanitize(raw);
            if s.len() == 0 {
                None
            } else if spec_has_ext(s) {
                Some(s)
            } else if ext.len() > 0 {
                if s.last() == '.' {
                    Some(s + ext)
                } else {
                    Some(s + "."@ + ext)
                }
            } else {
                Some(s)
            }
        },
    }
}

/// The preferred cache filename for a loaded source; see
/// `spec_preferred_filename`.
pub fn preferred_filename(source: &SourceImage, extension: &str) -> (r: Option<String>)
    ensures
        match r {
            Option::Some(s) => spec_preferred_filename(
                opt_view(source.cached_path),
                source.reference@,
                extension@,
            ) == Some(s@),
            Option::None => spec_preferred_filename(
                opt_view(source.cached_path),
                source.reference@,
                extension@,
            ) is None,
        },
        r matches Some(s) ==> s@.len() > 0,
{
    let raw: Option<String> = match &source.cached_path {
        Option::Some(p) => {
            let f = file_name_of(&str_to_chars(p.as_str()));
            if f.len() > 0 && !eq_lit(&f, ".") && !eq_lit(&f, "..") {
                Option::Some(chars_to_string(&f))
            } else {
                reference_file_name(source.reference.as_str())
            }
        },
        Option::None => reference_file_name(source.reference.as_str()),
    };
    let raw = match raw {
        Option::Some(s) => s,
        Option::None => {
            return Option::None;
        },
    };
    let sanitized = sanitize_filename(raw.as_str());
    let mut sv = str_to_chars(sanitized.as_str());
    if sv.len() == 0 {
        return Option::None;
    }
    let e = find_after_last2(&sv, '.', '.');
    if e >= 2 {
        // The name keeps its own extension, even if it differs.
        Option::Some(sanitized)
    } else {
        let elen = extension.unicode_len();
        if elen > 0 {
            if sv[sv.len() - 1] != '.' {
                sv.push('.');
                proof {
                    reveal_strlit(".");
                    assert(sanitized@.push('.') =~= sanitized@ + "."@);
                }
            }
            crate::strutil::append_str(&mut sv, extension);
        }
        Option::Some(chars_to_string(&sv))
    }
}

/// The file-name of a reference string, cut at a query marker; see
/// `spec_reference_file_name`.
fn reference_file_name(reference: &str) -> (r: Option<String>)
    ensures
        match r {
            Option::Some(s) => spec_reference_file_name(reference@) == Some(s@) && s@.len() > 0,
            Option::None => spec_reference_file_name(reference@) is None,
        },
{
    let v = str_to_chars(reference);
    let cut = find_first_of2(&v, '?', '?');
    let q = subvec(&v, 0, cut);
    let f = file_name_of(&q);
    if f.len() > 0 && !eq_lit(&f, ".") && !eq_lit(&f, "..") {
        Option::Some(chars_to_string(&f))
    } else {
        Option::None
    }
}

/// The raw name a remote reference suggests: the file-name of its
/// query-cut form, or the whole query-cut form when none can be taken.
pub open spec fn spec_remote_raw(reference: Seq<char>) -> Seq<char> {
    let q = reference.subrange(0, spec_first_stop2(reference, '?', '?'));
    let f = spec_file_name(q);
    if f.len() > 0 && f != "."@ && f != ".."@ {
        f
    } else {
        q
    }
}

/// The sanitized base name for a remote reference, falling back to
/// `image` when sanitizing leaves nothing.
pub open spec fn spec_remote_base(reference: Seq<char>) -> Seq<char> {
    let s = spec_sanitize(spec_remote_raw(reference));
    if s.len() == 0 {
        "image"@
    } else {
        s
    }
}

/// The canonical remote cache name: the base name, with the reference's
/// lowercased extension appended when the base has none of its own.
pub open spec fn spec_remote_canonical(reference: Seq<char>) -> Seq<char> {
    let b = spec_remote_base(reference);
    if spec_has_ext(b) {
        b
    } else {
        let q = reference.subrange(0, spec_first_stop2(reference, '?', '?'));
        let f2 = q.subrange(spec_after_last2(q, '/', '/'), q.len() as int);
        let e = spec_ext(f2);
        if spec_has_ext(f2) && e.len() > 0 {
            let et = crate::strutil::spec_trim(e);
            if et.len() > 0 {
                let lo = crate::strutil::spec_ascii_lower_seq(et);
                if b.last() == '.' {
                    b + lo
                } else {
                    b + "."@ + lo
                }
            } else {
                b
            }
        } else {
            b
        }
    }
}

/// The candidate names probed for a remote reference, most specific
/// first: the canonical name, the base name and the canonical name's
/// stem, deduplicated.
pub open spec fn spec_remote_names(reference: Seq<char>) -> Seq<Seq<char>> {
    let c = spec_remote_canonical(reference);
    let b = spec_remote_base(reference);
    let n1 = seq![c];
    let n2 = if b == c {
        n1
    } else {
        n1.push(b)
    };
    if c.len() > 0 && c != "."@ && c != ".."@ {
        let st = spec_stem(c);
        if st == c || (n2.len() == 2 && st == b) {
            n2
        } else {
            n2.push(st)
        }
    } else {
        n2
    }
}

impl ImageProcessor {
    /// The cache paths checked for a previously fetched remote reference,
    /// most specific first: the sanitized name with an inferred extension,
    /// the bare sanitized name, and its stem — at most three, distinct,
    /// each below the cache directory.
    pub fn remote_cache_candidates(&self, reference: &str) -> (r: Vec<String>)
        ensures
            ({
                let names = spec_remote_names(reference@);
                r@.len() == names.len() && forall|k: int|
                    0 <= k < r@.len() ==> (#[trigger] r@[k])@ == spec_join_path(
                        self.cache_dir@,
                        names[k],
                    )
            }),
            1 <= r@.len() <= 3,
            forall|i: int, j: int| 0 <= i < j < r@.len() ==> r@[i]@ != r@[j]@,
    {
        proof {
            reveal_strlit("image");
        }
        let v = str_to_chars(reference);
        let cut = find_first_of2(&v, '?', '?');
        let trimmed = subvec(&v, 0, cut);
        let f = file_name_of(&trimmed);
        let raw: String = if f.len() > 0 && !eq_lit(&f, ".") && !eq_lit(&f, "..") {
            chars_to_string(&f)
        } else {
            chars_to_string(&trimmed)
        };
        assert(raw@ == spec_remote_raw(reference@));
        let sanitized = sanitize_filename(raw.as_str());
        let base: String = if sanitized.as_str().unicode_len() == 0 {
            "image".to_owned()
        } else {
            sanitized
        };
        assert(base@ == spec_remote_base(reference@));
        assert(base@.len() > 0);
        let mut canonical = str_to_chars(base.as_str());
        let e = find_after_last2(&canonical, '.', '.');
        if !(e >= 2) {
            let trimmed_s = chars_to_string(&trimmed);
            proof {
                lemma_first_stop2_bound(reference@, '?', '?');
                lemma_first_stop2_props(reference@, '?', '?');
                assert forall|j: int| 0 <= j < trimmed@.len() implies trimmed@[j] != '?' by {
                    assert(trimmed@[j] == reference@[j]);
                }
                lemma_first_stop2_unique(trimmed@, '?', '?', trimmed@.len() as int);
                assert(trimmed@.subrange(0, trimmed@.len() as int) =~= trimmed@);
            }
            match path_extension_from_str(trimmed_s.as_str()) {
                Option::Some(ext) => {
                    let et = crate::strutil::trim_str(ext.as_str());
                    if et.len() > 0 {
                        let lower = crate::strutil::ascii_lower_chars(&et);
                        if !(canonical.len() > 0 && canonical[canonical.len() - 1] == '.') {
                            canonical.push('.');
                            proof {
                                reveal_strlit(".");
                                assert(base@.push('.') =~= base@ + "."@);
                            }
                        }
                        crate::strutil::append_chars(&mut canonical, &lower);
                    }
                },
                Option::None => {},
            }
        }
        let ghost c = spec_remote_canonical(reference@);
        let ghost b = spec_remote_base(reference@);
        assert(canonical@ == c);
        assert(c.len() > 0);
        let canonical_s = chars_to_string(&canonical);
        let ghost sn = spec_remote_names(reference@);
        let mut names: Vec<String> = Vec::new();
        push_unique_name(&mut names, canonical_s);
        proof {
            assert(names@.len() == 1 && names@[0]@ == c);
        }
        push_unique_name(&mut names, base);
        proof {
            if b == c {
                assert(names@.len() == 1 && names@[0]@ == c);
            } else {
                assert(names@.len() == 2 && names@[0]@ == c && names@[1]@ == b);
            }
        }
        let ghost n2len = names@.len() as int;
        if canonical.len() > 0 && !eq_lit(&canonical, ".") && !eq_lit(&canonical, "..") {
            let e2 = find_after_last2(&canonical, '.', '.');
            let stem: Vec<char> = if e2 >= 2 {
                subvec(&canonical, 0, e2 - 1)
            } else {
                let whole = subvec(&canonical, 0, canonical.len());
                proof {
                    assert(whole@ =~= canonical@);
                }
                whole
            };
            assert(stem@ == spec_stem(c));
            assert(stem@.len() > 0);
            push_unique_name(&mut names, chars_to_string(&stem));
        }
        proof {
            assert(names@.len() == sn.len() && forall|k: int|
                0 <= k < names@.len() ==> (#[trigger] names@[k])@ == sn[k]) by {
                if c.len() > 0 && c != "."@ && c != ".."@ {
                    let st = spec_stem(c);
                    if st == c || (n2len == 2 && st == b) {
                    } else {
                        assert(names@[n2len] @ == st);
                    }
                }
            }
            assert(distinct_names(names@)) by {
                assert forall|i: int, j: int| 0 <= i < j < names@.len() implies names@[i]@
                    != names@[j]@ by {
                    assert(names@[i]@ == sn[i] && names@[j]@ == sn[j]);
                }
            }
            assert(1 <= names@.len() <= 3);
        }
        let mut out: Vec<String> = Vec::new();
        let mut i: usize = 0;
        while i < names.len()
            invariant
                i <= names@.len(),
                names@.len() <= 3,
                distinct_names(names@),
                names@.len() == sn.len(),
                forall|k: int| 0 <= k < names@.len() ==> (#[trigger] names@[k])@ == sn[k],
                out@.len() == i,
                forall|k: int|
                    0 <= k < i ==> out@[k]@ == spec_join_path(self.cache_dir@, names@[k]@),
            decreases names@.len() - i,
        {
            out.push(join_path(self.cache_dir.as_str(), names[i].as_str()));
            i = i + 1;
        }
        proof {
            assert forall|i: int, j: int| 0 <= i < j < out@.len() implies out@[i]@ != out@[j]@ by {
                if out@[i]@ == out@[j]@ {
                    lemma_join_path_injective(self.cache_dir@, names@[i]@, names@[j]@);
                }
            }
        }
        out
    }

    /// The published descriptors for planned variants: each planned file's
    /// size, public URL and MIME type.
    pub fn make_variants(&self, specs: &Vec<VariantSpec>, mime: &str) -> (r: Vec<ImageVariant>)
        ensures
            r@.len() == specs@.len(),
            forall|k: int|
                0 <= k < r@.len() ==> r@[k].width == specs@[k].width && r@[k].height
                    == specs@[k].height && r@[k].mime_type@ == mime@ && r@[k].url@
                    == spec_public_url(
                    self.cache_dir@,
                    opt_view(self.config.img_root_url),
                    opt_view(self.root_url),
                    specs@[k].path@,
                ),
    {
        let mut r: Vec<ImageVariant> = Vec::new();
        let mut i: usize = 0;
        while i < specs.len()
            invariant
                i <= specs@.len(),
                r@.len() == i,
                forall|k: int|
                    0 <= k < i ==> r@[k].width == specs@[k].width && r@[k].height
                        == specs@[k].height && r@[k].mime_type@ == mime@ && r@[k].url@
                        == spec_public_url(
                        self.cache_dir@,
                        opt_view(self.config.img_root_url),
                        opt_view(self.root_url),
                        specs@[k].path@,
                    ),
            decreases specs@.len() - i,
        {
            let url = self.public_url_for(specs[i].path.as_str());
            r.push(
                ImageVariant {
                    width: specs[i].width,
                    height: specs[i].height,
                    url,
                    mime_type: mime.to_owned(),
                },
            );
            i = i + 1;
        }
        r
    }

    /// The planned derivative files for a raster source of the given
    /// oriented size: one per useful target width, named by the
    /// original's stem and the codec's file extension.
    pub fn plan_raster_variants(&self, original_path: &str, codec: Codec, width: u32, height: u32) -> (r: Vec<
        VariantSpec,
    >)
        requires
            1 <= width,
        ensures
            ({
                let d = crate::dims::spec_display_dimensions(
                    width as int,
                    height as int,
                    self.config.layout_width as int,
                );
                let ts = spec_targets(
                    self.config.sizes@,
                    self.config.layout_width,
                    d.0 as u32,
                    width,
                );
                &&& r@.len() == ts.len()
                &&& forall|k: int|
                    0 <= k < r@.len() ==> (#[trigger] r@[k]).width == ts[k] && r@[k].height
                        == spec_variant_height(ts[k] as int, width as int, height as int)
                        && r@[k].path@ == spec_join_path(
                        self.cache_dir@,
                        spec_variant_filename(
                            spec_original_stem(original_path@),
                            spec_codec_ext(codec),
                            ts[k] as int,
                        ),
                    )
            }),
            forall|k1: int, k2: int|
                0 <= k1 < k2 < r@.len() ==> r@[k1].width < r@[k2].width,
            forall|k: int| 0 <= k < r@.len() ==> 0 < #[trigger] r@[k].width < width,
    {
        let (display_width, _display_height, _wide) = crate::dims::compute_display_dimensions(
            width,
            height,
            self.config.layout_width,
        );
        let targets = self.target_resize_widths(width, display_width);
        let stem = original_stem(original_path);
        let extension: &str = match extension_for_format(codec) {
            Option::Some(e) => e,
            Option::None => {
                proof {
                    reveal_strlit("");
                    assert(""@ =~= Seq::<char>::empty());
                }
                ""
            },
        };
        proof {
            assert(extension@ == spec_codec_ext(codec));
            assert forall|k: int| 0 <= k < targets@.len() implies targets@[k] <= width by {
                assert(targets@.contains(targets@[k]));
            }
        }
        let specs = self.plan_variants(&targets, stem.as_str(), extension, width, height);
        proof {
            assert forall|k1: int, k2: int| 0 <= k1 < k2 < specs@.len() implies specs@[k1].width
                < specs@[k2].width by {
                assert(specs@[k1].width == targets@[k1] && specs@[k2].width == targets@[k2]);
            }
            assert forall|k: int| 0 <= k < specs@.len() implies 0 < #[trigger] specs@[k].width
                < width by {
                assert(specs@[k].width == targets@[k]);
                assert(targets@.contains(targets@[k]));
            }
        }
        specs
    }

    /// Assembles the descriptor for a processed raster image from its
    /// oriented size and planned variants. The variant list is ascending
    /// in width, duplicate-free, and never reaches the original width.
    pub fn build_raster_processed(
        &self,
        reference: &str,
        original_path: &str,
        codec: Codec,
        width: u32,
        height: u32,
        specs: &Vec<VariantSpec>,
        exif: Option<ExifSummary>,
    ) -> (r: ProcessedImage)
        requires
            forall|k1: int, k2: int|
                0 <= k1 < k2 < specs@.len() ==> specs@[k1].width < specs@[k2].width,
            forall|k: int| 0 <= k < specs@.len() ==> 0 < #[trigger] specs@[k].width < width,
        ensures
            (r.display_width as int, r.display_height as int, r.is_wide)
                == crate::dims::spec_display_dimensions(
                width as int,
                height as int,
                self.config.layout_width as int,
            ),
            forall|k1: int, k2: int|
                0 <= k1 < k2 < r.variants@.len() ==> r.variants@[k1].width < r.variants@[k2].width,
            forall|k: int|
                0 <= k < r.variants@.len() ==> 0 < #[trigger] r.variants@[k].width < width,
            r.variants@.len() == specs@.len(),
            forall|k: int|
                0 <= k < r.variants@.len() ==> (#[trigger] r.variants@[k]).width
                    == specs@[k].width && r.variants@[k].height == specs@[k].height
                    && r.variants@[k].mime_type@ == spec_mime(codec) && r.variants@[k].url@
                    == spec_public_url(
                    self.cache_dir@,
                    opt_view(self.config.img_root_url),
                    opt_view(self.root_url),
                    specs@[k].path@,
                ),
            r.original matches Some(o) && o.width == width && o.height == height && o.mime_type@
                == spec_mime(codec) && o.url@ == spec_public_url(
                self.cache_dir@,
                opt_view(self.config.img_root_url),
                opt_view(self.root_url),
                original_path@,
            ),
            r.original_reference@ == reference@,
            r.exif == exif,
    {
        let (display_width, display_height, is_wide) = crate::dims::compute_display_dimensions(
            width,
            height,
            self.config.layout_width,
        );
        let mime = mime_type_for_format(codec);
        let variants = self.make_variants(specs, mime);
        let original_url = self.public_url_for(original_path);
        let original_variant = ImageVariant {
            width,
            height,
            url: original_url,
            mime_type: mime.to_owned(),
        };
        ProcessedImage {
            variants,
            original: Option::Some(original_variant),
            display_width,
            display_height,
            original_reference: reference.to_owned(),
            exif,
            is_wide,
        }
    }

    /// Rebuilds the descriptor from cached dimensions, when every planned
    /// variant file already exists: `exists` answers, per planned variant,
    /// whether its file is on disk. Any missing file abandons the fast
    /// path.
    pub fn try_build_processed_from_cache(
        &self,
        reference: &str,
        original_path: &str,
        codec: Codec,
        width: u32,
        height: u32,
        present: &Vec<bool>,
    ) -> (r: Option<ProcessedImage>)
        requires
            1 <= width,
        ensures
            ({
                let d = crate::dims::spec_display_dimensions(
                    width as int,
                    height as int,
                    self.config.layout_width as int,
                );
                let ts = spec_targets(
                    self.config.sizes@,
                    self.config.layout_width,
                    d.0 as u32,
                    width,
                );
                if present@.len() == ts.len() && (forall|k: int|
                    0 <= k < present@.len() ==> present@[k]) {
                    r matches Some(p) && p.exif is None && p.original_reference@ == reference@ && (
                    p.display_width as int, p.display_height as int, p.is_wide) == d
                        && p.variants@.len() == ts.len() && (forall|k: int|
                        0 <= k < p.variants@.len() ==> (#[trigger] p.variants@[k]).width == ts[k]
                            && p.variants@[k].height == spec_variant_height(
                            ts[k] as int,
                            width as int,
                            height as int,
                        ) && p.variants@[k].mime_type@ == spec_mime(codec) && p.variants@[k].url@
                            == spec_public_url(
                            self.cache_dir@,
                            opt_view(self.config.img_root_url),
                            opt_view(self.root_url),
                            spec_join_path(
                                self.cache_dir@,
                                spec_variant_filename(
                                    spec_original_stem(original_path@),
                                    spec_codec_ext(codec),
                                    ts[k] as int,
                                ),
                            ),
                        )) && (p.original matches Some(o) && o.width == width && o.height == height
                        && o.mime_type@ == spec_mime(codec) && o.url@ == spec_public_url(
                        self.cache_dir@,
                        opt_view(self.config.img_root_url),
                        opt_view(self.root_url),
                        original_path@,
                    ))
                } else {
                    r is None
                }
            }),
    {
        let specs = self.plan_raster_variants(original_path, codec, width, height);
        if present.len() != specs.len() {
            return Option::None;
        }
        let mut i: usize = 0;
        while i < present.len()
            invariant
                i <= present@.len(),
                forall|j: int| 0 <= j < i ==> present@[j],
            decreases present@.len() - i,
        {
            if !present[i] {
                assert(!present@[i as int]);
                return Option::None;
            }
            i = i + 1;
        }
        Option::Some(
            self.build_raster_processed(
                reference,
                original_path,
                codec,
                width,
                height,
                &specs,
                Option::None,
            ),
        )
    }

    /// The descriptor for a GIF source read from its bytes: the canvas
    /// size is decoded (a failure is a decode error) and the file is
    /// passed through without derivatives.
    pub fn process_gif_bytes(
        &self,
        reference: &str,
        original_path: &str,
        bytes: &Vec<u8>,
    ) -> (r: Result<ProcessedImage, ImageError>)
        ensures
            match crate::raster::gif_dims_of(bytes@) {
                Option::Some(d) => r matches Ok(p) && p.variants@.len() == 0 && p.exif is None
                    && p.original_reference@ == reference@ && (p.original matches Some(o)
                    && o.width == (if d.0 > 0 {
                    d.0
                } else {
                    1u32
                }) && o.height == (if d.1 > 0 {
                    d.1
                } else {
                    1u32
                }) && o.mime_type@ == "image/gif"@ && o.url@ == spec_public_url(
                    self.cache_dir@,
                    opt_view(self.config.img_root_url),
                    opt_view(self.root_url),
                    original_path@,
                )) && (p.display_width as int, p.display_height as int, p.is_wide)
                    == crate::dims::spec_display_dimensions(
                    if d.0 > 0 {
                        d.0 as int
                    } else {
                        1
                    },
                    if d.1 > 0 {
                        d.1 as int
                    } else {
                        1
                    },
                    self.config.layout_width as int,
                ),
                Option::None => r matches Err(e) && e matches ImageError::Decode(_),
            },
    {
        match crate::raster::gif_dimensions(bytes) {
            Option::Some((w, h)) => Result::Ok(
                self.build_gif_processed(reference, original_path, w, h),
            ),
            Option::None => Result::Err(ImageError::Decode("gif decode failed".to_owned())),
        }
    }

    /// The descriptor for a GIF source, which is passed through without
    /// derivatives.
    pub fn build_gif_processed(
        &self,
        reference: &str,
        original_path: &str,
        width: u32,
        height: u32,
    ) -> (r: ProcessedImage)
        ensures
            r.variants@.len() == 0,
            r.exif is None,
            r.original_reference@ == reference@,
            r.original matches Some(o) && o.width == (if width > 0 {
                width
            } else {
                1u32
            }) && o.height == (if height > 0 {
                height
            } else {
                1u32
            }) && o.mime_type@ == "image/gif"@ && o.url@ == spec_public_url(
                self.cache_dir@,
                opt_view(self.config.img_root_url),
                opt_view(self.root_url),
                original_path@,
            ),
            (r.display_width as int, r.display_height as int, r.is_wide)
                == crate::dims::spec_display_dimensions(
                if width > 0 {
                    width as int
                } else {
                    1
                },
                if height > 0 {
                    height as int
                } else {
                    1
                },
                self.config.layout_width as int,
            ),
    {
        let w: u32 = if width > 0 {
            width
        } else {
            1
        };
        let h: u32 = if height > 0 {
            height
        } else {
            1
        };
        let (display_width, display_height, is_wide) = crate::dims::compute_display_dimensions(
            w,
            h,
            self.config.layout_width,
        );
        let url = self.public_url_for(original_path);
        ProcessedImage {
            variants: Vec::new(),
            original: Option::Some(
                ImageVariant { width: w, height: h, url, mime_type: "image/gif".to_owned() },
            ),
            display_width,
            display_height,
            original_reference: reference.to_owned(),
            exif: Option::None,
            is_wide,
        }
    }

    /// The descriptor for an SVG source: its estimated size (upscaled to
    /// the layout width when smaller) gives the display size; the single
    /// published file is the original.
    pub fn build_svg_processed(&self, reference: &str, original_path: &str, bytes: &Vec<u8>) -> (r:
        ProcessedImage)
        ensures
            (r.display_width as int, r.display_height as int, r.is_wide)
                == crate::svg::spec_svg_display(bytes@, self.config.layout_width),
            r.variants@.len() == 0,
            r.exif is None,
            r.original_reference@ == reference@,
            r.original matches Some(o) && o.width == r.display_width && o.height
                == r.display_height && o.width >= 1 && o.height >= 1 && o.mime_type@
                == "image/svg+xml"@ && o.url@ == spec_public_url(
                self.cache_dir@,
                opt_view(self.config.img_root_url),
                opt_view(self.root_url),
                original_path@,
            ),
    {
        let (display_width, display_height, is_wide) = crate::svg::svg_display_dimensions(
            bytes,
            self.config.layout_width,
        );
        let url = self.public_url_for(original_path);
        ProcessedImage {
            variants: Vec::new(),
            original: Option::Some(
                ImageVariant {
                    width: display_width,
                    height: display_height,
                    url,
                    mime_type: "image/svg+xml".to_owned(),
                },
            ),
            display_width,
            display_height,
            original_reference: reference.to_owned(),
            exif: Option::None,
            is_wide,
        }
    }
}

/// The stem a variant filename derives from: the stem of the path's
/// file name, or `image` when that is empty after trimming.
pub open spec fn spec_original_stem(path: Seq<char>) -> Seq<char> {
    let stem = spec_stem(spec_file_name(path));
    if stem.len() == 0 {
        "image"@
    } else if crate::strutil::spec_trim(stem).len() == 0 {
        "image"@
    } else {
        stem
    }
}

/// The stem of a path's file name, or `image` when it is empty after
/// trimming.
pub fn original_stem(path: &str) -> (r: String)
    ensures
        r@ == spec_original_stem(path@),
        r@.len() > 0,
{
    let f = file_name_of(&str_to_chars(path));
    let e = find_after_last2(&f, '.', '.');
    let stem: Vec<char> = if e >= 2 {
        subvec(&f, 0, e - 1)
    } else {
        let whole = subvec(&f, 0, f.len());
        proof {
            assert(whole@ =~= f@);
        }
        whole
    };
    proof {
        assert(stem@ == spec_stem(spec_file_name(path@)));
    }
    if stem.len() == 0 {
        proof {
            reveal_strlit("image");
        }
        return "image".to_owned();
    }
    let t = trim_str(chars_to_string(&stem).as_str());
    if t.len() == 0 {
        proof {
            reveal_strlit("image");
        }
        "image".to_owned()
    } else {
        chars_to_string(&stem)
    }
}

/// The oriented source size read from a header probe: the probed pixel
/// size, swapped when the orientation encodes a quarter rotation, floored
/// at one; nothing when the header cannot be read.
pub fn probe_oriented_dimensions(bytes: &Vec<u8>, orientation: Option<u16>) -> (r: Option<
    (u32, u32),
>)
    ensures
        match crate::raster::probed_dims_of(bytes@) {
            Option::Some(d) => ({
                let sw = match orientation {
                    Option::Some(o) => 5 <= o && o <= 8,
                    Option::None => false,
                };
                let w0 = if sw {
                    d.1
                } else {
                    d.0
                };
                let h0 = if sw {
                    d.0
                } else {
                    d.1
                };
                r == Option::Some(
                    (
                        if w0 < 1 {
                            1u32
                        } else {
                            w0
                        },
                        if h0 < 1 {
                            1u32
                        } else {
                            h0
                        },
                    ),
                )
            }),
            Option::None => r is None,
        },
        r matches Some(d) ==> d.0 >= 1 && d.1 >= 1,
{
    match crate::raster::probe_dimensions(bytes) {
        Option::Some((pw, ph)) => {
            let (w, h) = oriented_dimensions(pw, ph, orientation);
            let w: u32 = if w < 1 {
                1
            } else {
                w
            };
            let h: u32 = if h < 1 {
                1
            } else {
                h
            };
            Option::Some((w, h))
        },
        Option::None => Option::None,
    }
}

/// The orientation-adjusted source size: orientation codes five to eight
/// encode a quarter rotation, so width and height swap.
pub fn oriented_dimensions(width: u32, height: u32, orientation: Option<u16>) -> (r: (u32, u32))
    ensures
        match orientation {
            Option::Some(o) => if 5 <= o && o <= 8 {
                r == (height, width)
            } else {
                r == (width, height)
            },
            Option::None => r == (width, height),
        },
{
    match orientation {
        Option::Some(o) => {
            if 5 <= o && o <= 8 {
                (height, width)
            } else {
                (width, height)
            }
        },
        Option::None => (width, height),
    }
}

/// The metadata prepared for re-embedding: the serialized block with its
/// identifier ensured and its orientation forced to normal (the pixels
/// are rotated upright before encoding), plus the source's orientation
/// code and displayable summary.
pub fn prepare_exif(bytes: &Vec<u8>) -> (r: (Option<Vec<u8>>, Option<u16>, Option<ExifSummary>))
    ensures
        match crate::exif::exif_fields_of(bytes@) {
            Option::Some(fs) => {
                &&& r.1 == crate::exif::spec_exif_orientation(fs)
                &&& (r.2 matches Some(sum) && sum.entries@.map_values(
                    |p: (String, String)| (p.0@, p.1@),
                ) == crate::exif::spec_summary(fs))
                &&& match crate::exif::exif_block_of(bytes@) {
                    Option::Some(b) => r.0 matches Some(x) && x@ == crate::exif::spec_normalized(
                        crate::exif::spec_ensure_header(b),
                    ),
                    Option::None => r.0 is None,
                }
            },
            Option::None => r.0 is None && r.1 is None && r.2 is None,
        },
{
    let fields = crate::exif::parse_exif_fields(bytes);
    match fields {
        Option::Some(fields) => {
            let orientation = crate::exif::exif_orientation(&fields);
            let summary = crate::exif::summarize_exif(&fields);
            let block = match crate::exif::serialize_exif(bytes) {
                Option::Some(b) => {
                    let mut with_header = crate::exif::ensure_exif_header(b);
                    crate::exif::normalize_exif_orientation(&mut with_header);
                    Option::Some(with_header)
                },
                Option::None => Option::None,
            };
            (block, orientation, Option::Some(summary))
        },
        Option::None => (Option::None, Option::None, Option::None),
    }
}


proof fn lemma_dec_digits(n: int)
    requires
        n >= 0,
    ensures
        all_digits(spec_dec(n)),
        spec_dec(n).len() >= 1,
        digits_val(spec_dec(n)) == n,
    decreases n,
{
    if n < 10 {
        let s = spec_dec(n);
        assert(s == seq![crate::strutil::dec_digit(n)]);
        assert(s.drop_last() =~= Seq::<char>::empty());
        assert(digits_val(s) == digits_val(s.drop_last()) * 10 + (s.last() as int - '0' as int));
    } else {
        lemma_dec_digits(n / 10);
        let s = spec_dec(n);
        let p = spec_dec(n / 10);
        assert(s == p + seq![crate::strutil::dec_digit(n % 10)]);
        assert(s.drop_last() =~= p);
        assert(s.last() == crate::strutil::dec_digit(n % 10));
        assert(digits_val(s) == digits_val(p) * 10 + (s.last() as int - '0' as int));
        assert((n / 10) * 10 + n % 10 == n);
        assert forall|i: int| 0 <= i < s.len() implies crate::strutil::is_dec_digit(s[i]) by {
            if i < p.len() {
                assert(s[i] == p[i]);
            }
        }
    }
}

/// A dimension sidecar written for a size parses back to that size: the
/// sidecar text for `(w, h)` has exactly two whitespace-separated tokens,
/// both all digits, whose values are `w` and `h`.
pub proof fn lemma_sidecar_round_trip(w: u32, h: u32)
    ensures
        ({
            let s = spec_dec(w as int) + " "@ + spec_dec(h as int) + "\n"@;
            let a1 = spec_skip_ws(s, 0);
            let b1 = spec_skip_token(s, a1);
            let a2 = spec_skip_ws(s, b1);
            let b2 = spec_skip_token(s, a2);
            let t1 = s.subrange(a1, b1);
            let t2 = s.subrange(a2, b2);
            a1 < b1 && all_digits(t1) && digits_val(t1) == w && digits_val(t1) <= u32::MAX && a2
                < b2 && all_digits(t2) && digits_val(t2) == h && digits_val(t2) <= u32::MAX
        }),
{
    reveal_strlit(" ");
    reveal_strlit("\n");
    lemma_dec_digits(w as int);
    lemma_dec_digits(h as int);
    let d1 = spec_dec(w as int);
    let d2 = spec_dec(h as int);
    let s = d1 + " "@ + d2 + "\n"@;
    assert(" "@ =~= seq![' ']);
    assert("\n"@ =~= seq!['\n']);
    let n1 = d1.len() as int;
    let n2 = d2.len() as int;
    assert(s.len() == n1 + n2 + 2);
    assert forall|j: int| 0 <= j < n1 implies s[j] == d1[j] by {}
    assert(s[n1] == ' ');
    assert forall|j: int| n1 + 1 <= j < n1 + 1 + n2 implies s[j] == d2[j - n1 - 1] by {}
    assert(s[n1 + 1 + n2] == '\n');
    // Digits are not whitespace.
    assert forall|j: int| 0 <= j < n1 implies !crate::strutil::spec_is_space(s[j]) by {
        assert(crate::strutil::is_dec_digit(d1[j]));
    }
    assert forall|j: int| n1 + 1 <= j < n1 + 1 + n2 implies !crate::strutil::spec_is_space(
        s[j],
    ) by {
        assert(crate::strutil::is_dec_digit(d2[j - n1 - 1]));
    }
    lemma_skip_ws_unique(s, 0, 0);
    lemma_skip_token_unique(s, 0, n1);
    lemma_skip_ws_unique(s, n1, n1 + 1);
    lemma_skip_token_unique(s, n1 + 1, n1 + 1 + n2);
    assert(s.subrange(0, n1) =~= d1);
    assert(s.subrange(n1 + 1, n1 + 1 + n2) =~= d2);
}

/// A free preferred name is used directly: when no cache entry carries
/// the preferred name, the plan writes the content under it.
pub proof fn lemma_cache_plan_uses_free_base(d: Seq<CacheEntry>, base: Seq<char>, content: Seq<u8>)
    requires
        spec_dir_find(d, base) < 0,
    ensures
        spec_plan_cache(d, base, content, 1, (d.len() + 2) as nat) == Option::Some((base, true)),
{
}

/// Identical content under the preferred name is reused: when the entry
/// carrying the preferred name holds the same bytes, the plan returns
/// that name without a write.
pub proof fn lemma_cache_plan_reuses_identical(
    d: Seq<CacheEntry>,
    base: Seq<char>,
    content: Seq<u8>,
)
    requires
        spec_dir_find(d, base) >= 0,
        d[spec_dir_find(d, base)].content@ == content,
    ensures
        spec_plan_cache(d, base, content, 1, (d.len() + 2) as nat) == Option::Some((base, false)),
{
    lemma_dir_find_props(d, base);
}


proof fn lemma_probe_name_injective(base: Seq<char>, c1: int, c2: int)
    requires
        1 <= c1 < c2,
    ensures
        spec_probe_name(base, c1) != spec_probe_name(base, c2),
{
    reveal_strlit("-");
    reveal_strlit(".");
    lemma_dec_digits(c1);
    lemma_dec_digits(c2);
    let stem = spec_stem(base);
    let ext = spec_ext(base);
    let d2 = spec_dec(c2);
    if c1 == 1 {
        // The numbered name is strictly longer than the base name.
        let e = spec_ext_pos(base);
        lemma_after_last2_bound(base, '.', '.');
        if ext.len() > 0 {
            assert(stem.len() == e - 1);
            assert(ext.len() == base.len() - e);
            assert(spec_numbered_name(base, c2).len() == stem.len() + 1 + d2.len() + 1
                + ext.len());
        } else {
            if e >= 2 {
                assert(stem.len() == e - 1);
            } else {
                assert(stem.len() == base.len());
            }
            assert(spec_numbered_name(base, c2).len() == stem.len() + 1 + d2.len());
        }
        assert(spec_numbered_name(base, c2).len() > base.len());
    } else {
        let d1 = spec_dec(c1);
        let n1 = spec_numbered_name(base, c1);
        let n2 = spec_numbered_name(base, c2);
        if d1.len() == d2.len() {
            if n1 == n2 {
                let at = stem.len() + "-"@.len();
                assert(n1.subrange(at as int, at as int + d1.len() as int) =~= d1);
                assert(n2.subrange(at as int, at as int + d2.len() as int) =~= d2);
                assert(digits_val(d1) == digits_val(d2));
                assert(false);
            }
        } else {
            assert(n1.len() != n2.len());
        }
    }
}

/// Whether the directory holds an entry with this name whose content
/// differs.
pub open spec fn spec_occupied_diff(d: Seq<CacheEntry>, name: Seq<char>, content: Seq<u8>) -> bool {
    spec_dir_find(d, name) >= 0 && d[spec_dir_find(d, name)].content@ != content
}

proof fn lemma_cache_plan_total_rec(d: Seq<CacheEntry>, base: Seq<char>, content: Seq<u8>, c: int)
    requires
        forall|k1: int, k2: int| 0 <= k1 < k2 < d.len() ==> d[k1].name@ != d[k2].name@,
        1 <= c <= d.len() + 2,
        forall|j: int| 1 <= j < c ==> spec_occupied_diff(d, #[trigger] spec_probe_name(base, j), content),
    ensures
        spec_plan_cache(d, base, content, c, (d.len() + 3 - c) as nat) is Some,
    decreases d.len() + 3 - c,
{
    // Pigeonhole: the probed-and-missed names are distinct and all occur
    // in the directory, so at most `d.len()` probes can have missed.
    let probe = |j: int| spec_probe_name(base, j);
    let dname = |k: int| d[k].name@;
    let probed = set_int_range(1, c).map(probe);
    let dnames = set_int_range(0, d.len() as int).map(dname);
    lemma_int_range(1, c);
    lemma_int_range(0, d.len() as int);
    assert(injective_on(probe, set_int_range(1, c))) by {
        assert forall|j1: int, j2: int|
            set_int_range(1, c).contains(j1) && set_int_range(1, c).contains(j2) && probe(j1)
                == probe(j2) implies j1 == j2 by {
            if j1 < j2 {
                lemma_probe_name_injective(base, j1, j2);
            } else if j2 < j1 {
                lemma_probe_name_injective(base, j2, j1);
            }
        }
    }
    assert(injective_on(dname, set_int_range(0, d.len() as int))) by {
        assert forall|k1: int, k2: int|
            set_int_range(0, d.len() as int).contains(k1) && set_int_range(0, d.len() as int).contains(
                k2,
            ) && dname(k1) == dname(k2) implies k1 == k2 by {}
    }
    lemma_map_size(set_int_range(1, c), probed, probe);
    lemma_map_size(set_int_range(0, d.len() as int), dnames, dname);
    assert(probed.subset_of(dnames)) by {
        assert forall|n: Seq<char>| probed.contains(n) implies dnames.contains(n) by {
            let j = choose|j: int| set_int_range(1, c).contains(j) && probe(j) == n;
            assert(spec_occupied_diff(d, spec_probe_name(base, j), content));
            lemma_dir_find_props(d, n);
            let k = spec_dir_find(d, n);
            assert(set_int_range(0, d.len() as int).contains(k) && dname(k) == n);
        }
    }
    lemma_len_subset(probed, dnames);
    assert(c - 1 <= d.len());
    // With fuel left, the next probe either finds a free name, a matching
    // file, or another mismatch, and the recursion continues.
    let fuel = (d.len() + 3 - c) as nat;
    assert(fuel >= 2);
    let name = spec_probe_name(base, c);
    let k = spec_dir_find(d, name);
    if k < 0 {
    } else if d[k].content@ == content {
    } else {
        assert(spec_occupied_diff(d, name, content));
        lemma_cache_plan_total_rec(d, base, content, c + 1);
        assert(spec_plan_cache(d, base, content, c, fuel) == spec_plan_cache(
            d,
            base,
            content,
            if c == 1 {
                2
            } else {
                c + 1
            },
            (fuel - 1) as nat,
        ));
    }
}

/// Identical content already stored under a numbered slot is reused: when
/// the preferred name is taken by different content but the first
/// numbered name holds the same bytes, the plan returns the numbered name
/// without a write — no further slot is opened.
pub proof fn lemma_cache_plan_reuses_numbered(
    d: Seq<CacheEntry>,
    base: Seq<char>,
    content: Seq<u8>,
)
    requires
        spec_dir_find(d, base) >= 0,
        d[spec_dir_find(d, base)].content@ != content,
        spec_dir_find(d, spec_numbered_name(base, 2)) >= 0,
        d[spec_dir_find(d, spec_numbered_name(base, 2))].content@ == content,
        d.len() >= 1,
    ensures
        spec_plan_cache(d, base, content, 1, (d.len() + 2) as nat) == Option::Some(
            (spec_numbered_name(base, 2), false),
        ),
{
    lemma_dir_find_props(d, base);
    lemma_dir_find_props(d, spec_numbered_name(base, 2));
    let f = (d.len() + 2) as nat;
    assert(spec_plan_cache(d, base, content, 1, f) == spec_plan_cache(
        d,
        base,
        content,
        2,
        (f - 1) as nat,
    ));
    assert(spec_plan_cache(d, base, content, 2, (f - 1) as nat) == Option::Some(
        (spec_numbered_name(base, 2), false),
    ));
}

/// The cache plan always chooses a slot: in a directory whose file names
/// are distinct, probing the preferred name and its numbered variants
/// finds a matching or free slot within the probe budget.
pub proof fn lemma_cache_plan_total(d: Seq<CacheEntry>, base: Seq<char>, content: Seq<u8>)
    requires
        forall|k1: int, k2: int| 0 <= k1 < k2 < d.len() ==> d[k1].name@ != d[k2].name@,
    ensures
        spec_plan_cache(d, base, content, 1, (d.len() + 2) as nat) is Some,
{
    lemma_cache_plan_total_rec(d, base, content, 1);
}

} // verus!

//! SVG dimension estimation: the root element's `width`/`height`
//! attributes (rejecting percentages), or the `viewBox` extent, parsed as
//! exact rationals and scaled up to the layout width before the display
//! size is computed.

use vstd::prelude::*;

use crate::dims::{den_bound, display_dimensions_q, num_bound, rat_round, spec_display_q};
use crate::strutil::{spec_is_space, spec_trim, str_to_chars, subvec, trim_chars};

verus! {

/// The root element of an XML document: its tag name and its `width`,
/// `height` and `viewBox` attributes, when the bytes parse as XML.
pub uninterp spec fn xml_root_of(bytes: Seq<u8>) -> Option<
    (Seq<char>, Option<Seq<char>>, Option<Seq<char>>, Option<Seq<char>>),
>;

/// Relies on roxmltree::Document::parse and Node::attribute: reads the
/// root element's tag name and sizing attributes; the result depends on
/// the bytes alone.
#[verifier::external_body]
pub fn svg_root_attrs(bytes: &Vec<u8>) -> (r: Option<
    (String, Option<String>, Option<String>, Option<String>),
>)
    ensures
        match (r, xml_root_of(bytes@)) {
            (Option::Some(a), Option::Some(b)) => {
                &&& a.0@ == b.0
                &&& match (a.1, b.1) {
                    (Option::Some(x), Option::Some(y)) => x@ == y,
                    (Option::None, Option::None) => true,
                    _ => false,
                }
                &&& match (a.2, b.2) {
                    (Option::Some(x), Option::Some(y)) => x@ == y,
                    (Option::None, Option::None) => true,
                    _ => false,
                }
                &&& match (a.3, b.3) {
                    (Option::Some(x), Option::Some(y)) => x@ == y,
                    (Option::None, Option::None) => true,
                    _ => false,
                }
            },
            (Option::None, Option::None) => true,
            _ => false,
        },
{
    let text = std::str::from_utf8(bytes.as_slice()).ok()?;
    let doc = roxmltree::Document::parse(text).ok()?;
    let root = doc.root_element();
    Some(
        (
            root.tag_name().name().to_string(),
            root.attribute("width").map(|s| s.to_string()),
            root.attribute("height").map(|s| s.to_string()),
            root.attribute("viewBox").map(|s| s.to_string()),
        ),
    )
}

/// One step of decimal parsing: digits accumulate into the numerator, a
/// single dot starts scaling the denominator; at most thirteen digits in
/// all and six after the point, so the rational stays in the bounds the
/// display computation accepts.
pub open spec fn spec_parse_decimal_from(
    s: Seq<char>,
    i: int,
    num: int,
    den: int,
    digits: int,
    seen_dot: bool,
) -> Option<(u64, u64)>
    decreases s.len() - i,
{
    if i < 0 || i > s.len() {
        None
    } else if i == s.len() {
        if digits == 0 {
            None
        } else {
            Some(((num as u64), (den as u64)))
        }
    } else {
        let c = s[i];
        if c == '.' {
            if seen_dot {
                None
            } else {
                spec_parse_decimal_from(s, i + 1, num, den, digits, true)
            }
        } else if '0' <= c && c <= '9' {
            if digits >= 13 {
                None
            } else if seen_dot && den > 100_000 {
                None
            } else {
                let den2 = if seen_dot {
                    den * 10
                } else {
                    den
                };
                let num2 = num * 10 + (c as int - '0' as int);
                if num2 >= 0x1000_0000_0000 {
                    None
                } else {
                    spec_parse_decimal_from(s, i + 1, num2, den2, digits + 1, seen_dot)
                }
            }
        } else {
            None
        }
    }
}

/// The exact rational a nonempty digit string (with an optional dot)
/// denotes, within bounds; nothing otherwise.
pub open spec fn spec_parse_decimal(s: Seq<char>) -> Option<(u64, u64)> {
    if s.len() == 0 {
        None
    } else {
        spec_parse_decimal_from(s, 0, 0, 1, 0, false)
    }
}

/// Parses a nonnegative decimal number with an optional fractional part
/// into an exact rational; see `spec_parse_decimal`.
pub fn parse_decimal(v: &Vec<char>, from: usize, to: usize) -> (r: Option<(u64, u64)>)
    requires
        from <= to <= v@.len(),
    ensures
        r == spec_parse_decimal(v@.subrange(from as int, to as int)),
        r matches Some(p) ==> 1 <= p.1 < den_bound() && p.0 < num_bound(),
{
    let ghost sub = v@.subrange(from as int, to as int);
    if from >= to {
        return Option::None;
    }
    let mut num: u64 = 0;
    let mut den: u64 = 1;
    let mut digits: usize = 0;
    let mut seen_dot: bool = false;
    let mut i: usize = from;
    while i < to
        invariant
            from <= i <= to <= v@.len(),
            sub == v@.subrange(from as int, to as int),
            num < 0x1000_0000_0000,
            1 <= den <= 1_000_000,
            spec_parse_decimal_from(
                sub,
                i - from,
                num as int,
                den as int,
                digits as int,
                seen_dot,
            ) == spec_parse_decimal(sub),
        decreases to - i,
    {
        let c = v[i];
        assert(sub[i - from] == v@[i as int]);
        if c == '.' {
            if seen_dot {
                return Option::None;
            }
            seen_dot = true;
        } else if '0' <= c && c <= '9' {
            if digits >= 13 {
                return Option::None;
            }
            if seen_dot {
                if den > 100_000 {
                    return Option::None;
                }
                den = den * 10;
            }
            let d: u64 = (c as u32 as u64) - ('0' as u32 as u64);
            num = num * 10 + d;
            digits = digits + 1;
            if num >= 0x1000_0000_0000 {
                return Option::None;
            }
        } else {
            return Option::None;
        }
        i = i + 1;
    }
    if digits == 0 {
        return Option::None;
    }
    proof {
        assert(den < 0x10_0000);
    }
    Option::Some((num, den))
}

/// Index after stripping repeated two-letter unit suffixes (px, cm, mm,
/// in) from the end.
pub open spec fn spec_unit_strip_end(t: Seq<char>, end: int) -> int
    decreases end,
{
    if end >= 2 && end <= t.len() && ((t[end - 2] == 'p' && t[end - 1] == 'x') || (t[end - 2]
        == 'c' && t[end - 1] == 'm') || (t[end - 2] == 'm' && t[end - 1] == 'm') || (t[end - 2]
        == 'i' && t[end - 1] == 'n')) {
        spec_unit_strip_end(t, end - 2)
    } else {
        end
    }
}

/// Index after stripping trailing whitespace below `end`.
pub open spec fn spec_ws_strip_end(t: Seq<char>, end: int) -> int
    decreases end,
{
    if end > 0 && end <= t.len() && spec_is_space(t[end - 1]) {
        spec_ws_strip_end(t, end - 1)
    } else {
        end
    }
}

/// Index after stripping trailing ASCII letters below `end`.
pub open spec fn spec_alpha_strip_end(t: Seq<char>, end: int) -> int
    decreases end,
{
    if end > 0 && end <= t.len() && (('a' <= t[end - 1] && t[end - 1] <= 'z') || ('A' <= t[end - 1]
        && t[end - 1] <= 'Z')) {
        spec_alpha_strip_end(t, end - 1)
    } else {
        end
    }
}

/// The rational a dimension attribute denotes: the attribute is trimmed,
/// percentages are rejected, unit suffixes and trailing letters are
/// stripped, a leading `+` is allowed, and the rest parses as a decimal.
pub open spec fn spec_parse_dimension(s: Seq<char>) -> Option<(u64, u64)> {
    let t = spec_trim(s);
    if t.len() > 0 && t.last() == '%' {
        None
    } else {
        let e1 = spec_unit_strip_end(t, t.len() as int);
        let e2 = spec_ws_strip_end(t, e1);
        let e3 = spec_alpha_strip_end(t, e2);
        let start: int = if e3 > 0 && t[0] == '+' {
            1
        } else {
            0
        };
        if start > e3 {
            None
        } else {
            spec_parse_decimal(t.subrange(start, e3))
        }
    }
}

/// Parses a dimension attribute; see `spec_parse_dimension`.
pub fn parse_dimension(input: &str) -> (r: Option<(u64, u64)>)
    ensures
        r == spec_parse_dimension(input@),
        r matches Some(p) ==> 1 <= p.1 < den_bound() && p.0 < num_bound(),
{
    let t = trim_chars(&str_to_chars(input));
    if t.len() > 0 && t[t.len() - 1] == '%' {
        return Option::None;
    }
    let mut end: usize = t.len();
    while end >= 2 && ((t[end - 2] == 'p' && t[end - 1] == 'x') || (t[end - 2] == 'c' && t[end - 1]
        == 'm') || (t[end - 2] == 'm' && t[end - 1] == 'm') || (t[end - 2] == 'i' && t[end - 1]
        == 'n'))
        invariant
            end <= t.len(),
            spec_unit_strip_end(t@, end as int) == spec_unit_strip_end(t@, t@.len() as int),
        decreases end,
    {
        end = end - 2;
    }
    let ghost e1 = end as int;
    while end > 0 && crate::strutil::is_space(t[end - 1])
        invariant
            end <= t.len(),
            spec_ws_strip_end(t@, end as int) == spec_ws_strip_end(t@, e1),
        decreases end,
    {
        end = end - 1;
    }
    let ghost e2 = end as int;
    while end > 0 && (('a' <= t[end - 1] && t[end - 1] <= 'z') || ('A' <= t[end - 1] && t[end - 1]
        <= 'Z'))
        invariant
            end <= t.len(),
            spec_alpha_strip_end(t@, end as int) == spec_alpha_strip_end(t@, e2),
        decreases end,
    {
        end = end - 1;
    }
    let mut start: usize = 0;
    if end > 0 && t[0] == '+' {
        start = 1;
    }
    if start > end {
        return Option::None;
    }
    parse_decimal(&t, start, end)
}

/// Whether `c` separates the components of a `viewBox` attribute.
pub open spec fn spec_vb_sep(c: char) -> bool {
    spec_is_space(c) || c == ','
}

/// The end of the token starting at `i`: the first separator at or after
/// it.
pub open spec fn spec_vb_token_end(s: Seq<char>, i: int) -> int
    decreases s.len() - i,
{
    if i < 0 || i >= s.len() || spec_vb_sep(s[i]) {
        i
    } else {
        spec_vb_token_end(s, i + 1)
    }
}

proof fn lemma_vb_token_end_bounds(s: Seq<char>, i: int)
    requires
        0 <= i <= s.len(),
    ensures
        i <= spec_vb_token_end(s, i) <= s.len(),
    decreases s.len() - i,
{
    if i < s.len() && !spec_vb_sep(s[i]) {
        lemma_vb_token_end_bounds(s, i + 1);
    }
}

/// The components of a `viewBox` attribute, in order: maximal runs of
/// non-separator characters.
pub open spec fn spec_vb_parts_from(s: Seq<char>, i: int) -> Seq<Seq<char>>
    decreases s.len() - i,
    via spec_vb_parts_from_decreases
{
    if i < 0 || i >= s.len() {
        Seq::empty()
    } else if spec_vb_sep(s[i]) {
        spec_vb_parts_from(s, i + 1)
    } else {
        seq![s.subrange(i, spec_vb_token_end(s, i))] + spec_vb_parts_from(
            s,
            spec_vb_token_end(s, i),
        )
    }
}

#[via_fn]
proof fn spec_vb_parts_from_decreases(s: Seq<char>, i: int) {
    if 0 <= i < s.len() && !spec_vb_sep(s[i]) {
        lemma_vb_token_end_bounds(s, i + 1);
    }
}

/// The components of a `viewBox` attribute.
pub open spec fn spec_vb_parts(s: Seq<char>) -> Seq<Seq<char>> {
    spec_vb_parts_from(s, 0)
}

/// The extent a `viewBox` attribute denotes: its third and fourth
/// components as decimals, when it has exactly four.
pub open spec fn spec_parse_viewbox(s: Seq<char>) -> Option<((u64, u64), (u64, u64))> {
    let parts = spec_vb_parts(s);
    if parts.len() != 4 {
        None
    } else {
        match (spec_parse_decimal(parts[2]), spec_parse_decimal(parts[3])) {
            (Some(w), Some(h)) => Some((w, h)),
            _ => None,
        }
    }
}

/// Parses the extent of a `viewBox` attribute; see `spec_parse_viewbox`.
pub fn parse_viewbox(value: &str) -> (r: Option<((u64, u64), (u64, u64))>)
    ensures
        r == spec_parse_viewbox(value@),
        r matches Some(p) ==> 1 <= p.0.1 < den_bound() && p.0.0 < num_bound() && 1 <= p.1.1
            < den_bound() && p.1.0 < num_bound(),
{
    let v = str_to_chars(value);
    let mut parts: Vec<Vec<char>> = Vec::new();
    let mut i: usize = 0;
    while i < v.len()
        invariant
            i <= v.len(),
            v@ == value@,
            spec_vb_parts(v@) == parts@.map_values(|x: Vec<char>| x@) + spec_vb_parts_from(
                v@,
                i as int,
            ),
        decreases v.len() - i,
    {
        if crate::strutil::is_space(v[i]) || v[i] == ',' {
            i = i + 1;
            continue ;
        }
        let ghost pre = parts@.map_values(|x: Vec<char>| x@);
        let start = i;
        while i < v.len() && !(crate::strutil::is_space(v[i]) || v[i] == ',')
            invariant
                start <= i <= v.len(),
                forall|j: int| start <= j < i ==> !spec_vb_sep(v@[j]),
            decreases v.len() - i,
        {
            i = i + 1;
        }
        proof {
            lemma_vb_token_end_unique(v@, start as int, i as int);
        }
        parts.push(subvec(&v, start, i));
        proof {
            assert(parts@.map_values(|x: Vec<char>| x@) =~= pre.push(
                v@.subrange(start as int, i as int),
            ));
        }
    }
    proof {
        assert(spec_vb_parts_from(v@, v@.len() as int) =~= Seq::<Seq<char>>::empty());
        assert(parts@.map_values(|x: Vec<char>| x@) =~= spec_vb_parts(v@));
    }
    if parts.len() != 4 {
        return Option::None;
    }
    proof {
        assert(parts@.map_values(|x: Vec<char>| x@)[2] == parts@[2]@);
        assert(parts@.map_values(|x: Vec<char>| x@)[3] == parts@[3]@);
        assert(parts@[2]@.subrange(0, parts@[2]@.len() as int) =~= parts@[2]@);
        assert(parts@[3]@.subrange(0, parts@[3]@.len() as int) =~= parts@[3]@);
    }
    let w = parse_decimal(&parts[2], 0, parts[2].len());
    let h = parse_decimal(&parts[3], 0, parts[3].len());
    match (w, h) {
        (Option::Some(w), Option::Some(h)) => Option::Some((w, h)),
        _ => Option::None,
    }
}

proof fn lemma_vb_token_end_unique(s: Seq<char>, start: int, i: int)
    requires
        0 <= start <= i <= s.len(),
        forall|j: int| start <= j < i ==> !spec_vb_sep(s[j]),
        i < s.len() ==> spec_vb_sep(s[i]),
    ensures
        spec_vb_token_end(s, start) == i,
    decreases i - start,
{
    if start < i {
        lemma_vb_token_end_unique(s, start + 1, i);
    }
}

/// The estimated intrinsic size of an SVG document: the root element's
/// `width` and `height` attributes when both parse positive, else the
/// `viewBox` extent when positive; nothing when the bytes are not XML
/// with an `svg` root or no positive pair is found.
pub open spec fn spec_estimate_svg(bytes: Seq<u8>) -> Option<((u64, u64), (u64, u64))> {
    match xml_root_of(bytes) {
        None => None,
        Some(root) => {
            if root.0 != "svg"@ {
                None
            } else {
                let w = match root.1 {
                    Some(a) => spec_parse_dimension(a),
                    None => None,
                };
                let h = match root.2 {
                    Some(a) => spec_parse_dimension(a),
                    None => None,
                };
                if w matches Some(wv) && h matches Some(hv) && wv.0 > 0 && hv.0 > 0 {
                    Some((w->0, h->0))
                } else {
                    match root.3 {
                        Some(vb) => match spec_parse_viewbox(vb) {
                            Some((w2, h2)) => if w2.0 > 0 && h2.0 > 0 {
                                Some((w2, h2))
                            } else {
                                None
                            },
                            None => None,
                        },
                        None => None,
                    }
                }
            }
        },
    }
}

/// Estimates an SVG document's intrinsic size; see `spec_estimate_svg`.
pub fn estimate_svg_dimensions(bytes: &Vec<u8>) -> (r: Option<((u64, u64), (u64, u64))>)
    ensures
        r == spec_estimate_svg(bytes@),
        r matches Some(p) ==> 1 <= p.0.0 < num_bound() && 1 <= p.0.1 < den_bound() && 1 <= p.1.0
            < num_bound() && 1 <= p.1.1 < den_bound(),
{
    let root = match svg_root_attrs(bytes) {
        Option::Some(a) => a,
        Option::None => {
            return Option::None;
        },
    };
    let (tag, width_attr, height_attr, viewbox_attr) = root;
    let tv = str_to_chars(tag.as_str());
    if !crate::strutil::eq_str(&tv, "svg") {
        return Option::None;
    }
    let w = match &width_attr {
        Option::Some(s) => parse_dimension(s.as_str()),
        Option::None => Option::None,
    };
    let h = match &height_attr {
        Option::Some(s) => parse_dimension(s.as_str()),
        Option::None => Option::None,
    };
    match (w, h) {
        (Option::Some(w), Option::Some(h)) => {
            if w.0 > 0 && h.0 > 0 {
                return Option::Some((w, h));
            }
        },
        _ => {},
    }
    match &viewbox_attr {
        Option::Some(s) => {
            match parse_viewbox(s.as_str()) {
                Option::Some((w, h)) => {
                    if w.0 > 0 && h.0 > 0 {
                        Option::Some((w, h))
                    } else {
                        Option::None
                    }
                },
                Option::None => Option::None,
            }
        },
        Option::None => Option::None,
    }
}

/// `v * layout / m` in thousandths, rounded to nearest, clamped into the
/// bounds the display computation accepts.
pub open spec fn spec_scale_milli(vn: int, vd: int, layout: int, mn: int, md: int) -> int {
    let r = rat_round(vn * layout * md * 1000, vd * mn);
    if r < 1 {
        1
    } else if r >= 0x1000_0000_0000 {
        0xfff_ffff_ffff
    } else {
        r
    }
}

/// The display size for an SVG source: the estimated size (the layout
/// width squared when none can be estimated), scaled up proportionally
/// in rounded thousandths when its larger dimension is below the layout
/// width, then run through the display-size computation.
pub open spec fn spec_svg_display(bytes: Seq<u8>, layout_width: u32) -> (int, int, bool) {
    let layout: int = if layout_width < 1 {
        1
    } else {
        layout_width as int
    };
    match spec_estimate_svg(bytes) {
        Some(d) => {
            let wn = d.0.0 as int;
            let wd = d.0.1 as int;
            let hn = d.1.0 as int;
            let hd = d.1.1 as int;
            let wider = wn * hd >= hn * wd;
            let mn = if wider {
                wn
            } else {
                hn
            };
            let md = if wider {
                wd
            } else {
                hd
            };
            if mn < layout * md {
                let wm = spec_scale_milli(wn, wd, layout, mn, md);
                let hm = spec_scale_milli(hn, hd, layout, mn, md);
                spec_display_q(wm, 1000, hm, 1000, layout)
            } else {
                spec_display_q(wn, wd, hn, hd, layout)
            }
        },
        None => spec_display_q(layout, 1, layout, 1, layout),
    }
}

/// Computes the display size for an SVG source; see `spec_svg_display`.
pub fn svg_display_dimensions(bytes: &Vec<u8>, layout_width: u32) -> (r: (u32, u32, bool))
    ensures
        (r.0 as int, r.1 as int, r.2) == spec_svg_display(bytes@, layout_width),
        r.0 >= 1,
        r.1 >= 1,
{
    let layout: u32 = if layout_width < 1 {
        1
    } else {
        layout_width
    };
    let dims = estimate_svg_dimensions(bytes);
    match dims {
        Option::Some(((wn, wd), (hn, hd))) => {
            proof {
                assert((wn as u128) * (hd as u128) < 0x1000_0000_0000 * 0x10_0000 && (hn as u128)
                    * (wd as u128) < 0x1000_0000_0000 * 0x10_0000) by (nonlinear_arith)
                    requires
                        wn < 0x1000_0000_0000 && hd < 0x10_0000 && hn < 0x1000_0000_0000 && wd
                            < 0x10_0000,
                ;
            }
            let wcross: u128 = (wn as u128) * (hd as u128);
            let hcross: u128 = (hn as u128) * (wd as u128);
            let (mn, md): (u64, u64) = if wcross >= hcross {
                (wn, wd)
            } else {
                (hn, hd)
            };
            proof {
                assert((layout as u128) * (md as u128) <= 0xffff_ffff * 0x10_0000)
                    by (nonlinear_arith)
                    requires
                        layout <= 0xffff_ffff && md < 0x10_0000,
                ;
            }
            let below: bool = (mn as u128) < (layout as u128) * (md as u128);
            if below {
                let wm = scale_milli(wn, wd, layout, mn, md);
                let hm = scale_milli(hn, hd, layout, mn, md);
                display_dimensions_q(wm, 1000, hm, 1000, layout)
            } else {
                display_dimensions_q(wn, wd, hn, hd, layout)
            }
        },
        Option::None => display_dimensions_q(layout as u64, 1, layout as u64, 1, layout),
    }
}

/// Scales one dimension into thousandths; see `spec_scale_milli`.
fn scale_milli(vn: u64, vd: u64, layout: u32, mn: u64, md: u64) -> (r: u64)
    requires
        1 <= vn < num_bound(),
        1 <= vd < den_bound(),
        1 <= mn < num_bound(),
        1 <= md < den_bound(),
        1 <= layout,
    ensures
        r as int == spec_scale_milli(vn as int, vd as int, layout as int, mn as int, md as int),
        1 <= r < num_bound(),
{
    proof {
        assert((vn as u128) * (layout as u128) <= 0xfff_ffff_ffff * 0xffff_ffff)
            by (nonlinear_arith)
            requires
                vn <= 0xfff_ffff_ffff && layout <= 0xffff_ffff,
        ;
        assert((vn as u128) * (layout as u128) * (md as u128) <= 0xfff_ffff_ffff * 0xffff_ffff
            * 0xf_ffff) by (nonlinear_arith)
            requires
                (vn as u128) * (layout as u128) <= 0xfff_ffff_ffff * 0xffff_ffff && md <= 0xf_ffff
                    && vn * layout >= 0,
        ;
        assert((vn as u128) * (layout as u128) * (md as u128) * 1000 <= 0xfff_ffff_ffff
            * 0xffff_ffff * 0xf_ffff * 1000) by (nonlinear_arith)
            requires
                (vn as u128) * (layout as u128) * (md as u128) <= 0xfff_ffff_ffff * 0xffff_ffff
                    * 0xf_ffff && (vn as u128) * (layout as u128) * (md as u128) >= 0,
        ;
        assert((vd as u128) * (mn as u128) >= 1 && (vd as u128) * (mn as u128) <= 0xf_ffff
            * 0xfff_ffff_ffff) by (nonlinear_arith)
            requires
                1 <= vd <= 0xf_ffff && 1 <= mn <= 0xfff_ffff_ffff,
        ;
    }
    let p: u128 = (vn as u128) * (layout as u128) * (md as u128) * 1000;
    let q: u128 = (vd as u128) * (mn as u128);
    let v: u128 = (2 * p + q) / (2 * q);
    let r: u128 = if v < 1 {
        1
    } else if v >= 0x1000_0000_0000 {
        0xfff_ffff_ffff
    } else {
        v
    };
    r as u64
}

} // verus!

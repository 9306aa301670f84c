//! The HTML renderer: walks the abstract document tree and emits HTML,
//! escaping text, applying typographic substitutions, numbering sections,
//! figures, equations and tables, and collecting metadata for the page
//! head.

use vstd::prelude::*;

use crate::ast::{Article, ArticleHeader, Block, InlineElement, ListItem};
use crate::config::Config;
use crate::strutil::{
    append_chars, append_str, char_is_alphanumeric, chars_to_string, contains_str, is_alnum_char,
    is_space, spec_has_at, spec_is_space, spec_trim, spec_trim_start_idx, spec_trim_end_idx,
    str_to_chars, subvec, trim_chars, u64_to_chars,
};

verus! {

/// The escaped form of one character in HTML text and attributes.
pub open spec fn spec_escape_char(c: char) -> Seq<char> {
    if c == '&' {
        "&amp;"@
    } else if c == '<' {
        "&lt;"@
    } else if c == '>' {
        "&gt;"@
    } else if c == '"' {
        "&quot;"@
    } else if c == '\'' {
        "&#x27;"@
    } else {
        seq![c]
    }
}

/// The escaped form of a text: each character escaped in place.
pub open spec fn spec_escape_html(s: Seq<char>) -> Seq<char>
    decreases s.len(),
{
    if s.len() == 0 {
        Seq::empty()
    } else {
        spec_escape_char(s[0]) + spec_escape_html(s.drop_first())
    }
}

proof fn lemma_escape_push(s: Seq<char>, c: char)
    ensures
        spec_escape_html(s.push(c)) == spec_escape_html(s) + spec_escape_char(c),
    decreases s.len(),
{
    if s.len() == 0 {
        let t = s.push(c);
        assert(t.len() == 1 && t[0] == c);
        assert(t.drop_first() =~= Seq::<char>::empty());
        assert(spec_escape_html(t) == spec_escape_char(c) + spec_escape_html(t.drop_first()));
        assert(spec_escape_html(t.drop_first()).len() == 0);
        assert(spec_escape_html(s).len() == 0);
        assert(spec_escape_html(t) =~= spec_escape_html(s) + spec_escape_char(c));
    } else {
        assert(s.push(c).drop_first() =~= s.drop_first().push(c));
        lemma_escape_push(s.drop_first(), c);
        assert(spec_escape_html(s.push(c)) == spec_escape_char(s[0]) + (spec_escape_html(
            s.drop_first(),
        ) + spec_escape_char(c)));
        assert(spec_escape_char(s[0]) + (spec_escape_html(s.drop_first()) + spec_escape_char(c))
            =~= (spec_escape_char(s[0]) + spec_escape_html(s.drop_first())) + spec_escape_char(c));
    }
}

/// Escapes a character vector for HTML text and attribute positions.
pub fn escape_chars(v: &Vec<char>) -> (r: Vec<char>)
    ensures
        r@ == spec_escape_html(v@),
{
    let mut out: Vec<char> = Vec::new();
    let mut i: usize = 0;
    while i < v.len()
        invariant
            i <= v.len(),
            out@ == spec_escape_html(v@.subrange(0, i as int)),
        decreases v.len() - i,
    {
        let c = v[i];
        if c == '&' {
            append_str(&mut out, "&amp;");
        } else if c == '<' {
            append_str(&mut out, "&lt;");
        } else if c == '>' {
            append_str(&mut out, "&gt;");
        } else if c == '"' {
            append_str(&mut out, "&quot;");
        } else if c == '\'' {
            append_str(&mut out, "&#x27;");
        } else {
            out.push(c);
            proof {
                assert(seq![c] =~= spec_escape_char(c));
            }
        }
        i = i + 1;
        proof {
            lemma_escape_push(v@.subrange(0, i - 1), v@[i - 1]);
            assert(v@.subrange(0, i - 1).push(v@[i - 1]) =~= v@.subrange(0, i as int));
        }
    }
    proof {
        assert(v@.subrange(0, v@.len() as int) =~= v@);
    }
    out
}

/// Escapes a string for HTML attribute positions.
pub fn html_escape_attr(s: &str) -> (r: String)
    ensures
        r@ == spec_escape_html(s@),
{
    let v = str_to_chars(s);
    let e = escape_chars(&v);
    chars_to_string(&e)
}

/// Escapes a string for HTML text positions (same escaping).
pub fn escape_html(s: &str) -> (r: String)
    ensures
        r@ == spec_escape_html(s@),
{
    html_escape_attr(s)
}

/// `s` with every non-overlapping occurrence of `pat` replaced by `rep`,
/// scanning left to right.
pub open spec fn spec_replace(s: Seq<char>, pat: Seq<char>, rep: Seq<char>) -> Seq<char>
    decreases s.len(),
{
    if s.len() == 0 {
        s
    } else if pat.len() >= 1 && pat.len() <= s.len() && s.subrange(0, pat.len() as int) == pat {
        rep + spec_replace(s.skip(pat.len() as int), pat, rep)
    } else {
        seq![s[0]] + spec_replace(s.drop_first(), pat, rep)
    }
}

/// Replaces every occurrence of `pat` by `rep`; see `spec_replace`.
pub fn replace_chars(v: &Vec<char>, pat: &str, rep: &str) -> (r: Vec<char>)
    requires
        pat@.len() >= 1,
    ensures
        r@ == spec_replace(v@, pat@, rep@),
{
    let plen = pat.unicode_len();
    let mut out: Vec<char> = Vec::new();
    let mut i: usize = 0;
    proof {
        assert(v@.skip(0) =~= v@);
    }
    while i < v.len()
        invariant
            i <= v.len(),
            plen == pat@.len() >= 1,
            spec_replace(v@, pat@, rep@) == out@ + spec_replace(v@.skip(i as int), pat@, rep@),
        decreases v.len() - i,
    {
        let ghost rest = v@.skip(i as int);
        assert(rest[0] == v@[i as int]);
        if crate::strutil::has_str_at(v, pat, i) {
            proof {
                assert(rest.subrange(0, pat@.len() as int) =~= v@.subrange(
                    i as int,
                    i + pat@.len(),
                ));
                assert(rest.skip(pat@.len() as int) =~= v@.skip(i + pat@.len()));
            }
            append_str(&mut out, rep);
            i = i + plen;
        } else {
            proof {
                if pat@.len() <= rest.len() {
                    assert(rest.subrange(0, pat@.len() as int) =~= v@.subrange(
                        i as int,
                        i + pat@.len(),
                    ));
                }
                assert(rest.drop_first() =~= v@.skip(i + 1));
            }
            out.push(v[i]);
            i = i + 1;
        }
    }
    proof {
        assert(v@.skip(i as int) =~= Seq::<char>::empty());
    }
    out
}

/// Whether `c` is a word character for quote substitution: an ASCII
/// letter, digit or underscore.
pub open spec fn spec_word_char(c: char) -> bool {
    ('a' <= c && c <= 'z') || ('A' <= c && c <= 'Z') || ('0' <= c && c <= '9') || c == '_'
}

/// A double quote at the start or after whitespace becomes an opening
/// curly quote.
pub open spec fn spec_open_dq(s: Seq<char>) -> Seq<char> {
    Seq::new(
        s.len(),
        |i: int|
            if s[i] == '"' && (i == 0 || spec_is_space(s[i - 1])) {
                '\u{201c}'
            } else {
                s[i]
            },
    )
}

/// A single quote after a non-word character (or at the start) and before
/// a word character becomes an opening curly quote.
pub open spec fn spec_open_sq(s: Seq<char>) -> Seq<char> {
    Seq::new(
        s.len(),
        |i: int|
            if s[i] == '\'' && (i == 0 || !spec_word_char(s[i - 1])) && i + 1 < s.len()
                && spec_word_char(s[i + 1]) {
                '\u{2018}'
            } else {
                s[i]
            },
    )
}

/// Every occurrence of `from` becomes `to`.
pub open spec fn spec_map_char(s: Seq<char>, from: char, to: char) -> Seq<char> {
    s.map_values(|c: char| if c == from { to } else { c })
}

/// Applies `spec_open_dq` to a character vector.
fn open_dq_pass(v: &Vec<char>) -> (r: Vec<char>)
    ensures
        r@ == spec_open_dq(v@),
{
    let mut out: Vec<char> = Vec::new();
    let mut i: usize = 0;
    while i < v.len()
        invariant
            i <= v.len(),
            out@.len() == i,
            forall|j: int| 0 <= j < i ==> out@[j] == spec_open_dq(v@)[j],
        decreases v.len() - i,
    {
        let c = v[i];
        if c == '"' && (i == 0 || is_space(v[i - 1])) {
            out.push('\u{201c}');
        } else {
            out.push(c);
        }
        i = i + 1;
    }
    assert(out@ =~= spec_open_dq(v@));
    out
}

/// Whether `c` is a word character.
fn word_char(c: char) -> (r: bool)
    ensures
        r == spec_word_char(c),
{
    ('a' <= c && c <= 'z') || ('A' <= c && c <= 'Z') || ('0' <= c && c <= '9') || c == '_'
}

/// Applies `spec_open_sq` to a character vector.
fn open_sq_pass(v: &Vec<char>) -> (r: Vec<char>)
    ensures
        r@ == spec_open_sq(v@),
{
    let mut out: Vec<char> = Vec::new();
    let mut i: usize = 0;
    while i < v.len()
        invariant
            i <= v.len(),
            out@.len() == i,
            forall|j: int| 0 <= j < i ==> out@[j] == spec_open_sq(v@)[j],
        decreases v.len() - i,
    {
        let c = v[i];
        if c == '\'' && (i == 0 || !word_char(v[i - 1])) && i + 1 < v.len() && word_char(
            v[i + 1],
        ) {
            out.push('\u{2018}');
        } else {
            out.push(c);
        }
        i = i + 1;
    }
    assert(out@ =~= spec_open_sq(v@));
    out
}

/// Maps one character to another everywhere.
fn map_char_pass(v: &Vec<char>, from: char, to: char) -> (r: Vec<char>)
    ensures
        r@ == spec_map_char(v@, from, to),
{
    let mut out: Vec<char> = Vec::new();
    let mut i: usize = 0;
    while i < v.len()
        invariant
            i <= v.len(),
            out@ == v@.subrange(0, i as int).map_values(
                |c: char| if c == from { to } else { c },
            ),
        decreases v.len() - i,
    {
        let c = v[i];
        if c == from {
            out.push(to);
        } else {
            out.push(c);
        }
        i = i + 1;
        assert(v@.subrange(0, i as int).map_values(|c: char| if c == from { to } else { c })
            =~= v@.subrange(0, i - 1).map_values(|c: char| if c == from { to } else { c }).push(
            if v@[i - 1] == from {
                to
            } else {
                v@[i - 1]
            },
        ));
    }
    assert(v@.subrange(0, v.len() as int) =~= v@);
    out
}

/// Single backslashes are dropped (escaping the next character), doubled
/// backslashes collapse to one, a trailing single backslash disappears.
pub open spec fn spec_unescape(s: Seq<char>) -> Seq<char>
    decreases s.len(),
{
    if s.len() == 0 {
        s
    } else if s[0] == '\\' {
        if s.len() >= 2 && s[1] == '\\' {
            seq!['\\'] + spec_unescape(s.skip(2))
        } else if s.len() >= 2 {
            seq![s[1]] + spec_unescape(s.skip(2))
        } else {
            Seq::empty()
        }
    } else {
        seq![s[0]] + spec_unescape(s.drop_first())
    }
}

/// Removes escaping backslashes; see `spec_unescape`.
pub fn unescape_backslashes(s: &str) -> (r: String)
    ensures
        r@ == spec_unescape(s@),
{
    let v = str_to_chars(s);
    let mut out: Vec<char> = Vec::new();
    let mut i: usize = 0;
    proof {
        assert(s@.skip(0) =~= s@);
    }
    while i < v.len()
        invariant
            i <= v.len(),
            v@ == s@,
            spec_unescape(s@) == out@ + spec_unescape(s@.skip(i as int)),
        decreases v.len() - i,
    {
        let ghost rest = s@.skip(i as int);
        assert(rest[0] == s@[i as int]);
        if v[i] == '\\' {
            if i + 1 < v.len() {
                assert(rest[1] == s@[i + 1]);
                assert(rest.skip(2) =~= s@.skip(i + 2));
                if v[i + 1] == '\\' {
                    out.push('\\');
                } else {
                    out.push(v[i + 1]);
                }
                i = i + 2;
            } else {
                assert(rest.len() == 1);
                i = i + 1;
                assert(s@.skip(i as int) =~= Seq::<char>::empty());
            }
        } else {
            assert(rest.drop_first() =~= s@.skip(i + 1));
            out.push(v[i]);
            i = i + 1;
        }
    }
    proof {
        assert(s@.skip(i as int) =~= Seq::<char>::empty());
    }
    chars_to_string(&out)
}

/// The typographic substitution applied to plain text runs: em and en
/// dashes, ellipses, curly quotes, backslash unescaping, then HTML
/// escaping.
pub open spec fn spec_typographer(s: Seq<char>) -> Seq<char> {
    let a = spec_replace(s, "---"@, "\u{2014}"@);
    let b = spec_replace(a, "--"@, "\u{2013}"@);
    let c = spec_replace(b, "..."@, "\u{2026}"@);
    let d = spec_open_dq(c);
    let e = spec_open_sq(d);
    let f = spec_map_char(e, '"', '\u{201d}');
    let g = spec_map_char(f, '\'', '\u{2019}');
    spec_escape_html(spec_unescape(g))
}

/// Applies the typographic substitutions to a text run.
pub fn typographer(input: &str) -> (r: String)
    ensures
        r@ == spec_typographer(input@),
{
    proof {
        reveal_strlit("---");
        reveal_strlit("--");
        reveal_strlit("...");
    }
    let v = str_to_chars(input);
    let a = replace_chars(&v, "---", "\u{2014}");
    let b = replace_chars(&a, "--", "\u{2013}");
    let c = replace_chars(&b, "...", "\u{2026}");
    let d = open_dq_pass(&c);
    let e = open_sq_pass(&d);
    let f = map_char_pass(&e, '"', '\u{201d}');
    let g = map_char_pass(&f, '\'', '\u{2019}');
    let u = unescape_backslashes(chars_to_string(&g).as_str());
    escape_html(u.as_str())
}

/// Whether a space must be inserted between two rendered fragments: the
/// previous fragment ends with `>` (ignoring trailing whitespace), the
/// next starts with a letter or digit that is not punctuation, and
/// neither side already provides a space.
pub fn needs_space_between(prev: &str, next: &str) -> (r: bool)
    ensures
        ({
            let p = prev@;
            let n = next@;
            if p.len() == 0 || n.len() == 0 {
                r == false
            } else {
                let pl = if spec_trim_end_idx(p) > 0 {
                    p[spec_trim_end_idx(p) - 1]
                } else {
                    ' '
                };
                let nf = if spec_trim_start_idx(n) < n.len() {
                    n[spec_trim_start_idx(n)]
                } else {
                    ' '
                };
                let punct = (nf == ',' || nf == '.' || nf == ';' || nf == ':' || nf == '?' || nf
                    == '!' || nf == ')' || nf == ']' || nf == '}' || nf == '"' || nf == '\'' || nf
                    == '/');
                r == (!punct && !spec_is_space(pl) && pl == '>' && is_alnum_char(nf) && !(p.last()
                    == ' ' || n[0] == ' '))
            }
        }),
{
    let p = str_to_chars(prev);
    let n = str_to_chars(next);
    if p.len() == 0 || n.len() == 0 {
        return false;
    }
    let pe = crate::strutil::trim_end_idx(&p);
    let prev_last: char = if pe > 0 {
        p[pe - 1]
    } else {
        ' '
    };
    let ns = crate::strutil::trim_start_idx(&n);
    let next_first: char = if ns < n.len() {
        n[ns]
    } else {
        ' '
    };
    let punct = next_first == ',' || next_first == '.' || next_first == ';' || next_first == ':'
        || next_first == '?' || next_first == '!' || next_first == ')' || next_first == ']'
        || next_first == '}' || next_first == '"' || next_first == '\'' || next_first == '/';
    if !punct && !is_space(prev_last) && prev_last == '>' && char_is_alphanumeric(next_first) {
        if p[p.len() - 1] == ' ' || n[0] == ' ' {
            return false;
        }
        return true;
    }
    false
}

/// Whether a stylesheet reference is relative: nonempty, not rooted, not
/// a fragment, not protocol-relative, and without a scheme.
pub fn is_relative_href(href: &str) -> (r: bool)
    ensures
        ({
            let h = href@;
            r == (h.len() > 0 && h[0] != '/' && h[0] != '#' && !crate::strutil::spec_contains_str(
                h,
                ":"@,
            ))
        }),
{
    let v = str_to_chars(href);
    if v.len() == 0 {
        return false;
    }
    if v[0] == '/' || v[0] == '#' {
        return false;
    }
    !contains_str(&v, ":")
}

/// The stylesheet URL with the site root applied: rooted paths are
/// prefixed by the root, relative paths are joined to it, everything else
/// is returned as written (trimmed).
pub fn css_href_with_root(config: &Config) -> (r: String)
    ensures
        ({
            let raw = spec_trim(config.html.css_href@);
            if raw.len() == 0 {
                r@.len() == 0
            } else {
                match config.root_url {
                    Option::Some(root) => {
                        if raw[0] == '/' && !(raw.len() >= 2 && raw[1] == '/') {
                            if root@ == "/"@ {
                                r@ == raw
                            } else {
                                r@ == root@ + raw
                            }
                        } else if raw[0] != '/' && raw[0] != '#'
                            && !crate::strutil::spec_contains_str(raw, ":"@) {
                            if root@ == "/"@ {
                                r@ == "/"@ + raw
                            } else {
                                r@ == root@ + "/"@ + raw
                            }
                        } else {
                            r@ == raw
                        }
                    },
                    Option::None => r@ == raw,
                }
            }
        }),
{
    let raw = trim_chars(&str_to_chars(config.html.css_href.as_str()));
    if raw.len() == 0 {
        return String::new();
    }
    let raw_s = chars_to_string(&raw);
    match &config.root_url {
        Option::Some(root) => {
            let rv = str_to_chars(root.as_str());
            let root_is_slash = rv.len() == 1 && rv[0] == '/';
            proof {
                reveal_strlit("/");
                if root_is_slash {
                    assert(rv@ =~= "/"@);
                } else {
                    assert(rv@ != "/"@);
                }
            }
            if raw[0] == '/' && !(raw.len() >= 2 && raw[1] == '/') {
                if root_is_slash {
                    raw_s
                } else {
                    let mut out = subvec(&rv, 0, rv.len());
                    append_chars(&mut out, &raw);
                    proof {
                        assert(rv@.subrange(0, rv@.len() as int) =~= rv@);
                    }
                    chars_to_string(&out)
                }
            } else if is_relative_href(raw_s.as_str()) {
                let t = subvec(&raw, crate::strutil::lead_count(&raw, '/'), raw.len());
                proof {
                    assert(crate::strutil::spec_lead_count(raw@, '/') == 0);
                    assert(t@ =~= raw@);
                }
                if root_is_slash {
                    let mut out = str_to_chars("/");
                    append_chars(&mut out, &t);
                    chars_to_string(&out)
                } else {
                    let mut out = subvec(&rv, 0, rv.len());
                    out.push('/');
                    proof {
                        assert(rv@.subrange(0, rv@.len() as int) =~= rv@);
                        assert(rv@.push('/') =~= rv@ + "/"@);
                    }
                    append_chars(&mut out, &t);
                    chars_to_string(&out)
                }
            } else {
                raw_s
            }
        },
        Option::None => raw_s,
    }
}


/// One table-of-contents entry: nesting level, title, dotted numbering
/// label and anchor identifier.
#[derive(Debug)]
pub struct TocEntry {
    pub level: usize,
    pub title: String,
    pub numbering_label: String,
    pub anchor_id: String,
}

/// The URL with the site root applied: rooted URLs (but not
/// protocol-relative ones) get the root prefix unless the root is `/`.
pub open spec fn spec_url_with_root(root: Option<Seq<char>>, url: Seq<char>) -> Seq<char> {
    match root {
        Option::Some(r) => {
            if url.len() >= 1 && url[0] == '/' && !(url.len() >= 2 && url[1] == '/') {
                if r == "/"@ {
                    url
                } else {
                    r + url
                }
            } else {
                url
            }
        },
        Option::None => url,
    }
}

/// The opening anchor tag a rendered link starts with: its URL with the
/// site root applied, escaped.
pub open spec fn spec_link_open_tag(root: Option<Seq<char>>, url: Seq<char>) -> Seq<char> {
    "<a href=\""@ + spec_escape_html(spec_url_with_root(root, url)) + "\">"@
}

/// The character view of the renderer's configured site root.
pub open spec fn spec_root_view(c: Config) -> Option<Seq<char>> {
    match c.root_url {
        Option::Some(s) => Option::Some(s@),
        Option::None => Option::None,
    }
}

/// Whether every link among the elements has its opening anchor tag (its
/// URL resolved against the site root and escaped) somewhere in the
/// rendered output.
pub open spec fn spec_links_resolved(
    root: Option<Seq<char>>,
    elements: Seq<InlineElement>,
    out: Seq<char>,
) -> bool {
    forall|k: int|
        0 <= k < elements.len() ==> match #[trigger] elements[k] {
            InlineElement::Link { url, .. } => crate::strutil::spec_contains_str(
                out,
                spec_link_open_tag(root, url@),
            ),
            _ => true,
        }
}

/// The rendered figure markup for given parts: identifier attribute,
/// resolved URL, escaped alt text, figure number and caption.
pub open spec fn spec_figure_html(
    root: Option<Seq<char>>,
    url: Seq<char>,
    id: Option<String>,
    id_number: usize,
    alt: Seq<char>,
    caption: Seq<char>,
) -> Seq<char> {
    let num: int = if id_number < usize::MAX {
        id_number as int + 1
    } else {
        id_number as int
    };
    let a = match id {
        Option::Some(s) => spec_escape_html(s@),
        Option::None => "fig"@ + crate::strutil::spec_dec(num),
    };
    let h = spec_escape_html(spec_url_with_root(root, url));
    "<figure id=\""@ + a + "\"><a href=\""@ + h + "\"><img src=\""@ + h + "\" alt=\""@
        + spec_escape_html(alt) + "\"/></a><figcaption><a href=\"#"@ + a
        + "\" class=\"fignum\">FIGURE "@ + crate::strutil::spec_dec(num) + "</a> "@ + caption
        + "</figcaption></figure>\n"@
}

/// The rendered article header.
pub open spec fn spec_render_header(h: ArticleHeader) -> Seq<char> {
    let title_part = "<header>\n<h1 id=\"top\">"@ + spec_escape_html(h.title@) + "</h1>\n"@;
    let date_part = match h.date {
        Option::Some(d) => "<p class=\"date\">"@ + spec_escape_html(d@) + "</p>\n"@,
        Option::None => Seq::<char>::empty(),
    };
    title_part + date_part + "</header>\n"@
}

/// The HTML renderer. It walks a parsed article, keeping the table of
/// contents, section numbering and page metadata as it goes; rendered
/// display math is memoized. A math engine outside the library may seed
/// the memo through `seed_math`; without seeded results math falls back
/// to escaped source in a marked span or block.
#[derive(Debug)]
pub struct HtmlRenderer {
    pub math_memo: Vec<(bool, String, String)>,
    pub config: Config,
    pub toc: Vec<TocEntry>,
    pub section_counters: Vec<usize>,
    pub meta_description: Option<String>,
    pub meta_image: Option<String>,
}

/// Duplicates a configuration, keeping every field the renderer and the
/// image pipeline read.
pub fn dup_config(c: &Config) -> (r: Config)
    ensures
        r.timings == c.timings,
        r.root_url == c.root_url,
        r.html.template_path@ == c.html.template_path@,
        r.html.css_href@ == c.html.css_href@,
        r.html.blog_dir == c.html.blog_dir,
        r.images.cache_dir@ == c.images.cache_dir@,
        r.images.img_root_url == c.images.img_root_url,
        r.images.sizes@ == c.images.sizes@,
        r.images.display_sizes@ == c.images.display_sizes@,
        r.images.meta_size == c.images.meta_size,
        r.images.jpeg_quality == c.images.jpeg_quality,
        r.images.layout_width == c.images.layout_width,
        r.images.remote_fetch_timeout_secs == c.images.remote_fetch_timeout_secs,
    {
    let images = crate::config::ImagesConfig {
        cache_dir: clone_string(&c.images.cache_dir),
        base_dir: crate::image_processor::clone_opt_string(&c.images.base_dir),
        img_root_url: crate::image_processor::clone_opt_string(&c.images.img_root_url),
        sizes: crate::config::copy_u32_vec(&c.images.sizes),
        display_sizes: crate::config::copy_u32_vec(&c.images.display_sizes),
        meta_size: c.images.meta_size,
        jpeg_quality: c.images.jpeg_quality,
        layout_width: c.images.layout_width,
        remote_fetch_timeout_secs: c.images.remote_fetch_timeout_secs,
    };
    let html = crate::config::HtmlConfig {
        template_path: clone_string(&c.html.template_path),
        css_href: clone_string(&c.html.css_href),
        blog_dir: crate::image_processor::clone_opt_string(&c.html.blog_dir),
    };
    let math = crate::config::MathConfig {
        prefer_persistent: c.math.prefer_persistent,
        command: crate::image_processor::clone_opt_string(&c.math.command),
    };
    let feed = crate::config::FeedConfig {
        enabled: c.feed.enabled,
        output_path: clone_string(&c.feed.output_path),
        title: crate::image_processor::clone_opt_string(&c.feed.title),
        description: crate::image_processor::clone_opt_string(&c.feed.description),
        link: crate::image_processor::clone_opt_string(&c.feed.link),
        limit: c.feed.limit,
    };
    Config { timings: c.timings, root_url: crate::image_processor::clone_opt_string(&c.root_url), math, html, images, feed }
}

/// Clones a string, keeping its characters.
fn clone_string(s: &String) -> (r: String)
    ensures
        r@ == s@,
{
    let c = s.clone();
    assert(c == s);
    c
}

impl HtmlRenderer {
    /// A renderer over the given configuration, with empty state.
    pub fn new(config: &Config) -> (r: Self)
        ensures
            r.math_memo@.len() == 0,
            r.toc@.len() == 0,
            r.section_counters@.len() == 0,
            r.meta_description is None,
            r.meta_image is None,
            r.config.root_url == config.root_url,
            r.config.html.css_href@ == config.html.css_href@,
    {
        HtmlRenderer {
            math_memo: Vec::new(),
            config: dup_config(config),
            toc: Vec::new(),
            section_counters: Vec::new(),
            meta_description: None,
            meta_image: None,
        }
    }

    /// Renders a whole article: the header, then every block, resetting
    /// the table of contents, numbering and metadata first.
    pub fn render(&mut self, article: &Article) -> (r: String)
        ensures
            article.header matches Some(h) ==> spec_has_at(r@, spec_render_header(h), 0),
    {
        self.toc.clear();
        self.section_counters.clear();
        self.meta_description = None;
        self.meta_image = None;
        let mut html: Vec<char> = Vec::new();
        match &article.header {
            Option::Some(header) => {
                let h = self.render_header(header);
                append_str(&mut html, h.as_str());
            },
            Option::None => {},
        }
        let ghost head_part = html@;
        let mut i: usize = 0;
        while i < article.body.len()
            invariant
                i <= article.body@.len(),
                html@.len() >= head_part.len(),
                html@.subrange(0, head_part.len() as int) == head_part,
            decreases article.body@.len() - i,
        {
            let ghost pre = html@;
            let b = self.render_block(&article.body[i]);
            append_str(&mut html, b.as_str());
            i = i + 1;
            proof {
                assert(html@.subrange(0, head_part.len() as int) =~= pre.subrange(
                    0,
                    head_part.len() as int,
                ));
            }
        }
        chars_to_string(&html)
    }

    /// The rendered article header; see `spec_render_header`.
    pub fn render_header(&self, header: &ArticleHeader) -> (r: String)
        ensures
            r@ == spec_render_header(*header),
    {
        let mut out = str_to_chars("<header>\n<h1 id=\"top\">");
        let t = escape_html(header.title.as_str());
        append_str(&mut out, t.as_str());
        append_str(&mut out, "</h1>\n");
        match &header.date {
            Option::Some(date) => {
                append_str(&mut out, "<p class=\"date\">");
                let d = escape_html(date.as_str());
                append_str(&mut out, d.as_str());
                append_str(&mut out, "</p>\n");
            },
            Option::None => {},
        }
        append_str(&mut out, "</header>\n");
        proof {
            assert(out@ =~= spec_render_header(*header));
        }
        chars_to_string(&out)
    }

    /// The table of contents as nested ordered lists, or nothing when the
    /// article has no sections.
    pub fn table_of_contents_html(&self) -> (r: Option<String>)
        ensures
            r is Some <==> self.toc@.len() > 0,
            r matches Some(s) ==> spec_has_at(s@, "<div class=\"toc\">"@, 0),
    {
        if self.toc.len() == 0 {
            return Option::None;
        }
        let mut html = str_to_chars("<div class=\"toc\">");
        let ghost head_part = html@;
        let mut current_level: usize = 0;
        let mut i: usize = 0;
        while i < self.toc.len()
            invariant
                i <= self.toc@.len(),
                html@.len() >= head_part.len(),
                html@.subrange(0, head_part.len() as int) == head_part,
            decreases self.toc@.len() - i,
        {
            let level = self.toc[i].level;
            if level > current_level {
                let mut k: usize = current_level;
                while k < level
                    invariant
                        k <= level,
                        html@.len() >= head_part.len(),
                        html@.subrange(0, head_part.len() as int) == head_part,
                    decreases level - k,
                {
                    let ghost pre = html@;
                    append_str(&mut html, "<ol>");
                    k = k + 1;
                    proof {
                        assert(html@.subrange(0, head_part.len() as int) =~= pre.subrange(
                            0,
                            head_part.len() as int,
                        ));
                    }
                }
            } else {
                let ghost pre = html@;
                append_str(&mut html, "</li>");
                proof {
                    assert(html@.subrange(0, head_part.len() as int) =~= pre.subrange(
                        0,
                        head_part.len() as int,
                    ));
                }
                let mut k: usize = level;
                while k < current_level
                    invariant
                        k <= current_level,
                        html@.len() >= head_part.len(),
                        html@.subrange(0, head_part.len() as int) == head_part,
                    decreases current_level - k,
                {
                    let ghost pre2 = html@;
                    append_str(&mut html, "</ol></li>");
                    k = k + 1;
                    proof {
                        assert(html@.subrange(0, head_part.len() as int) =~= pre2.subrange(
                            0,
                            head_part.len() as int,
                        ));
                    }
                }
            }
            let ghost pre3 = html@;
            append_str(&mut html, "<li>");
            let link = toc_link(&self.toc[i]);
            append_str(&mut html, link.as_str());
            current_level = level;
            i = i + 1;
            proof {
                assert(html@.subrange(0, head_part.len() as int) =~= pre3.subrange(
                    0,
                    head_part.len() as int,
                ));
            }
        }
        let mut k: usize = 0;
        while k < current_level
            invariant
                k <= current_level,
                html@.len() >= head_part.len(),
                html@.subrange(0, head_part.len() as int) == head_part,
            decreases current_level - k,
        {
            let ghost pre = html@;
            append_str(&mut html, "</li></ol>");
            k = k + 1;
            proof {
                assert(html@.subrange(0, head_part.len() as int) =~= pre.subrange(
                    0,
                    head_part.len() as int,
                ));
            }
        }
        append_str(&mut html, "</div>");
        proof {
            assert(html@.subrange(0, head_part.len() as int) =~= head_part);
        }
        Option::Some(chars_to_string(&html))
    }

    /// The page metadata tags: the captured lead image and description,
    /// the title, the card style and the robots hint, joined with
    /// newline-and-indent.
    pub fn meta_tags(&self, title: &str) -> (r: String)
        ensures
            ({
                let sep = "\n  "@;
                let img_part = match self.meta_image {
                    Option::Some(img) => "<meta property=\"og:image\" content=\""@
                        + spec_escape_html(img@) + "\" />"@ + sep,
                    Option::None => Seq::<char>::empty(),
                };
                let desc_part = match self.meta_description {
                    Option::Some(d) => "<meta property=\"og:description\" content=\""@
                        + spec_escape_html(d@) + "\" />"@ + sep
                        + "<meta name=\"description\" content=\""@ + spec_escape_html(d@) + "\" />"@
                        + sep,
                    Option::None => Seq::<char>::empty(),
                };
                let card = if self.meta_image is Some {
                    "summary_large_image"@
                } else {
                    "summary"@
                };
                r@ == img_part + desc_part + "<meta property=\"og:title\" content=\""@
                    + spec_escape_html(title@) + "\" />"@ + sep
                    + "<meta name=\"twitter:card\" content=\""@ + card + "\">"@ + sep
                    + "<meta name=\"robots\" content=\"max-image-preview:large\">"@
            }),
    {
        let mut out: Vec<char> = Vec::new();
        match &self.meta_image {
            Option::Some(img) => {
                append_str(&mut out, "<meta property=\"og:image\" content=\"");
                let e = html_escape_attr(img.as_str());
                append_str(&mut out, e.as_str());
                append_str(&mut out, "\" />");
                append_str(&mut out, "\n  ");
            },
            Option::None => {},
        }
        match &self.meta_description {
            Option::Some(d) => {
                let e = html_escape_attr(d.as_str());
                append_str(&mut out, "<meta property=\"og:description\" content=\"");
                append_str(&mut out, e.as_str());
                append_str(&mut out, "\" />");
                append_str(&mut out, "\n  ");
                append_str(&mut out, "<meta name=\"description\" content=\"");
                append_str(&mut out, e.as_str());
                append_str(&mut out, "\" />");
                append_str(&mut out, "\n  ");
            },
            Option::None => {},
        }
        append_str(&mut out, "<meta property=\"og:title\" content=\"");
        let t = html_escape_attr(title);
        append_str(&mut out, t.as_str());
        append_str(&mut out, "\" />");
        append_str(&mut out, "\n  ");
        append_str(&mut out, "<meta name=\"twitter:card\" content=\"");
        if self.meta_image.is_some() {
            append_str(&mut out, "summary_large_image");
        } else {
            append_str(&mut out, "summary");
        }
        append_str(&mut out, "\">");
        append_str(&mut out, "\n  ");
        append_str(&mut out, "<meta name=\"robots\" content=\"max-image-preview:large\">");
        proof {
            let sep = "\n  "@;
            let img_part = match &self.meta_image {
                Option::Some(img) => "<meta property=\"og:image\" content=\""@ + spec_escape_html(
                    img@,
                ) + "\" />"@ + sep,
                Option::None => Seq::<char>::empty(),
            };
            let desc_part = match &self.meta_description {
                Option::Some(d) => "<meta property=\"og:description\" content=\""@
                    + spec_escape_html(d@) + "\" />"@ + sep + "<meta name=\"description\" content=\""@
                    + spec_escape_html(d@) + "\" />"@ + sep,
                Option::None => Seq::<char>::empty(),
            };
            let card = if self.meta_image is Some {
                "summary_large_image"@
            } else {
                "summary"@
            };
            assert(out@ =~= img_part + desc_part + "<meta property=\"og:title\" content=\""@
                + spec_escape_html(title@) + "\" />"@ + sep + "<meta name=\"twitter:card\" content=\""@
                + card + "\">"@ + sep + "<meta name=\"robots\" content=\"max-image-preview:large\">"@);
        }
        chars_to_string(&out)
    }

    /// Renders one block element.
    pub fn render_block(&mut self, block: &Block) -> (r: String) {
        match block {
            Block::Raw(content) => clone_string(content),
            Block::CodeBlock { language, code } => self.render_code_block(language, code),
            Block::SectionHeader { level, id, text } => self.render_section_header(
                *level,
                id,
                text,
            ),
            Block::BlockQuote(elements) => {
                let content = self.render_inlines(elements);
                let mut out = str_to_chars("<blockquote>");
                append_str(&mut out, content.as_str());
                append_str(&mut out, "</blockquote>\n");
                chars_to_string(&out)
            },
            Block::ImageFigure { url, id, id_number, alt, text } => self.render_image_figure(
                url,
                id,
                *id_number,
                alt,
                text,
            ),
            Block::DisplayMath { id, id_number, content } => self.render_display_math(
                id,
                *id_number,
                content,
            ),
            Block::UnorderedList(items) => self.render_unordered_list(items),
            Block::OrderedList(items) => self.render_ordered_list(items),
            Block::Paragraph(elements) => {
                self.capture_description(elements);
                self.render_paragraph(elements)
            },
            Block::Table { id_number, header, rows, caption } => self.render_table(
                *id_number,
                header,
                rows,
                caption,
            ),
            Block::BigButton { text, url } => {
                let inner = self.render_inlines(text);
                let href = self.escape_url(url.as_str());
                let mut out = str_to_chars("<p><a href=\"");
                append_str(&mut out, href.as_str());
                append_str(&mut out, "\" class=\"bigbutton\">");
                append_str(&mut out, inner.as_str());
                append_str(&mut out, "</a></p>\n");
                chars_to_string(&out)
            },
        }
    }

    /// Renders a code block as an escaped `<pre><code>` element; the
    /// language, when given, is recorded as a `language-` class.
    pub fn render_code_block(&self, language: &Option<String>, code: &str) -> (r: String) {
        let mut out = str_to_chars("<pre><code");
        match language {
            Option::Some(l) => {
                append_str(&mut out, " class=\"language-");
                let e = escape_html(l.as_str());
                append_str(&mut out, e.as_str());
                append_str(&mut out, "\"");
            },
            Option::None => {},
        }
        append_str(&mut out, ">");
        let ec = escape_html(code);
        append_str(&mut out, ec.as_str());
        append_str(&mut out, "</code></pre>\n");
        chars_to_string(&out)
    }

    /// Renders a section header, registering it in the table of contents.
    fn render_section_header(&mut self, level: usize, id: &String, text: &String) -> (r: String) {
        let level: usize = if level > 6 {
            6
        } else {
            level
        };
        let anchor_id = self.register_section(level, text);
        let mut out = str_to_chars("<h");
        let d = u64_to_chars(level as u64);
        append_chars(&mut out, &d);
        append_str(&mut out, " id=\"");
        let ei = escape_html(id.as_str());
        append_str(&mut out, ei.as_str());
        append_str(&mut out, "\"><span id=\"");
        let ea = escape_html(anchor_id.as_str());
        append_str(&mut out, ea.as_str());
        append_str(&mut out, "\">");
        let et = escape_html(text.as_str());
        append_str(&mut out, et.as_str());
        append_str(&mut out, "</span></h");
        append_chars(&mut out, &d);
        append_str(&mut out, ">\n");
        chars_to_string(&out)
    }

    /// Updates the hierarchical section counters for a header of the
    /// given level, records the entry in the table of contents, and
    /// returns its anchor identifier.
    fn register_section(&mut self, level: usize, text: &String) -> (r: String)
        ensures
            final(self).toc@.len() == old(self).toc@.len() + 1,
    {
        let level: usize = if level < 1 {
            1
        } else if level > 6 {
            6
        } else {
            level
        };
        while self.section_counters.len() < level
            invariant
                level <= 6,
                self.toc@.len() == old(self).toc@.len(),
            decreases level - self.section_counters@.len(),
        {
            self.section_counters.push(0);
        }
        let c0 = self.section_counters[level - 1];
        let c1: usize = if c0 < usize::MAX {
            c0 + 1
        } else {
            c0
        };
        self.section_counters.set(level - 1, c1);
        let mut j: usize = level;
        while j < self.section_counters.len()
            invariant
                j <= self.section_counters@.len() || j == level,
                self.toc@.len() == old(self).toc@.len(),
            decreases self.section_counters@.len() - j,
        {
            self.section_counters.set(j, 0);
            j = j + 1;
        }
        let mut label: Vec<char> = Vec::new();
        let mut k: usize = 0;
        while k < level && k < self.section_counters.len()
            invariant
                k <= level,
                self.toc@.len() == old(self).toc@.len(),
            decreases level - k,
        {
            if k > 0 {
                label.push('.');
            }
            let d = u64_to_chars(self.section_counters[k] as u64);
            append_chars(&mut label, &d);
            k = k + 1;
        }
        let numbering_label = chars_to_string(&label);
        let mut anchor: Vec<char> = Vec::new();
        anchor.push('s');
        append_chars(&mut anchor, &label);
        let anchor_id = chars_to_string(&anchor);
        self.toc.push(
            TocEntry {
                level,
                title: clone_string(text),
                numbering_label,
                anchor_id: clone_string(&anchor_id),
            },
        );
        anchor_id
    }

    /// Remembers the first nonempty paragraph text as the page
    /// description.
    fn capture_description(&mut self, elements: &Vec<InlineElement>)
        ensures
            final(self).config == old(self).config,
            final(self).toc == old(self).toc,
    {
        if self.meta_description.is_some() {
            return ;
        }
        let text = extract_text(elements);
        let t = trim_chars(&str_to_chars(text.as_str()));
        if t.len() > 0 {
            self.meta_description = Option::Some(chars_to_string(&t));
        }
    }

    /// Remembers the first figure URL as the page image.
    fn capture_image(&mut self, url: &str)
        ensures
            final(self).config == old(self).config,
            final(self).toc == old(self).toc,
    {
        if self.meta_image.is_some() {
            return ;
        }
        let t = trim_chars(&str_to_chars(url));
        if t.len() == 0 {
            return ;
        }
        let resolved = self.url_with_root(chars_to_string(&t).as_str());
        self.meta_image = Option::Some(resolved);
    }

    /// Renders an image figure: the escaped resolved URL as link and
    /// image source, the escaped alt text, and a caption numbered
    /// `FIGURE id_number + 1` anchored at the figure's identifier.
    pub fn render_image_figure(
        &mut self,
        url: &String,
        id: &Option<String>,
        id_number: usize,
        alt: &String,
        text: &Vec<InlineElement>,
    ) -> (r: String)
        ensures
            final(self).config == old(self).config,
            exists|caption: Seq<char>|
                r@ == spec_figure_html(
                    spec_root_view(old(self).config),
                    url@,
                    *id,
                    id_number,
                    alt@,
                    caption,
                ),
    {
        self.capture_image(url.as_str());
        let fig_id_num: usize = if id_number < usize::MAX {
            id_number + 1
        } else {
            id_number
        };
        let fig_id_attr: String = match id {
            Option::Some(s) => escape_html(s.as_str()),
            Option::None => {
                let mut f = str_to_chars("fig");
                let d = u64_to_chars(fig_id_num as u64);
                append_chars(&mut f, &d);
                chars_to_string(&f)
            },
        };
        let caption_html = self.render_inlines(text);
        let href = self.escape_url(url.as_str());
        let ealt = escape_html(alt.as_str());
        let mut out = str_to_chars("<figure id=\"");
        append_str(&mut out, fig_id_attr.as_str());
        append_str(&mut out, "\"><a href=\"");
        append_str(&mut out, href.as_str());
        append_str(&mut out, "\"><img src=\"");
        append_str(&mut out, href.as_str());
        append_str(&mut out, "\" alt=\"");
        append_str(&mut out, ealt.as_str());
        append_str(&mut out, "\"/></a><figcaption><a href=\"#");
        append_str(&mut out, fig_id_attr.as_str());
        append_str(&mut out, "\" class=\"fignum\">FIGURE ");
        let d = u64_to_chars(fig_id_num as u64);
        append_chars(&mut out, &d);
        append_str(&mut out, "</a> ");
        append_str(&mut out, caption_html.as_str());
        append_str(&mut out, "</figcaption></figure>\n");
        let out_s = chars_to_string(&out);
        proof {
            assert(out_s@ == spec_figure_html(
                spec_root_view(old(self).config),
                url@,
                *id,
                id_number,
                alt@,
                caption_html@,
            )) by {
                assert(out_s@ =~= spec_figure_html(
                    spec_root_view(old(self).config),
                    url@,
                    *id,
                    id_number,
                    alt@,
                    caption_html@,
                ));
            }
        }
        out_s
    }

    /// Renders a display math block with its numbered anchor.
    fn render_display_math(&mut self, id: &Option<String>, id_number: usize, content: &String) -> (r:
        String) {
        let eqnum: usize = if id_number < usize::MAX {
            id_number + 1
        } else {
            id_number
        };
        let eq_id_attr: String = match id {
            Option::Some(s) => escape_html(s.as_str()),
            Option::None => {
                let mut f = str_to_chars("eq");
                let d = u64_to_chars(eqnum as u64);
                append_chars(&mut f, &d);
                chars_to_string(&f)
            },
        };
        let html = self.render_math_html(content.as_str(), false);
        let mut out = str_to_chars("<div class=\"math\" id=\"");
        append_str(&mut out, eq_id_attr.as_str());
        append_str(&mut out, "\"><a href=\"#");
        append_str(&mut out, eq_id_attr.as_str());
        append_str(&mut out, "\" class=\"eqnum\">");
        let d = u64_to_chars(eqnum as u64);
        append_chars(&mut out, &d);
        append_str(&mut out, "</a> ");
        append_str(&mut out, html.as_str());
        append_str(&mut out, "</div>\n");
        chars_to_string(&out)
    }

    /// Renders an unordered list, nesting deeper levels inside the
    /// previous item.
    fn render_unordered_list(&mut self, items: &Vec<ListItem>) -> (r: String) {
        if items.len() == 0 {
            return String::new();
        }
        let mut out: Vec<char> = Vec::new();
        let mut prev_level: usize = 0;
        let mut first_flags: Vec<bool> = Vec::new();
        let mut i: usize = 0;
        while i < items.len()
            invariant
                i <= items@.len(),
            decreases items@.len() - i,
        {
            let lvl = items[i].level;
            if prev_level < lvl {
                while prev_level < lvl
                    invariant
                        prev_level <= lvl,
                    decreases lvl - prev_level,
                {
                    append_str(&mut out, "<ul>");
                    prev_level = prev_level + 1;
                    first_flags.push(true);
                }
            } else {
                while prev_level > lvl
                    invariant
                        prev_level >= lvl,
                    decreases prev_level - lvl,
                {
                    append_str(&mut out, "</li></ul>");
                    prev_level = prev_level - 1;
                    let _popped = first_flags.pop();
                }
            }
            if first_flags.len() > 0 {
                if !first_flags[first_flags.len() - 1] {
                    append_str(&mut out, "</li>");
                }
            }
            let content = self.render_inlines(&items[i].text);
            append_str(&mut out, "<li>");
            append_str(&mut out, content.as_str());
            if first_flags.len() > 0 {
                let last = first_flags.len() - 1;
                first_flags.set(last, false);
            }
            i = i + 1;
        }
        if first_flags.len() > 0 {
            append_str(&mut out, "</li>");
        }
        while prev_level > 0
            invariant
                true,
            decreases prev_level,
        {
            append_str(&mut out, "</ul>");
            prev_level = prev_level - 1;
        }
        out.push('\n');
        chars_to_string(&out)
    }

    /// Renders an ordered list as a flat `<ol>`.
    fn render_ordered_list(&mut self, items: &Vec<ListItem>) -> (r: String) {
        let mut out = str_to_chars("<ol>");
        let mut i: usize = 0;
        while i < items.len()
            invariant
                i <= items@.len(),
            decreases items@.len() - i,
        {
            append_str(&mut out, "<li>");
            let content = self.render_inlines(&items[i].text);
            append_str(&mut out, content.as_str());
            append_str(&mut out, "</li>");
            i = i + 1;
        }
        append_str(&mut out, "</ol>\n");
        chars_to_string(&out)
    }

    /// Renders a paragraph: the rendered inline run in a `<p>` element,
    /// with every link's opening anchor tag in the output.
    pub fn render_paragraph(&mut self, elements: &Vec<InlineElement>) -> (r: String)
        ensures
            final(self).config == old(self).config,
            final(self).toc == old(self).toc,
            exists|inner: Seq<char>| r@ == "<p>"@ + inner + "</p>\n"@,
            spec_links_resolved(spec_root_view(old(self).config), elements@, r@),
    {
        let content = self.render_inlines(elements);
        let mut out = str_to_chars("<p>");
        append_str(&mut out, content.as_str());
        append_str(&mut out, "</p>\n");
        proof {
            assert(out@ == "<p>"@ + content@ + "</p>\n"@) by {
                assert(out@ =~= "<p>"@ + content@ + "</p>\n"@);
            }
            let root = spec_root_view(old(self).config);
            assert forall|k: int|
                0 <= k < elements@.len() implies match #[trigger] elements@[k] {
                InlineElement::Link { url, .. } => crate::strutil::spec_contains_str(
                    out@,
                    spec_link_open_tag(root, url@),
                ),
                _ => true,
            } by {
                match elements@[k] {
                    InlineElement::Link { url, .. } => {
                        let tag = spec_link_open_tag(root, url@);
                        crate::strutil::lemma_contains_append_left("<p>"@, content@, tag);
                        crate::strutil::lemma_contains_append_right(
                            "<p>"@ + content@,
                            "</p>\n"@,
                            tag,
                        );
                    },
                    _ => {},
                }
            }
        }
        chars_to_string(&out)
    }

    /// Renders a run of inline elements, inserting a space where a tag
    /// boundary would otherwise glue a word to the previous fragment.
    /// Every link's opening anchor tag, resolved against the site root,
    /// appears in the output.
    pub fn render_inlines(&mut self, elements: &Vec<InlineElement>) -> (r: String)
        ensures
            final(self).config == old(self).config,
            final(self).toc == old(self).toc,
            spec_links_resolved(spec_root_view(old(self).config), elements@, r@),
        decreases elements,
    {
        let ghost root = spec_root_view(self.config);
        let mut out: Vec<char> = Vec::new();
        let mut i: usize = 0;
        while i < elements.len()
            invariant
                i <= elements@.len(),
                self.config == old(self).config,
                self.toc == old(self).toc,
                root == spec_root_view(self.config),
                spec_links_resolved(root, elements@.subrange(0, i as int), out@),
            decreases elements@.len() - i,
        {
            let frag = self.render_inline(&elements[i]);
            let cur = chars_to_string(&out);
            let ghost pre = out@;
            if needs_space_between(cur.as_str(), frag.as_str()) {
                out.push(' ');
            }
            let ghost mid = out@;
            append_str(&mut out, frag.as_str());
            i = i + 1;
            proof {
                assert(mid == pre || mid == pre.push(' '));
                assert forall|k: int|
                    0 <= k < i implies match #[trigger] elements@.subrange(0, i as int)[k] {
                    InlineElement::Link { url, .. } => crate::strutil::spec_contains_str(
                        out@,
                        spec_link_open_tag(root, url@),
                    ),
                    _ => true,
                } by {
                    assert(elements@.subrange(0, i as int)[k] == elements@[k]);
                    match elements@[k] {
                        InlineElement::Link { url, .. } => {
                            let tag = spec_link_open_tag(root, url@);
                            if k < i - 1 {
                                assert(elements@.subrange(0, i - 1)[k] == elements@[k]);
                                assert(crate::strutil::spec_contains_str(pre, tag));
                                if mid == pre.push(' ') {
                                    assert(mid =~= pre + seq![' ']);
                                    crate::strutil::lemma_contains_append_right(
                                        pre,
                                        seq![' '],
                                        tag,
                                    );
                                }
                                crate::strutil::lemma_contains_append_right(mid, frag@, tag);
                            } else {
                                crate::strutil::lemma_contains_append_left(mid, frag@, tag);
                            }
                        },
                        _ => {},
                    }
                }
            }
        }
        proof {
            assert(elements@.subrange(0, elements@.len() as int) =~= elements@);
        }
        chars_to_string(&out)
    }

    /// Renders one inline element. A link's output starts with its
    /// opening anchor tag, resolved against the site root.
    fn render_inline(&mut self, element: &InlineElement) -> (r: String)
        ensures
            final(self).config == old(self).config,
            final(self).toc == old(self).toc,
            match element {
                InlineElement::Link { url, .. } => crate::strutil::spec_contains_str(
                    r@,
                    spec_link_open_tag(spec_root_view(old(self).config), url@),
                ),
                _ => true,
            },
        decreases element,
    {
        match element {
            InlineElement::Text(text) => typographer(text.as_str()),
            InlineElement::Code(code) => {
                let mut out = str_to_chars("<code>");
                let e = escape_html(code.as_str());
                append_str(&mut out, e.as_str());
                append_str(&mut out, "</code>");
                chars_to_string(&out)
            },
            InlineElement::InlineMath(math) => self.render_math_html(math.as_str(), true),
            InlineElement::Link { text, url } => {
                let inner = self.render_inlines(text);
                let href = self.escape_url(url.as_str());
                let mut out = str_to_chars("<a href=\"");
                append_str(&mut out, href.as_str());
                append_str(&mut out, "\">");
                let ghost tag = out@;
                append_str(&mut out, inner.as_str());
                append_str(&mut out, "</a>");
                proof {
                    assert(tag =~= spec_link_open_tag(
                        spec_root_view(old(self).config),
                        url@,
                    ));
                    assert(out@.subrange(0, tag.len() as int) =~= tag);
                    crate::strutil::lemma_prefix_contains(out@, tag);
                }
                chars_to_string(&out)
            },
            InlineElement::Emphasis(content) => {
                let inner = self.render_inlines(content);
                let mut out = str_to_chars("<em>");
                append_str(&mut out, inner.as_str());
                append_str(&mut out, "</em>");
                chars_to_string(&out)
            },
            InlineElement::Strong(content) => {
                let inner = self.render_inlines(content);
                let mut out = str_to_chars("<strong>");
                append_str(&mut out, inner.as_str());
                append_str(&mut out, "</strong>");
                chars_to_string(&out)
            },
            InlineElement::Reference(content) => {
                let esc = escape_html(content.as_str());
                let mut out = str_to_chars("<a class=\"refname\" href=\"#");
                append_str(&mut out, esc.as_str());
                append_str(&mut out, "\">");
                append_str(&mut out, esc.as_str());
                append_str(&mut out, "</a>");
                chars_to_string(&out)
            },
            InlineElement::ReferenceAnchor { content, invisible } => {
                if *invisible {
                    String::new()
                } else {
                    let esc = escape_html(content.as_str());
                    let mut out = str_to_chars("<span class=\"refname\" id=\"");
                    append_str(&mut out, esc.as_str());
                    append_str(&mut out, "\">");
                    append_str(&mut out, esc.as_str());
                    append_str(&mut out, "</span>");
                    chars_to_string(&out)
                }
            },
        }
    }

    /// The input handed to a math engine for a piece of math: display
    /// math is wrapped in an `aligned` environment unless it already
    /// carries an alignment environment.
    pub fn math_engine_input(latex: &str, inline: bool) -> (r: String) {
        if inline {
            return latex.to_owned();
        }
        let v = str_to_chars(latex);
        let has_align = contains_str(&v, "\\begin{align") || contains_str(&v, "\\begin{aligned}");
        if has_align {
            latex.to_owned()
        } else {
            let mut out = str_to_chars("\\begin{aligned}");
            append_str(&mut out, latex);
            append_str(&mut out, "\\end{aligned}");
            chars_to_string(&out)
        }
    }

    /// Records an engine-rendered result for a piece of math, so that
    /// rendering finds it instead of falling back.
    pub fn seed_math(&mut self, inline: bool, latex: &str, html: String) {
        let wrapped = Self::math_engine_input(latex, inline);
        self.math_memo.push((inline, wrapped, html));
    }

    /// Renders math: a memoized engine result when one was seeded, else
    /// the escaped source in a marked span (inline) or block (display);
    /// rendered display fallbacks are memoized.
    pub fn render_math_html(&mut self, latex: &str, inline: bool) -> (r: String)
        ensures
            final(self).config == old(self).config,
            final(self).toc == old(self).toc,
    {
        let wrapped = Self::math_engine_input(latex, inline);
        let mut k: usize = 0;
        while k < self.math_memo.len()
            invariant
                k <= self.math_memo@.len(),
            decreases self.math_memo@.len() - k,
        {
            if self.math_memo[k].0 == inline && self.math_memo[k].1.eq(&wrapped) {
                return clone_string(&self.math_memo[k].2);
            }
            k = k + 1;
        }
        if inline {
            let mut out = str_to_chars("<span class=\"math-inline\">");
            let e = escape_html(latex);
            append_str(&mut out, e.as_str());
            append_str(&mut out, "</span>");
            chars_to_string(&out)
        } else {
            let mut out = str_to_chars("<div class=\"math-display\">");
            let e = escape_html(latex);
            append_str(&mut out, e.as_str());
            append_str(&mut out, "</div>");
            let s = chars_to_string(&out);
            self.math_memo.push((inline, wrapped, clone_string(&s)));
            s
        }
    }

    /// Escapes a URL for an attribute position, with the site root
    /// applied.
    pub fn escape_url(&self, url: &str) -> (r: String)
        ensures
            r@ == spec_escape_html(
                spec_url_with_root(
                    match self.config.root_url {
                        Option::Some(p) => Option::Some(p@),
                        Option::None => Option::None,
                    },
                    url@,
                ),
            ),
    {
        let resolved = self.url_with_root(url);
        escape_html(resolved.as_str())
    }

    /// The URL with the site root applied; see `spec_url_with_root`.
    pub fn url_with_root(&self, url: &str) -> (r: String)
        ensures
            r@ == spec_url_with_root(
                match self.config.root_url {
                    Option::Some(p) => Option::Some(p@),
                    Option::None => Option::None,
                },
                url@,
            ),
    {
        let v = str_to_chars(url);
        match &self.config.root_url {
            Option::Some(root) => {
                if v.len() >= 1 && v[0] == '/' && !(v.len() >= 2 && v[1] == '/') {
                    let rv = str_to_chars(root.as_str());
                    let root_is_slash = rv.len() == 1 && rv[0] == '/';
                    proof {
                        reveal_strlit("/");
                        if root_is_slash {
                            assert(rv@ =~= "/"@);
                        } else {
                            assert(rv@ != "/"@);
                        }
                    }
                    if root_is_slash {
                        url.to_owned()
                    } else {
                        let mut out = subvec(&rv, 0, rv.len());
                        proof {
                            assert(rv@.subrange(0, rv@.len() as int) =~= rv@);
                        }
                        append_str(&mut out, url);
                        chars_to_string(&out)
                    }
                } else {
                    url.to_owned()
                }
            },
            Option::None => url.to_owned(),
        }
    }

    /// Renders a table with its numbered caption.
    fn render_table(
        &mut self,
        id_number: usize,
        header: &Vec<Vec<InlineElement>>,
        rows: &Vec<Vec<Vec<InlineElement>>>,
        caption: &Vec<InlineElement>,
    ) -> (r: String) {
        let num: usize = if id_number < usize::MAX {
            id_number + 1
        } else {
            id_number
        };
        let mut table_id = str_to_chars("table");
        let d = u64_to_chars(num as u64);
        append_chars(&mut table_id, &d);
        let mut out = str_to_chars("<figure id=\"");
        append_chars(&mut out, &table_id);
        append_str(&mut out, "\"><table>");
        append_str(&mut out, "<tr>");
        let mut hi: usize = 0;
        while hi < header.len()
            invariant
                hi <= header@.len(),
            decreases header@.len() - hi,
        {
            append_str(&mut out, "<th>");
            let cell = self.render_inlines(&header[hi]);
            append_str(&mut out, cell.as_str());
            append_str(&mut out, "</th>");
            hi = hi + 1;
        }
        append_str(&mut out, "</tr>");
        let mut ri: usize = 0;
        while ri < rows.len()
            invariant
                ri <= rows@.len(),
            decreases rows@.len() - ri,
        {
            append_str(&mut out, "<tr>");
            let mut ci: usize = 0;
            while ci < rows[ri].len()
                invariant
                    ri < rows@.len(),
                    ci <= rows@[ri as int]@.len(),
                decreases rows@[ri as int]@.len() - ci,
            {
                append_str(&mut out, "<td>");
                let cell = self.render_inlines(&rows[ri][ci]);
                append_str(&mut out, cell.as_str());
                append_str(&mut out, "</td>");
                ci = ci + 1;
            }
            append_str(&mut out, "</tr>");
            ri = ri + 1;
        }
        append_str(&mut out, "</table>");
        let caption_html = self.render_inlines(caption);
        append_str(&mut out, "<figcaption><a href=\"#");
        append_chars(&mut out, &table_id);
        append_str(&mut out, "\" class=\"fignum\">Table ");
        append_chars(&mut out, &d);
        append_str(&mut out, "</a> ");
        append_str(&mut out, caption_html.as_str());
        append_str(&mut out, "</figcaption>");
        append_str(&mut out, "</figure>\n");
        chars_to_string(&out)
    }
}

/// The table-of-contents link for one entry: anchor, numbering label and
/// title, each escaped.
pub fn toc_link(entry: &TocEntry) -> (r: String)
    ensures
        r@ == "<a href=\""@ + spec_escape_html("#"@ + entry.anchor_id@)
            + "\"><span class=\"tocnum\">"@ + spec_escape_html(entry.numbering_label@)
            + "</span> <span>"@ + spec_escape_html(entry.title@) + "</span></a>"@,
{
    let mut href = str_to_chars("#");
    append_str(&mut href, entry.anchor_id.as_str());
    let ehref = escape_chars(&href);
    let mut out = str_to_chars("<a href=\"");
    append_chars(&mut out, &ehref);
    append_str(&mut out, "\"><span class=\"tocnum\">");
    let el = html_escape_attr(entry.numbering_label.as_str());
    append_str(&mut out, el.as_str());
    append_str(&mut out, "</span> <span>");
    let et = escape_html(entry.title.as_str());
    append_str(&mut out, et.as_str());
    append_str(&mut out, "</span></a>");
    proof {
        assert(out@ =~= "<a href=\""@ + spec_escape_html("#"@ + entry.anchor_id@)
            + "\"><span class=\"tocnum\">"@ + spec_escape_html(entry.numbering_label@)
            + "</span> <span>"@ + spec_escape_html(entry.title@) + "</span></a>"@);
    }
    chars_to_string(&out)
}

/// The plain text of a run of inline elements, for the page description.
pub fn extract_text(elements: &Vec<InlineElement>) -> (r: String)
    decreases elements,
{
    let mut out: Vec<char> = Vec::new();
    let mut i: usize = 0;
    while i < elements.len()
        invariant
            i <= elements@.len(),
        decreases elements@.len() - i,
    {
        match &elements[i] {
            InlineElement::Text(t) => append_str(&mut out, t.as_str()),
            InlineElement::Code(c) => append_str(&mut out, c.as_str()),
            InlineElement::InlineMath(m) => append_str(&mut out, m.as_str()),
            InlineElement::Link { text, .. } => {
                let inner = extract_text(text);
                append_str(&mut out, inner.as_str());
            },
            InlineElement::Emphasis(inner) => {
                let t = extract_text(inner);
                append_str(&mut out, t.as_str());
            },
            InlineElement::Strong(inner) => {
                let t = extract_text(inner);
                append_str(&mut out, t.as_str());
            },
            InlineElement::Reference(s) => append_str(&mut out, s.as_str()),
            InlineElement::ReferenceAnchor { content, .. } => append_str(
                &mut out,
                content.as_str(),
            ),
        }
        i = i + 1;
    }
    chars_to_string(&out)
}

/// Fills an HTML page template: the placeholders for the title, the
/// stylesheet, the table of contents, the metadata tags and the body are
/// replaced in turn.
pub fn fill_html_template(
    template: &str,
    title: &str,
    css_href: &str,
    table_of_contents: &str,
    metas: &str,
    body: &str,
) -> (r: String)
    ensures
        ({
            let a = spec_replace(template@, "{{title}}"@, spec_escape_html(title@));
            let b = spec_replace(a, "{{css}}"@, spec_escape_html(css_href@));
            let c = spec_replace(b, "{{tableofcontents}}"@, table_of_contents@);
            let d = spec_replace(c, "{{metas}}"@, metas@);
            r@ == spec_replace(d, "{{body}}"@, body@)
        }),
{
    proof {
        reveal_strlit("{{title}}");
        reveal_strlit("{{css}}");
        reveal_strlit("{{tableofcontents}}");
        reveal_strlit("{{metas}}");
        reveal_strlit("{{body}}");
    }
    let tv = str_to_chars(template);
    let et = html_escape_attr(title);
    let a = replace_chars(&tv, "{{title}}", et.as_str());
    let ec = html_escape_attr(css_href);
    let b = replace_chars(&a, "{{css}}", ec.as_str());
    let c = replace_chars(&b, "{{tableofcontents}}", table_of_contents);
    let d = replace_chars(&c, "{{metas}}", metas);
    let e = replace_chars(&d, "{{body}}", body);
    chars_to_string(&e)
}

} // verus!

//! The markup parser: turns an article source into the abstract document
//! tree. An article is an optional header, separated from the body by a
//! `===` line, followed by block elements: section headers, code and raw
//! blocks, block quotes, figures, display math, tables, buttons, lists and
//! paragraphs, whose text carries inline markup.

use vstd::prelude::*;

use crate::ast::{Article, ArticleHeader, Block, InlineElement, ListItem};
use crate::strutil::{
    char_is_alphanumeric, chars_to_string, find_str, is_space, spec_contains_str, str_to_chars,
    str_to_lowercase, subvec, trim_chars, u64_to_chars,
};

verus! {

/// The markup parser. `parse` fills `article`; the index lists remember
/// which body blocks are figures, display equations and tables so that
/// later ones get increasing numbers.
#[derive(Debug)]
pub struct Parser {
    pub article: Article,
    pub image_figures: Vec<usize>,
    pub display_equations: Vec<usize>,
    pub tables: Vec<usize>,
    pub section_id_counts: Vec<(String, usize)>,
}

impl Default for Parser {
    /// A parser with an empty article.
    fn default() -> (r: Self)
        ensures
            r.article.header is None,
            r.article.body@.len() == 0,
    {
        Parser {
            article: Article::default(),
            image_figures: Vec::new(),
            display_equations: Vec::new(),
            tables: Vec::new(),
            section_id_counts: Vec::new(),
        }
    }
}

/// Splits text into lines the way `str::lines` does: on `\n`, dropping a
/// trailing `\r` from each line, with no final empty line after a
/// trailing newline.
fn split_lines(v: &Vec<char>) -> (r: Vec<Vec<char>>) {
    let mut r: Vec<Vec<char>> = Vec::new();
    let mut i: usize = 0;
    while i < v.len()
        invariant
            i <= v.len(),
        decreases v.len() - i,
    {
        let mut j: usize = i;
        while j < v.len() && v[j] != '\n'
            invariant
                i <= j <= v.len(),
            decreases v.len() - j,
        {
            j = j + 1;
        }
        let end: usize = if j > i && v[j - 1] == '\r' {
            j - 1
        } else {
            j
        };
        r.push(subvec(v, i, end));
        i = if j < v.len() {
            j + 1
        } else {
            v.len()
        };
    }
    r
}

/// Whether the trimmed line starts an unordered list item: one to six
/// asterisks followed by a space.
fn is_unordered_list_item(s: &Vec<char>) -> (r: bool)
    ensures
        r == (crate::strutil::spec_has_at(s@, "* "@, 0) || crate::strutil::spec_has_at(
            s@,
            "** "@,
            0,
        ) || crate::strutil::spec_has_at(s@, "*** "@, 0) || crate::strutil::spec_has_at(
            s@,
            "**** "@,
            0,
        ) || crate::strutil::spec_has_at(s@, "***** "@, 0) || crate::strutil::spec_has_at(
            s@,
            "****** "@,
            0,
        )),
{
    crate::strutil::starts_with_str(s, "* ") || crate::strutil::starts_with_str(s, "** ")
        || crate::strutil::starts_with_str(s, "*** ") || crate::strutil::starts_with_str(
        s,
        "**** ",
    ) || crate::strutil::starts_with_str(s, "***** ") || crate::strutil::starts_with_str(
        s,
        "****** ",
    )
}

/// Whether the trimmed line starts an ordered list item: one or more
/// decimal digits, a dot and a space.
fn is_ordered_list_item(s: &Vec<char>) -> (r: bool)
    ensures
        r == exists|n: int|
            1 <= n && n + 2 <= s@.len() && (forall|j: int|
                0 <= j < n ==> crate::strutil::is_dec_digit(#[trigger] s@[j])) && !(
            crate::strutil::is_dec_digit(s@[n])) && s@[n] == '.' && s@[n + 1] == ' ',
{
    let mut i: usize = 0;
    while i < s.len() && '0' <= s[i] && s[i] <= '9'
        invariant
            i <= s.len(),
            forall|j: int| 0 <= j < i ==> crate::strutil::is_dec_digit(#[trigger] s@[j]),
        decreases s.len() - i,
    {
        i = i + 1;
    }
    let hit = i > 0 && i < s.len() && s[i] == '.' && i + 1 < s.len() && s[i + 1] == ' ';
    proof {
        if hit {
            assert(1 <= i as int && i as int + 2 <= s@.len() && (forall|j: int|
                0 <= j < i as int ==> crate::strutil::is_dec_digit(#[trigger] s@[j])) && !(
            crate::strutil::is_dec_digit(s@[i as int])) && s@[i as int] == '.' && s@[i as int + 1]
                == ' ');
        } else {
            if exists|n: int|
                1 <= n && n + 2 <= s@.len() && (forall|j: int|
                    0 <= j < n ==> crate::strutil::is_dec_digit(#[trigger] s@[j])) && !(
                crate::strutil::is_dec_digit(s@[n])) && s@[n] == '.' && s@[n + 1] == ' ' {
                let n = choose|n: int|
                    1 <= n && n + 2 <= s@.len() && (forall|j: int|
                        0 <= j < n ==> crate::strutil::is_dec_digit(#[trigger] s@[j])) && !(
                    crate::strutil::is_dec_digit(s@[n])) && s@[n] == '.' && s@[n + 1] == ' ';
                assert(n == i) by {
                    if n < i {
                        assert(crate::strutil::is_dec_digit(s@[n]));
                    } else if n > i {
                        assert(i < s@.len() ==> !crate::strutil::is_dec_digit(s@[i as int]));
                        assert(crate::strutil::is_dec_digit(s@[i as int]));
                    }
                }
            }
        }
    }
    hit
}

/// Whether a table row is a separator: empty after trimming, or made
/// only of pipes, dashes, spaces and tabs.
fn is_table_separator_row(row: &Vec<char>) -> (r: bool)
    ensures
        r == (crate::strutil::spec_trim(row@).len() == 0 || forall|j: int|
            0 <= j < crate::strutil::spec_trim(row@).len() ==> {
                let c = #[trigger] crate::strutil::spec_trim(row@)[j];
                c == '|' || c == '-' || c == ' ' || c == '\t'
            }),
{
    let t = trim_chars(row);
    if t.len() == 0 {
        return true;
    }
    let mut i: usize = 0;
    while i < t.len()
        invariant
            t@ == crate::strutil::spec_trim(row@),
            i <= t.len(),
            forall|j: int|
                0 <= j < i ==> {
                    let c = #[trigger] t@[j];
                    c == '|' || c == '-' || c == ' ' || c == '\t'
                },
        decreases t.len() - i,
    {
        let c = t[i];
        if !(c == '|' || c == '-' || c == ' ' || c == '\t') {
            return false;
        }
        i = i + 1;
    }
    true
}

/// Whether `c` may appear in a reference name: a Unicode letter or
/// number, a dash or an underscore.
fn is_valid_refname_char(c: char) -> (r: bool)
    ensures
        r == (crate::strutil::is_alnum_char(c) || c == '-' || c == '_'),
{
    char_is_alphanumeric(c) || c == '-' || c == '_'
}

/// Whether a nonempty name consists only of reference-name characters.
fn is_valid_refname(s: &Vec<char>) -> (r: bool)
    ensures
        r == (s@.len() > 0 && forall|i: int|
            0 <= i < s@.len() ==> (crate::strutil::is_alnum_char(s@[i]) || s@[i] == '-' || s@[i]
                == '_')),
{
    if s.len() == 0 {
        return false;
    }
    let mut i: usize = 0;
    while i < s.len()
        invariant
            i <= s.len(),
            forall|j: int|
                0 <= j < i ==> (crate::strutil::is_alnum_char(s@[j]) || s@[j] == '-' || s@[j]
                    == '_'),
        decreases s.len() - i,
    {
        if !is_valid_refname_char(s[i]) {
            return false;
        }
        i = i + 1;
    }
    true
}

/// The end of the piece starting at `i`: the first pipe at or after it.
pub open spec fn spec_pipe_end(s: Seq<char>, i: int) -> int
    decreases s.len() - i,
{
    if i < 0 || i >= s.len() || s[i] == '|' {
        i
    } else {
        spec_pipe_end(s, i + 1)
    }
}

proof fn lemma_pipe_end_bounds(s: Seq<char>, i: int)
    requires
        0 <= i <= s.len(),
    ensures
        i <= spec_pipe_end(s, i) <= s.len(),
    decreases s.len() - i,
{
    if i < s.len() && s[i] != '|' {
        lemma_pipe_end_bounds(s, i + 1);
    }
}

proof fn lemma_pipe_end_unique(s: Seq<char>, start: int, i: int)
    requires
        0 <= start <= i <= s.len(),
        forall|j: int| start <= j < i ==> s[j] != '|',
        i < s.len() ==> s[i] == '|',
    ensures
        spec_pipe_end(s, start) == i,
    decreases i - start,
{
    if start < i {
        lemma_pipe_end_unique(s, start + 1, i);
    }
}

/// The cells of a table row: the pieces between pipes whose trimmed text
/// is nonempty, kept untrimmed, in order.
pub open spec fn spec_row_cells_from(s: Seq<char>, i: int) -> Seq<Seq<char>>
    decreases s.len() + 1 - i,
    via spec_row_cells_from_decreases
{
    if i < 0 || i > s.len() {
        Seq::empty()
    } else {
        let j = spec_pipe_end(s, i);
        let piece = s.subrange(i, j);
        let head: Seq<Seq<char>> = if crate::strutil::spec_trim(piece).len() > 0 {
            seq![piece]
        } else {
            Seq::empty()
        };
        if j < s.len() {
            head + spec_row_cells_from(s, j + 1)
        } else {
            head
        }
    }
}

#[via_fn]
proof fn spec_row_cells_from_decreases(s: Seq<char>, i: int) {
    if 0 <= i <= s.len() {
        lemma_pipe_end_bounds(s, i);
    }
}

/// The cells of a table row.
pub open spec fn spec_row_cells(s: Seq<char>) -> Seq<Seq<char>> {
    spec_row_cells_from(s, 0)
}

/// Splits a table row into its nonempty cells at `|`; see
/// `spec_row_cells`.
fn parse_table_row_cells(row: &Vec<char>) -> (r: Vec<Vec<char>>)
    ensures
        r@.map_values(|x: Vec<char>| x@) == spec_row_cells(row@),
{
    let mut cells: Vec<Vec<char>> = Vec::new();
    let mut i: usize = 0;
    loop
        invariant
            i <= row.len(),
            spec_row_cells(row@) == cells@.map_values(|x: Vec<char>| x@) + spec_row_cells_from(
                row@,
                i as int,
            ),
        decreases row.len() - i,
    {
        let ghost pre = cells@.map_values(|x: Vec<char>| x@);
        let mut j: usize = i;
        while j < row.len() && row[j] != '|'
            invariant
                i <= j <= row.len(),
                forall|k: int| i <= k < j ==> row@[k] != '|',
            decreases row.len() - j,
        {
            j = j + 1;
        }
        proof {
            lemma_pipe_end_unique(row@, i as int, j as int);
        }
        let piece = subvec(row, i, j);
        let t = trim_chars(&piece);
        if t.len() > 0 {
            cells.push(piece);
            proof {
                assert(cells@.map_values(|x: Vec<char>| x@) =~= pre.push(
                    row@.subrange(i as int, j as int),
                ));
            }
        }
        if j >= row.len() {
            proof {
                assert(spec_row_cells(row@) =~= cells@.map_values(|x: Vec<char>| x@));
            }
            return cells;
        }
        i = j + 1;
    }
}

impl Parser {
    /// Parses an article source. The header is present exactly when the
    /// source contains a `\n===\n` separator; the part before it becomes
    /// the header and the part after it the body.
    pub fn parse(&mut self, s: &str)
        ensures
            final(self).article.header is Some <==> spec_contains_str(s@, "\n===\n"@),
    {
        let v = str_to_chars(s);
        let vl = v.len();
        let seplen = "\n===\n".unicode_len();
        match find_str(&v, "\n===\n") {
            Option::Some(k) => {
                proof {
                    assert(k + seplen <= v@.len());
                }
                let head = subvec(&v, 0, k);
                let body = subvec(&v, k + seplen, vl);
                let header = self.parse_header(&head);
                let blocks = self.parse_body(&body);
                self.article.header = Option::Some(header);
                self.article.body = blocks;
                proof {
                    assert(spec_contains_str(s@, "\n===\n"@)) by {
                        assert(crate::strutil::spec_has_at(s@, "\n===\n"@, k as int));
                    }
                }
            },
            Option::None => {
                let blocks = self.parse_body(&v);
                self.article.header = Option::None;
                self.article.body = blocks;
            },
        }
    }

    /// Parses the header part: the first nonblank line is the title, the
    /// second the date.
    fn parse_header(&self, v: &Vec<char>) -> (r: ArticleHeader) {
        let lines = split_lines(v);
        let mut title: Option<String> = Option::None;
        let mut date: Option<String> = Option::None;
        let mut i: usize = 0;
        while i < lines.len()
            invariant
                i <= lines.len(),
            decreases lines.len() - i,
        {
            let t = trim_chars(&lines[i]);
            if t.len() > 0 {
                if title.is_none() {
                    title = Option::Some(chars_to_string(&lines[i]));
                } else if date.is_none() {
                    date = Option::Some(chars_to_string(&lines[i]));
                }
            }
            i = i + 1;
        }
        let title_s = match title {
            Option::Some(t) => t,
            Option::None => String::new(),
        };
        ArticleHeader { title: title_s, date }
    }

    /// Parses the body into blocks, recording which blocks are figures,
    /// display equations and tables.
    fn parse_body(&mut self, v: &Vec<char>) -> (r: Vec<Block>) {
        let lines = split_lines(v);
        let mut blocks: Vec<Block> = Vec::new();
        let mut idx: usize = 0;
        while idx < lines.len()
            invariant
                idx <= lines.len(),
            decreases lines.len() - idx,
        {
            match self.parse_block(&lines, &mut idx) {
                Option::Some(block) => {
                    let ind = blocks.len();
                    match &block {
                        Block::ImageFigure { .. } => {
                            self.image_figures.push(ind);
                        },
                        Block::DisplayMath { .. } => {
                            self.display_equations.push(ind);
                        },
                        Block::Table { .. } => {
                            self.tables.push(ind);
                        },
                        _ => {},
                    }
                    blocks.push(block);
                },
                Option::None => {},
            }
        }
        blocks
    }

    /// Parses one block starting at `*idx`, skipping blank lines first.
    /// Returns `None` only when the lines are exhausted.
    fn parse_block(&mut self, lines: &Vec<Vec<char>>, idx: &mut usize) -> (r: Option<Block>)
        requires
            *old(idx) <= lines@.len(),
        ensures
            *old(idx) <= *final(idx) <= lines@.len(),
            r is Some ==> *final(idx) > *old(idx),
            r is None ==> *final(idx) == lines@.len(),
    {
        while *idx < lines.len()
            invariant
                *old(idx) <= *idx <= lines@.len(),
            decreases lines@.len() - *idx,
        {
            let trimmed = trim_chars(&lines[*idx]);
            if trimmed.len() == 0 {
                *idx = *idx + 1;
                continue ;
            }
            if crate::strutil::eq_str(&trimmed, "???") {
                return Option::Some(Self::parse_raw_block(lines, idx));
            } else if crate::strutil::eq_str(&trimmed, "~~~~") {
                return Option::Some(Self::parse_code_block_nohighlight(lines, idx));
            } else if crate::strutil::eq_str(&trimmed, "~~~") {
                return Option::Some(Self::parse_code_block(lines, idx));
            } else if trimmed[0] == '#' {
                return Option::Some(self.parse_section_header(lines, idx));
            } else if crate::strutil::starts_with_str(&trimmed, "> ") {
                return Option::Some(self.parse_blockquote(lines, idx));
            } else if crate::strutil::starts_with_str(&trimmed, "pic ") {
                return Option::Some(self.parse_image_figure(lines, idx));
            } else if crate::strutil::starts_with_str(&trimmed, "$ ") {
                return Option::Some(self.parse_display_math(lines, idx));
            } else if crate::strutil::starts_with_str(&trimmed, "| ") {
                return Option::Some(self.parse_table(lines, idx));
            } else if crate::strutil::starts_with_str(&trimmed, ":: ") {
                return Option::Some(self.parse_big_button(lines, idx));
            } else if is_unordered_list_item(&trimmed) {
                return Option::Some(Self::parse_unordered_list(lines, idx));
            } else if crate::strutil::starts_with_str(&trimmed, "1. ") {
                return Option::Some(Self::parse_ordered_list(lines, idx));
            } else {
                return Option::Some(Self::parse_paragraph(lines, idx));
            }
        }
        Option::None
    }

    /// Parses a raw block: lines between `???` fences, passed through.
    fn parse_raw_block(lines: &Vec<Vec<char>>, idx: &mut usize) -> (r: Block)
        requires
            *old(idx) < lines@.len(),
        ensures
            *old(idx) < *final(idx) <= lines@.len(),
    {
        let n = lines.len();
        *idx = *idx + 1;
        let mut content: Vec<char> = Vec::new();
        while *idx < lines.len()
            invariant
                *old(idx) < *idx <= lines@.len(),
            decreases lines@.len() - *idx,
        {
            let trimmed = trim_chars(&lines[*idx]);
            if crate::strutil::eq_str(&trimmed, "???") {
                *idx = *idx + 1;
                break ;
            } else {
                crate::strutil::append_chars(&mut content, &lines[*idx]);
                content.push('\n');
                *idx = *idx + 1;
            }
        }
        Block::Raw(chars_to_string(&content))
    }

    /// Parses a highlighted code block: `~~~` fences with an optional
    /// `lang` line.
    fn parse_code_block(lines: &Vec<Vec<char>>, idx: &mut usize) -> (r: Block)
        requires
            *old(idx) < lines@.len(),
        ensures
            *old(idx) < *final(idx) <= lines@.len(),
    {
        let n = lines.len();
        *idx = *idx + 1;
        let mut language: Option<String> = Option::None;
        let mut code: Vec<char> = Vec::new();
        if *idx < lines.len() {
            let trimmed = trim_chars(&lines[*idx]);
            if crate::strutil::starts_with_str(&trimmed, "lang ") {
                proof {
                    reveal_strlit("lang ");
                }
                let lang = subvec(&trimmed, 5, trimmed.len());
                language = Option::Some(chars_to_string(&lang));
                *idx = *idx + 1;
            }
        }
        while *idx < lines.len()
            invariant
                *old(idx) < *idx <= lines@.len(),
            decreases lines@.len() - *idx,
        {
            let trimmed = trim_chars(&lines[*idx]);
            if crate::strutil::eq_str(&trimmed, "~~~") {
                *idx = *idx + 1;
                break ;
            } else {
                crate::strutil::append_chars(&mut code, &lines[*idx]);
                code.push('\n');
                *idx = *idx + 1;
            }
        }
        Block::CodeBlock { language, code: chars_to_string(&code) }
    }

    /// Parses an unhighlighted code block: `~~~~` fences.
    fn parse_code_block_nohighlight(lines: &Vec<Vec<char>>, idx: &mut usize) -> (r: Block)
        requires
            *old(idx) < lines@.len(),
        ensures
            *old(idx) < *final(idx) <= lines@.len(),
    {
        let n = lines.len();
        *idx = *idx + 1;
        let mut code: Vec<char> = Vec::new();
        while *idx < lines.len()
            invariant
                *old(idx) < *idx <= lines@.len(),
            decreases lines@.len() - *idx,
        {
            let trimmed = trim_chars(&lines[*idx]);
            if crate::strutil::eq_str(&trimmed, "~~~~") {
                *idx = *idx + 1;
                break ;
            } else {
                crate::strutil::append_chars(&mut code, &lines[*idx]);
                code.push('\n');
                *idx = *idx + 1;
            }
        }
        Block::CodeBlock { language: Option::None, code: chars_to_string(&code) }
    }

    /// A URL-friendly unique identifier for a section title: lowercased,
    /// restricted to letters, digits and spaces, with spaces as dashes,
    /// and a numeric suffix when the same base was used before.
    fn generate_id(&mut self, text: &Vec<char>) -> (r: String) {
        let lowered = str_to_lowercase(chars_to_string(text).as_str());
        let lv = str_to_chars(lowered.as_str());
        let mut base: Vec<char> = Vec::new();
        let mut i: usize = 0;
        while i < lv.len()
            invariant
                i <= lv.len(),
            decreases lv.len() - i,
        {
            let c = lv[i];
            if char_is_alphanumeric(c) {
                base.push(c);
            } else if c == ' ' {
                base.push('-');
            }
            i = i + 1;
        }
        let base_id = chars_to_string(&base);
        let mut k: usize = 0;
        let mut found: Option<usize> = Option::None;
        while k < self.section_id_counts.len()
            invariant
                k <= self.section_id_counts@.len(),
                found matches Some(f) ==> f < self.section_id_counts@.len(),
            decreases self.section_id_counts@.len() - k,
        {
            if self.section_id_counts[k].0.eq(&base_id) {
                found = Option::Some(k);
                break ;
            }
            k = k + 1;
        }
        let count: usize = match found {
            Option::Some(k2) => {
                let c = self.section_id_counts[k2].1;
                if c < usize::MAX {
                    let entry = (chars_to_string(&base), c + 1);
                    self.section_id_counts.set(k2, entry);
                    c + 1
                } else {
                    c
                }
            },
            Option::None => {
                self.section_id_counts.push((chars_to_string(&base), 1));
                1
            },
        };
        if count == 1 {
            base_id
        } else {
            let mut out = base;
            out.push('-');
            let digits = u64_to_chars(count as u64);
            crate::strutil::append_chars(&mut out, &digits);
            chars_to_string(&out)
        }
    }

    /// Parses a section header line: leading `#` marks give the level,
    /// the rest is the title.
    fn parse_section_header(&mut self, lines: &Vec<Vec<char>>, idx: &mut usize) -> (r: Block)
        requires
            *old(idx) < lines@.len(),
        ensures
            *final(idx) == *old(idx) + 1,
    {
        let n = lines.len();
        let trimmed = trim_chars(&lines[*idx]);
        *idx = *idx + 1;
        let mut level: usize = 0;
        while level < trimmed.len() && trimmed[level] == '#'
            invariant
                level <= trimmed.len(),
            decreases trimmed.len() - level,
        {
            level = level + 1;
        }
        let rest = subvec(&trimmed, level, trimmed.len());
        let text = trim_chars(&rest);
        let id = self.generate_id(&text);
        Block::SectionHeader { level, id, text: chars_to_string(&text) }
    }

    /// Parses a block quote: consecutive `> ` lines.
    fn parse_blockquote(&self, lines: &Vec<Vec<char>>, idx: &mut usize) -> (r: Block)
        requires
            *old(idx) < lines@.len(),
        ensures
            *old(idx) < *final(idx) <= lines@.len(),
    {
        let mut content: Vec<char> = Vec::new();
        let mut consumed: bool = false;
        while *idx < lines.len()
            invariant
                *old(idx) <= *idx <= lines@.len(),
                consumed ==> *idx > *old(idx),
                !consumed ==> *idx == *old(idx),
            decreases lines@.len() - *idx,
        {
            let trimmed = trim_chars(&lines[*idx]);
            if crate::strutil::starts_with_str(&trimmed, "> ") {
                proof {
                    reveal_strlit("> ");
                }
                let stripped = subvec(&trimmed, 2, trimmed.len());
                crate::strutil::append_chars(&mut content, &stripped);
                content.push('\n');
                *idx = *idx + 1;
                consumed = true;
            } else {
                break ;
            }
        }
        if !consumed {
            let n = lines.len();
            *idx = *idx + 1;
        }
        Block::BlockQuote(Self::parse_inline_elements(&content))
    }

    /// Parses an image figure line: `pic URL ALT : caption`, where a
    /// reference anchor in the caption becomes the figure's identifier.
    fn parse_image_figure(&self, lines: &Vec<Vec<char>>, idx: &mut usize) -> (r: Block)
        requires
            *old(idx) < lines@.len(),
        ensures
            *final(idx) == *old(idx) + 1,
    {
        let n = lines.len();
        let trimmed = trim_chars(&lines[*idx]);
        *idx = *idx + 1;
        if crate::strutil::starts_with_str(&trimmed, "pic ") {
            proof {
                reveal_strlit("pic ");
            }
            let rest = subvec(&trimmed, 4, trimmed.len());
            match find_str(&rest, " : ") {
                Option::Some(p) => {
                    let left0 = subvec(&rest, 0, p);
                    let left = trim_chars(&left0);
                    proof {
                        assert(p + " : "@.len() <= rest@.len());
                    }
                    let seplen = " : ".unicode_len();
                    let caption0 = subvec(&rest, p + seplen, rest.len());
                    let caption = trim_chars(&caption0);
                    // The URL is the first whitespace-separated word; the
                    // remaining words are the alt text.
                    let mut u: usize = 0;
                    while u < left.len() && !is_space(left[u])
                        invariant
                            u <= left.len(),
                        decreases left.len() - u,
                    {
                        u = u + 1;
                    }
                    let url = subvec(&left, 0, u);
                    let alt_rest = subvec(&left, u, left.len());
                    let alt_words = collapse_ws_words(&alt_rest);
                    let mut text = Self::parse_inline_elements(&caption);
                    let mut id: Option<String> = Option::None;
                    let mut e: usize = 0;
                    while e < text.len()
                        invariant
                            e <= text@.len(),
                        decreases text@.len() - e,
                    {
                        let is_anchor = match &text[e] {
                            InlineElement::ReferenceAnchor { .. } => true,
                            _ => false,
                        };
                        if is_anchor {
                            let content_copy = match &text[e] {
                                InlineElement::ReferenceAnchor { content, .. } => content.clone(),
                                _ => String::new(),
                            };
                            text.set(
                                e,
                                InlineElement::ReferenceAnchor {
                                    content: content_copy.clone(),
                                    invisible: true,
                                },
                            );
                            id = Option::Some(content_copy);
                        }
                        e = e + 1;
                    }
                    let urlt = trim_chars(&url);
                    let altt = trim_chars(&alt_words);
                    return Block::ImageFigure {
                        url: chars_to_string(&urlt),
                        id,
                        id_number: self.image_figures.len(),
                        alt: chars_to_string(&altt),
                        text,
                    };
                },
                Option::None => {},
            }
        }
        Block::Paragraph(Vec::new())
    }

    /// Parses a display math block: a `$ ` line and following lines up to
    /// a blank line or the start of another block.
    fn parse_display_math(&self, lines: &Vec<Vec<char>>, idx: &mut usize) -> (r: Block)
        requires
            *old(idx) < lines@.len(),
        ensures
            *old(idx) < *final(idx) <= lines@.len(),
    {
        let n = lines.len();
        let mut content: Vec<char> = Vec::new();
        let trimmed = trim_chars(&lines[*idx]);
        *idx = *idx + 1;
        if crate::strutil::starts_with_str(&trimmed, "$ ") {
            proof {
                reveal_strlit("$ ");
            }
            let math = subvec(&trimmed, 2, trimmed.len());
            crate::strutil::append_chars(&mut content, &math);
            while *idx < lines.len()
                invariant
                    *old(idx) < *idx <= lines@.len(),
                decreases lines@.len() - *idx,
            {
                let t = trim_chars(&lines[*idx]);
                if t.len() == 0 {
                    *idx = *idx + 1;
                    break ;
                }
                if crate::strutil::eq_str(&t, "???") || crate::strutil::eq_str(&t, "~~~")
                    || crate::strutil::eq_str(&t, "~~~~") || t[0] == '#'
                    || crate::strutil::starts_with_str(&t, "> ") || crate::strutil::starts_with_str(
                    &t,
                    "pic ",
                ) || crate::strutil::starts_with_str(&t, "| ") || crate::strutil::starts_with_str(
                    &t,
                    ":: ",
                ) || is_unordered_list_item(&t) || is_ordered_list_item(&t) {
                    break ;
                }
                content.push('\n');
                crate::strutil::append_chars(&mut content, &lines[*idx]);
                *idx = *idx + 1;
            }
            return Block::DisplayMath {
                id: Option::None,
                id_number: self.display_equations.len(),
                content: chars_to_string(&content),
            };
        }
        Block::Paragraph(Vec::new())
    }

    /// Parses an unordered list: `*` items with deeper nesting marked by
    /// more asterisks; other nonblank lines continue the previous item.
    fn parse_unordered_list(lines: &Vec<Vec<char>>, idx: &mut usize) -> (r: Block)
        requires
            *old(idx) < lines@.len(),
        ensures
            *old(idx) < *final(idx) <= lines@.len(),
    {
        let mut items: Vec<ListItem> = Vec::new();
        let mut consumed: bool = false;
        while *idx < lines.len()
            invariant
                *old(idx) <= *idx <= lines@.len(),
                consumed ==> *idx > *old(idx),
                !consumed ==> *idx == *old(idx),
            decreases lines@.len() - *idx,
    {
            let trimmed = trim_chars(&lines[*idx]);
            if is_unordered_list_item(&trimmed) {
                let mut level: usize = 0;
                while level < trimmed.len() && trimmed[level] == '*'
                    invariant
                        level <= trimmed.len(),
                    decreases trimmed.len() - level,
                {
                    level = level + 1;
                }
                let rest = subvec(&trimmed, level, trimmed.len());
                let content = trim_chars(&rest);
                items.push(ListItem { level, text: Self::parse_inline_elements(&content) });
                *idx = *idx + 1;
                consumed = true;
            } else if trimmed.len() == 0 {
                *idx = *idx + 1;
                consumed = true;
                break ;
            } else {
                if items.len() > 0 {
                    let mut extra = Self::parse_inline_elements(&trimmed);
                    let mut text = match items.pop() {
                        Option::Some(item) => item,
                        Option::None => ListItem { level: 1, text: Vec::new() },
                    };
                    text.text.push(InlineElement::Text(" ".to_owned()));
                    text.text.append(&mut extra);
                    items.push(text);
                    *idx = *idx + 1;
                    consumed = true;
                } else {
                    break ;
                }
            }
        }
        if !consumed {
            let n = lines.len();
            *idx = *idx + 1;
        }
        Block::UnorderedList(items)
    }

    /// Parses an ordered list: `1.`-numbered items; other nonblank lines
    /// continue the previous item.
    fn parse_ordered_list(lines: &Vec<Vec<char>>, idx: &mut usize) -> (r: Block)
        requires
            *old(idx) < lines@.len(),
        ensures
            *old(idx) < *final(idx) <= lines@.len(),
    {
        let mut items: Vec<ListItem> = Vec::new();
        let mut consumed: bool = false;
        while *idx < lines.len()
            invariant
                *old(idx) <= *idx <= lines@.len(),
                consumed ==> *idx > *old(idx),
                !consumed ==> *idx == *old(idx),
            decreases lines@.len() - *idx,
        {
            let trimmed = trim_chars(&lines[*idx]);
            if is_ordered_list_item(&trimmed) {
                let mut d: usize = 0;
                while d < trimmed.len() && trimmed[d] != '.'
                    invariant
                        d <= trimmed.len(),
                    decreases trimmed.len() - d,
                {
                    d = d + 1;
                }
                let content0: Vec<char> = if d < trimmed.len() {
                    subvec(&trimmed, d + 1, trimmed.len())
                } else {
                    Vec::new()
                };
                let content = trim_chars(&content0);
                items.push(ListItem { level: 1, text: Self::parse_inline_elements(&content) });
                *idx = *idx + 1;
                consumed = true;
            } else if trimmed.len() == 0 {
                *idx = *idx + 1;
                consumed = true;
                break ;
            } else {
                if items.len() > 0 {
                    let mut extra = Self::parse_inline_elements(&trimmed);
                    let mut item = match items.pop() {
                        Option::Some(item) => item,
                        Option::None => ListItem { level: 1, text: Vec::new() },
                    };
                    item.text.push(InlineElement::Text(" ".to_owned()));
                    item.text.append(&mut extra);
                    items.push(item);
                    *idx = *idx + 1;
                    consumed = true;
                } else {
                    break ;
                }
            }
        }
        if !consumed {
            let n = lines.len();
            *idx = *idx + 1;
        }
        Block::OrderedList(items)
    }

    /// Parses a paragraph: lines up to a blank line or the start of
    /// another block.
    fn parse_paragraph(lines: &Vec<Vec<char>>, idx: &mut usize) -> (r: Block)
        requires
            *old(idx) < lines@.len(),
        ensures
            *old(idx) < *final(idx) <= lines@.len(),
    {
        let mut content: Vec<char> = Vec::new();
        let mut consumed: bool = false;
        while *idx < lines.len()
            invariant
                *old(idx) <= *idx <= lines@.len(),
                consumed ==> *idx > *old(idx),
                !consumed ==> *idx == *old(idx),
            decreases lines@.len() - *idx,
        {
            let trimmed = trim_chars(&lines[*idx]);
            if trimmed.len() == 0 {
                *idx = *idx + 1;
                consumed = true;
                break ;
            }
            if consumed && (crate::strutil::eq_str(&trimmed, "???") || crate::strutil::eq_str(
                &trimmed,
                "~~~~",
            ) || crate::strutil::eq_str(&trimmed, "~~~") || trimmed[0] == '#'
                || crate::strutil::starts_with_str(&trimmed, "> ")
                || crate::strutil::starts_with_str(&trimmed, "pic ")
                || crate::strutil::starts_with_str(&trimmed, "$ ")
                || crate::strutil::starts_with_str(&trimmed, "| ")
                || crate::strutil::starts_with_str(&trimmed, ":: ") || is_unordered_list_item(
                &trimmed,
            ) || is_ordered_list_item(&trimmed)) {
                break ;
            }
            crate::strutil::append_chars(&mut content, &lines[*idx]);
            content.push('\n');
            *idx = *idx + 1;
            consumed = true;
        }
        if !consumed {
            let n = lines.len();
            *idx = *idx + 1;
        }
        let t = trim_end_ws(&content);
        Block::Paragraph(Self::parse_inline_elements(&t))
    }

    /// Parses a table: `| `-rows and separator rows, then the next
    /// nonblank line as the caption. The first data row is the header.
    fn parse_table(&self, lines: &Vec<Vec<char>>, idx: &mut usize) -> (r: Block)
        requires
            *old(idx) < lines@.len(),
        ensures
            *old(idx) < *final(idx) <= lines@.len(),
    {
        let mut table_lines: Vec<Vec<char>> = Vec::new();
        let mut consumed: bool = false;
        while *idx < lines.len()
            invariant
                *old(idx) <= *idx <= lines@.len(),
                consumed ==> *idx > *old(idx),
                !consumed ==> *idx == *old(idx),
            decreases lines@.len() - *idx,
        {
            let t = trim_chars(&lines[*idx]);
            if crate::strutil::starts_with_str(&t, "| ") || is_table_separator_row(&t) {
                table_lines.push(subvec(&lines[*idx], 0, lines[*idx].len()));
                *idx = *idx + 1;
                consumed = true;
            } else {
                break ;
            }
        }
        let mut caption: Vec<InlineElement> = Vec::new();
        while *idx < lines.len()
            invariant
                *old(idx) <= *idx <= lines@.len(),
                consumed ==> *idx > *old(idx),
                !consumed ==> *idx == *old(idx),
            decreases lines@.len() - *idx,
        {
            let t = trim_chars(&lines[*idx]);
            if t.len() == 0 {
                *idx = *idx + 1;
                consumed = true;
            } else {
                caption = Self::parse_inline_elements(&t);
                *idx = *idx + 1;
                consumed = true;
                break ;
            }
        }
        let mut header: Vec<Vec<InlineElement>> = Vec::new();
        let mut rows: Vec<Vec<Vec<InlineElement>>> = Vec::new();
        let mut header_filled: bool = false;
        let mut ri: usize = 0;
        while ri < table_lines.len()
            invariant
                ri <= table_lines@.len(),
            decreases table_lines@.len() - ri,
        {
            let t = trim_chars(&table_lines[ri]);
            if is_table_separator_row(&t) {
                ri = ri + 1;
                continue ;
            }
            let raw_cells = parse_table_row_cells(&table_lines[ri]);
            let mut cells: Vec<Vec<InlineElement>> = Vec::new();
            let mut ci: usize = 0;
            while ci < raw_cells.len()
                invariant
                    ci <= raw_cells@.len(),
                decreases raw_cells@.len() - ci,
            {
                let ct = trim_chars(&raw_cells[ci]);
                cells.push(Self::parse_inline_elements(&ct));
                ci = ci + 1;
            }
            if !header_filled {
                header = cells;
                header_filled = true;
            } else {
                rows.push(cells);
            }
            ri = ri + 1;
        }
        if !consumed {
            let n = lines.len();
            *idx = *idx + 1;
        }
        Block::Table { id_number: self.tables.len(), header, rows, caption }
    }

    /// Parses a big-button line: `:: text url`.
    fn parse_big_button(&self, lines: &Vec<Vec<char>>, idx: &mut usize) -> (r: Block)
        requires
            *old(idx) < lines@.len(),
        ensures
            *final(idx) == *old(idx) + 1,
    {
        let n = lines.len();
        let trimmed = trim_chars(&lines[*idx]);
        *idx = *idx + 1;
        if crate::strutil::starts_with_str(&trimmed, ":: ") {
            proof {
                reveal_strlit(":: ");
            }
            let rest = subvec(&trimmed, 3, trimmed.len());
            // Split at the last space: text before, URL after.
            let mut sp: usize = rest.len();
            while sp > 0 && rest[sp - 1] != ' '
                invariant
                    sp <= rest.len(),
                decreases sp,
            {
                sp = sp - 1;
            }
            if sp > 0 {
                let text0 = subvec(&rest, 0, sp - 1);
                let text = trim_chars(&text0);
                let url0 = subvec(&rest, sp, rest.len());
                let url = trim_chars(&url0);
                return Block::BigButton {
                    text: Self::parse_inline_elements(&text),
                    url: chars_to_string(&url),
                };
            }
        }
        Block::Paragraph(Vec::new())
    }

    /// Parses inline markup: escapes, code spans, inline math, links,
    /// references and reference anchors, emphasis and strong emphasis.
    pub fn parse_inline_elements(s: &Vec<char>) -> (r: Vec<InlineElement>)
        decreases s@.len(),
    {
        let mut elements: Vec<InlineElement> = Vec::new();
        let mut buffer: Vec<char> = Vec::new();
        let mut i: usize = 0;
        while i < s.len()
            invariant
                i <= s@.len(),
            decreases s@.len() - i,
        {
            let c = s[i];
            if c == '\\' {
                if i + 1 < s.len() {
                    buffer.push(s[i + 1]);
                    i = i + 2;
                } else {
                    i = i + 1;
                }
                continue ;
            }
            if c == '`' {
                flush_text(&mut elements, &mut buffer);
                i = i + 1;
                let ghost mark = i as int;
                let mut code: Vec<char> = Vec::new();
                while i < s.len()
                    invariant
                        mark <= i <= s@.len(),
                    decreases s@.len() - i,
                {
                    if s[i] == '\\' && i + 1 < s.len() && s[i + 1] == '`' {
                        code.push('`');
                        i = i + 2;
                        continue ;
                    }
                    if s[i] == '`' {
                        i = i + 1;
                        break ;
                    }
                    code.push(s[i]);
                    i = i + 1;
                }
                elements.push(InlineElement::Code(chars_to_string(&code)));
                continue ;
            }
            if c == '$' {
                flush_text(&mut elements, &mut buffer);
                i = i + 1;
                let ghost mark = i as int;
                let mut math: Vec<char> = Vec::new();
                while i < s.len()
                    invariant
                        mark <= i <= s@.len(),
                    decreases s@.len() - i,
                {
                    if s[i] == '\\' && i + 1 < s.len() && s[i + 1] == '$' {
                        math.push('$');
                        i = i + 2;
                        continue ;
                    }
                    if s[i] == '$' {
                        i = i + 1;
                        break ;
                    }
                    math.push(s[i]);
                    i = i + 1;
                }
                elements.push(InlineElement::InlineMath(chars_to_string(&math)));
                continue ;
            }
            if c == '[' {
                flush_text(&mut elements, &mut buffer);
                i = i + 1;
                let start: usize = i;
                while i < s.len() && s[i] != ']'
                    invariant
                        start <= i <= s@.len(),
                    decreases s@.len() - i,
                {
                    i = i + 1;
                }
                let link_text = subvec(s, start, i);
                assert(link_text@.len() < s@.len());
                if i < s.len() {
                    i = i + 1;
                }
                if i < s.len() && s[i] == '(' {
                    i = i + 1;
                    let ghost mark = i as int;
                    let mut url: Vec<char> = Vec::new();
                    let mut escaped: bool = false;
                    let mut closed: bool = false;
                    while i < s.len()
                        invariant
                            mark <= i <= s@.len(),
                            1 <= mark,
                        decreases s@.len() - i,
                    {
                        let ch = s[i];
                        if escaped {
                            url.push(ch);
                            escaped = false;
                            i = i + 1;
                            continue ;
                        }
                        if ch == '\\' {
                            escaped = true;
                            i = i + 1;
                            continue ;
                        }
                        if ch == ')' {
                            i = i + 1;
                            closed = true;
                            break ;
                        }
                        url.push(ch);
                        i = i + 1;
                    }
                    if escaped {
                        // A trailing backslash escapes nothing; keep it.
                        url.push('\\');
                    }
                    if !closed {
                        buffer.push('[');
                        crate::strutil::append_chars(&mut buffer, &link_text);
                        buffer.push(']');
                        buffer.push('(');
                        crate::strutil::append_chars(&mut buffer, &url);
                        continue ;
                    }
                    elements.push(
                        InlineElement::Link {
                            text: Self::parse_inline_elements(&link_text),
                            url: chars_to_string(&url),
                        },
                    );
                    continue ;
                } else {
                    let trimmed = trim_chars(&link_text);
                    let mut anchored: bool = false;
                    if trimmed.len() > 0 && trimmed[0] == '#' {
                        let rest = subvec(&trimmed, 1, trimmed.len());
                        if is_valid_refname(&rest) {
                            elements.push(
                                InlineElement::ReferenceAnchor {
                                    content: chars_to_string(&rest),
                                    invisible: false,
                                },
                            );
                            anchored = true;
                        }
                    }
                    if !anchored {
                        buffer.push('[');
                        crate::strutil::append_chars(&mut buffer, &link_text);
                        buffer.push(']');
                    }
                    continue ;
                }
            }
            if c == '(' && s.len() - i > 2 && s[i + 1] == '#' {
                let mut j: usize = i + 2;
                while j < s.len() && is_valid_refname_char(s[j])
                    invariant
                        i + 2 <= j <= s@.len(),
                    decreases s@.len() - j,
                {
                    j = j + 1;
                }
                if j > i + 2 && j < s.len() && s[j] == ')' {
                    flush_text(&mut elements, &mut buffer);
                    let name = subvec(s, i + 2, j);
                    elements.push(InlineElement::Reference(chars_to_string(&name)));
                    i = j + 1;
                    continue ;
                }
            }
            if c == '_' {
                flush_text(&mut elements, &mut buffer);
                i = i + 1;
                let ghost mark = i as int;
                let mut emph: Vec<char> = Vec::new();
                while i < s.len()
                    invariant
                        i <= s@.len(),
                        1 <= mark,
                        emph@.len() + mark <= i,
                    decreases s@.len() - i,
                {
                    if s[i] == '\\' && i + 1 < s.len() && s[i + 1] == '_' {
                        emph.push('_');
                        i = i + 2;
                        continue ;
                    }
                    if s[i] == '_' {
                        i = i + 1;
                        break ;
                    }
                    emph.push(s[i]);
                    i = i + 1;
                }
                assert(emph@.len() < s@.len());
                elements.push(InlineElement::Emphasis(Self::parse_inline_elements(&emph)));
                continue ;
            }
            if c == '*' && i + 1 < s.len() && s[i + 1] == '*' {
                flush_text(&mut elements, &mut buffer);
                i = i + 2;
                let ghost mark = i as int;
                let mut strong: Vec<char> = Vec::new();
                while i < s.len()
                    invariant
                        i <= s@.len(),
                        2 <= mark,
                        strong@.len() + mark <= i + 1,
                    decreases s@.len() - i,
                {
                    if i + 1 < s.len() && s[i] == '*' && s[i + 1] == '*' {
                        i = i + 2;
                        break ;
                    }
                    if s[i] == '\\' && i + 1 < s.len() && s[i + 1] == '*' {
                        strong.push('*');
                        i = i + 2;
                        continue ;
                    }
                    strong.push(s[i]);
                    i = i + 1;
                }
                assert(strong@.len() < s@.len());
                elements.push(InlineElement::Strong(Self::parse_inline_elements(&strong)));
                continue ;
            }
            buffer.push(c);
            i = i + 1;
        }
        flush_text(&mut elements, &mut buffer);
        elements
    }
}

/// Pushes the buffered text as a `Text` element and clears the buffer.
fn flush_text(elements: &mut Vec<InlineElement>, buffer: &mut Vec<char>)
    ensures
        final(buffer)@.len() == 0,
{
    if buffer.len() > 0 {
        elements.push(InlineElement::Text(chars_to_string(buffer)));
        buffer.clear();
    }
}

/// Drops trailing Unicode whitespace.
fn trim_end_ws(v: &Vec<char>) -> (r: Vec<char>) {
    let b = crate::strutil::trim_end_idx(v);
    subvec(v, 0, b)
}

/// Collapses the words of a run of text to single spaces between them.
fn collapse_ws_words(v: &Vec<char>) -> (r: Vec<char>) {
    let mut out: Vec<char> = Vec::new();
    let mut i: usize = 0;
    let mut in_word: bool = false;
    while i < v.len()
        invariant
            i <= v.len(),
        decreases v.len() - i,
    {
        let c = v[i];
        if is_space(c) {
            in_word = false;
        } else {
            if !in_word && out.len() > 0 {
                out.push(' ');
            }
            out.push(c);
            in_word = true;
        }
        i = i + 1;
    }
    out
}

} // verus!

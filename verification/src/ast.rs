//! The abstract document tree produced by the parser and consumed by the
//! HTML renderer.

use vstd::prelude::*;

verus! {

/// A parsed article: an optional header and a list of body blocks.
#[derive(Debug)]
pub struct Article {
    pub header: Option<ArticleHeader>,
    pub body: Vec<Block>,
}

/// The article header: a title line and an optional date line.
#[derive(Debug)]
pub struct ArticleHeader {
    pub title: String,
    pub date: Option<String>,
}

/// One block-level element of an article body.
#[derive(Debug)]
pub enum Block {
    Raw(String),
    CodeBlock { language: Option<String>, code: String },
    SectionHeader { level: usize, id: String, text: String },
    BlockQuote(Vec<InlineElement>),
    ImageFigure {
        url: String,
        id: Option<String>,
        id_number: usize,
        alt: String,
        text: Vec<InlineElement>,
    },
    DisplayMath { id: Option<String>, id_number: usize, content: String },
    Table {
        id_number: usize,
        header: Vec<Vec<InlineElement>>,
        rows: Vec<Vec<Vec<InlineElement>>>,
        caption: Vec<InlineElement>,
    },
    BigButton { text: Vec<InlineElement>, url: String },
    UnorderedList(Vec<ListItem>),
    OrderedList(Vec<ListItem>),
    Paragraph(Vec<InlineElement>),
}

/// One list item with its nesting level.
#[derive(Debug)]
pub struct ListItem {
    pub level: usize,
    pub text: Vec<InlineElement>,
}

/// One inline element of a text run.
#[derive(Debug)]
pub enum InlineElement {
    Text(String),
    Code(String),
    InlineMath(String),
    Link { text: Vec<InlineElement>, url: String },
    Emphasis(Vec<InlineElement>),
    Strong(Vec<InlineElement>),
    Reference(String),
    ReferenceAnchor { content: String, invisible: bool },
}

impl Default for Article {
    /// An empty article: no header, no blocks.
    fn default() -> (r: Self)
        ensures
            r.header is None,
            r.body@.len() == 0,
    {
        Article { header: None, body: Vec::new() }
    }
}

} // verus!

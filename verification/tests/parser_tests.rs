use dllup::ast::{Block, InlineElement};
use dllup::parser::Parser;

fn cell_text(cell: &[InlineElement]) -> String {
    cell.iter()
        .map(|inline| match inline {
            InlineElement::Text(s) => s.as_str(),
            _ => "",
        })
        .collect::<Vec<_>>()
        .join("")
}

#[test]
fn separator_rows_are_ignored() {
    let input = "Table Demo\n\n===\n\n| Colour | Pattern |\n| ------- | -------- |\n| White | Spots |\n";
    let mut parser = Parser::default();
    parser.parse(input);
    let table = parser
        .article
        .body
        .iter()
        .find_map(|block| {
            if let Block::Table { header, rows, .. } = block {
                Some((header, rows))
            } else {
                None
            }
        })
        .expect("expected table");
    assert_eq!(table.0.len(), 2);
    assert_eq!(cell_text(&table.0[0]), "Colour");
    assert_eq!(cell_text(&table.0[1]), "Pattern");
    assert_eq!(table.1.len(), 1);
    assert_eq!(table.1[0].len(), 2);
    assert_eq!(cell_text(&table.1[0][0]), "White");
    assert_eq!(cell_text(&table.1[0][1]), "Spots");
}

#[test]
fn separator_rows_with_wrong_column_count_are_ignored() {
    let input = "Table Demo\n\n===\n\n| Colour | Pattern |\n|----------------|\n| White | Spots |\n| Black | Solid |\n";
    let mut parser = Parser::default();
    parser.parse(input);
    let table = parser
        .article
        .body
        .iter()
        .find_map(|block| {
            if let Block::Table { rows, .. } = block {
                Some(rows)
            } else {
                None
            }
        })
        .expect("expected table rows");
    assert_eq!(table.len(), 2);
    assert!(table.iter().all(|row| row.len() == 2));
}

#[test]
fn parses_reference_citation() {
    let input = "Doc\n\n===\n\nThis cites (#eade).\n";
    let mut parser = Parser::default();
    parser.parse(input);
    let paragraph = parser
        .article
        .body
        .iter()
        .find_map(|block| {
            if let Block::Paragraph(elements) = block {
                Some(elements)
            } else {
                None
            }
        })
        .expect("expected paragraph");
    assert!(paragraph
        .iter()
        .any(|el| { matches!(el, InlineElement::Reference(name) if name == "eade") }));
}

#[test]
fn parses_reference_anchor() {
    let input = "Doc\n\n===\n\n[#eade]\n";
    let mut parser = Parser::default();
    parser.parse(input);
    let paragraph = parser
        .article
        .body
        .iter()
        .find_map(|block| {
            if let Block::Paragraph(elements) = block {
                Some(elements)
            } else {
                None
            }
        })
        .expect("expected paragraph");
    assert!(paragraph.iter().any(|el| {
        matches!(
            el,
            InlineElement::ReferenceAnchor {
                content,
                invisible: false
            } if content == "eade"
        )
    }));
}

#[test]
fn parses_header_title_and_date() {
    let input = "My Title\n2024-01-02\n\n===\n\nBody text.\n";
    let mut parser = Parser::default();
    parser.parse(input);
    let header = parser.article.header.as_ref().expect("expected header");
    assert_eq!(header.title, "My Title");
    assert_eq!(header.date.as_deref(), Some("2024-01-02"));
}

#[test]
fn no_separator_means_no_header() {
    let input = "Just a paragraph.\n";
    let mut parser = Parser::default();
    parser.parse(input);
    assert!(parser.article.header.is_none());
    assert_eq!(parser.article.body.len(), 1);
}

#[test]
fn parses_code_block_with_language() {
    let input = "Doc\n\n===\n\n~~~\nlang rust\nfn x() {}\n~~~\n";
    let mut parser = Parser::default();
    parser.parse(input);
    let found = parser.article.body.iter().any(|b| {
        matches!(b, Block::CodeBlock { language: Some(l), code } if l == "rust" && code == "fn x() {}\n")
    });
    assert!(found);
}

#[test]
fn parses_emphasis_and_strong() {
    let input = "a _em_ **st** b\n";
    let mut parser = Parser::default();
    parser.parse(input);
    let paragraph = parser
        .article
        .body
        .iter()
        .find_map(|block| {
            if let Block::Paragraph(elements) = block {
                Some(elements)
            } else {
                None
            }
        })
        .expect("expected paragraph");
    assert!(paragraph.iter().any(|el| matches!(el, InlineElement::Emphasis(_))));
    assert!(paragraph.iter().any(|el| matches!(el, InlineElement::Strong(_))));
}

#[test]
fn section_ids_are_lowercased_and_dashed() {
    let input = "Doc\n\n===\n\n# Hello World\n\n# Hello World\n";
    let mut parser = Parser::default();
    parser.parse(input);
    let ids: Vec<String> = parser
        .article
        .body
        .iter()
        .filter_map(|b| {
            if let Block::SectionHeader { id, .. } = b {
                Some(id.clone())
            } else {
                None
            }
        })
        .collect();
    assert_eq!(ids, vec!["hello-world".to_string(), "hello-world-2".to_string()]);
}

#[test]
fn config_path_ignores_doubled_and_trailing_slashes() {
    assert_eq!(dllup::config::default_config_path("a//b.dllu"), "a/dllup.toml");
    assert_eq!(dllup::config::default_config_path("posts/"), "dllup.toml");
    assert_eq!(dllup::config::default_config_path("/x.dllu"), "/dllup.toml");
    assert_eq!(dllup::config::default_config_path(""), "./dllup.toml");
}

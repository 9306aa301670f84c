use dllup::ast::InlineElement;
use dllup::config::Config;
use dllup::html_renderer::{css_href_with_root, fill_html_template, HtmlRenderer};

#[test]
fn fallback_inline_math() {
    let mut r = HtmlRenderer::new(&Config::default());
    let html = r.render_paragraph(&vec![
        InlineElement::Text("A ".into()),
        InlineElement::InlineMath("x+y".into()),
        InlineElement::Text(" B".into()),
    ]);
    assert!(html.contains("<span class=\"math-inline\">x+y</span>"));
}

#[test]
fn render_figure_alt_and_caption() {
    let mut r = HtmlRenderer::new(&Config::default());
    let caption = vec![
        InlineElement::Text("An ".into()),
        InlineElement::Emphasis(vec![InlineElement::Text("example".into())]),
    ];
    let html = r.render_image_figure(
        &"/img.png".to_string(),
        &None,
        0,
        &"An example".to_string(),
        &caption,
    );
    assert!(html.contains("FIGURE 1"));
    assert!(html.contains("alt=\"An example\""));
}

#[test]
fn root_url_prefixes_internal_links() {
    let mut cfg = Config::default();
    cfg.root_url = Some("https://example.com".into());
    let mut r = HtmlRenderer::new(&cfg);
    let html = r.render_inlines(&vec![InlineElement::Link {
        text: vec![InlineElement::Text("link".into())],
        url: "/foo.html".into(),
    }]);
    assert!(html.contains("href=\"https://example.com/foo.html\""));
}

#[test]
fn css_href_respects_root_for_relative_paths() {
    let mut cfg = Config::default();
    cfg.root_url = Some("https://example.com/blog".into());
    cfg.html.css_href = "static/styles.css".into();
    let href = css_href_with_root(&cfg);
    assert_eq!(href, "https://example.com/blog/static/styles.css");
}

#[test]
fn css_href_respects_root_for_root_relative_paths() {
    let mut cfg = Config::default();
    cfg.root_url = Some("https://example.com".into());
    cfg.html.css_href = "/assets/styles.css".into();
    let href = css_href_with_root(&cfg);
    assert_eq!(href, "https://example.com/assets/styles.css");
}

#[test]
fn meta_tags_without_image_or_description() {
    let r = HtmlRenderer::new(&Config::default());
    let metas = r.meta_tags("T");
    assert_eq!(
        metas,
        "<meta property=\"og:title\" content=\"T\" />\n  <meta name=\"twitter:card\" content=\"summary\">\n  <meta name=\"robots\" content=\"max-image-preview:large\">"
    );
}

#[test]
fn seeded_math_is_used_by_renderer() {
    let mut r = HtmlRenderer::new(&Config::default());
    r.seed_math(false, "x+y", "<b>rendered</b>".to_string());
    let html = r.render_math_html("x+y", false);
    assert_eq!(html, "<b>rendered</b>");
}

#[test]
fn typographer_applies_substitutions() {
    let out = dllup::html_renderer::typographer("\"Hi\" -- it's...");
    assert_eq!(out, "\u{201c}Hi\u{201d} \u{2013} it\u{2019}s\u{2026}");
}

#[test]
fn escape_html_escapes_all_special_characters() {
    let out = dllup::html_renderer::escape_html("<a & 'b'\">");
    assert_eq!(out, "&lt;a &amp; &#x27;b&#x27;&quot;&gt;");
}

#[test]
fn unescape_backslashes_drops_single_and_keeps_double() {
    assert_eq!(dllup::html_renderer::unescape_backslashes("a\\_b"), "a_b");
    assert_eq!(dllup::html_renderer::unescape_backslashes("a\\\\b"), "a\\b");
    assert_eq!(dllup::html_renderer::unescape_backslashes("trail\\"), "trail");
}

#[test]
fn toc_produced_for_sections() {
    let mut parser = dllup::parser::Parser::default();
    parser.parse("Doc\n\n===\n\n# One\n\n## Sub\n\n# Two\n");
    let mut r = HtmlRenderer::new(&Config::default());
    r.render(&parser.article);
    let toc = r.table_of_contents_html().expect("expected a table of contents");
    assert_eq!(
        toc,
        "<div class=\"toc\"><ol><li><a href=\"#s1\"><span class=\"tocnum\">1</span> <span>One</span></a><ol><li><a href=\"#s1.1\"><span class=\"tocnum\">1.1</span> <span>Sub</span></a></li></ol></li><li><a href=\"#s2\"><span class=\"tocnum\">2</span> <span>Two</span></a></li></ol></div>"
    );
}

#[test]
fn fill_html_template_replaces_placeholders() {
    let out = fill_html_template(
        "<title>{{title}}</title><link href=\"{{css}}\"/>{{metas}}{{tableofcontents}}{{body}}",
        "A<B",
        "c.css",
        "TOC",
        "M",
        "BODY",
    );
    assert_eq!(out, "<title>A&lt;B</title><link href=\"c.css\"/>MTOCBODY");
}

#[test]
fn spaces_inserted_only_between_tag_and_word() {
    assert!(dllup::html_renderer::needs_space_between("<em>x</em>", "word"));
    assert!(!dllup::html_renderer::needs_space_between("<em>x</em>", ", next"));
    assert!(!dllup::html_renderer::needs_space_between("text", "word"));
    assert!(!dllup::html_renderer::needs_space_between("", "word"));
    assert!(!dllup::html_renderer::needs_space_between("<em>x</em> ", "word"));
}

#[test]
fn relative_hrefs_exclude_rooted_and_schemed() {
    assert!(dllup::html_renderer::is_relative_href("a/b.css"));
    assert!(!dllup::html_renderer::is_relative_href("/a.css"));
    assert!(!dllup::html_renderer::is_relative_href("#frag"));
    assert!(!dllup::html_renderer::is_relative_href("https://x/a.css"));
    assert!(!dllup::html_renderer::is_relative_href(""));
}

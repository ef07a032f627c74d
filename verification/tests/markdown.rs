use veloce::web::markdown::{defuse, markdown_to_html, MarkdownEvent};

#[test]
fn renders_bold_and_heading() {
    let html = markdown_to_html("### Tools\n\nUse **load cantilever**.");
    assert!(html.contains("<h3>"));
    assert!(html.contains("<strong>load cantilever</strong>"));
}

#[test]
fn renders_table() {
    let html = markdown_to_html("| Host | IP |\n| --- | --- |\n| w1 | 10.0.0.1 |");
    assert!(html.contains("<table>"));
    assert!(html.contains("<th>"));
    assert!(html.contains("w1"));
}

#[test]
fn escapes_raw_html_tags() {
    let html = markdown_to_html("a <script>alert(1)</script> b");
    assert!(!html.contains("<script>"), "raw script tag leaked: {html}");
    assert!(html.contains("&lt;script&gt;") || html.contains("alert(1)"));
}

#[test]
fn strikes_and_lists_are_known() {
    assert!(markdown_to_html("~~gone~~").contains("<del>gone</del>"));
    assert!(markdown_to_html("- [x] done").contains("checkbox"));
    assert_eq!(markdown_to_html("plain"), "<p>plain</p>\n");
}

#[test]
fn blocks_of_html_are_escaped_too() {
    let html = markdown_to_html("<div>\nx\n</div>\n");
    assert!(!html.contains("<div>"));
    assert!(html.contains("&lt;div&gt;"));
}

#[test]
fn html_becomes_text() {
    let events = vec![
        MarkdownEvent::Html("<a>".to_string()),
        MarkdownEvent::Text("t".to_string()),
        MarkdownEvent::InlineHtml("<b>".to_string()),
    ];
    let texts: Vec<String> = defuse(events)
        .into_iter()
        .map(|e| match e {
            MarkdownEvent::Text(s) => s,
            _ => panic!("not text"),
        })
        .collect();
    assert_eq!(texts, vec!["<a>", "t", "<b>"]);
}

use minitools::markdown::{
    escape_html, line_is_convertible, markdown_line, parse_inline, parse_markdown, split,
};

fn strings(v: &[&str]) -> Vec<String> {
    v.iter().map(|s| s.to_string()).collect()
}

#[test]
fn escape_html_replaces_specials() {
    assert_eq!(escape_html("a<b>&c"), "a&lt;b&gt;&amp;c");
    assert_eq!(escape_html("plain"), "plain");
    assert_eq!(escape_html("&amp;"), "&amp;amp;");
}

#[test]
fn split_at_delimiter() {
    let s: Vec<char> = "a**b**c".chars().collect();
    let d: Vec<char> = "**".chars().collect();
    let parts: Vec<String> = split(&s, &d).iter().map(|p| p.iter().collect()).collect();
    assert_eq!(parts, strings(&["a", "b", "c"]));
    let s: Vec<char> = "***".chars().collect();
    let parts: Vec<String> = split(&s, &d).iter().map(|p| p.iter().collect()).collect();
    assert_eq!(parts, strings(&["", "*"]));
    let s: Vec<char> = "".chars().collect();
    assert_eq!(split(&s, &d).len(), 1);
}

#[test]
fn parse_inline_markup() {
    assert_eq!(
        parse_inline("**bold** and *it* `code`"),
        "<strong>bold</strong> and <em>it</em> <Code>code</Code>"
    );
    assert_eq!(parse_inline("a**b"), "a<strong>b</strong>");
    assert_eq!(parse_inline("no markup"), "no markup");
    assert_eq!(parse_inline("***x***"), "<strong><em>x</strong></em>");
}

#[test]
fn parse_markdown_document() {
    let doc = strings(&["# Title", "- one", "- **two**", "", "text & more", "###### six", "####### seven"]);
    let html = parse_markdown(&doc);
    assert_eq!(
        html,
        strings(&[
            "<h1>Title</h1>",
            "<ul>",
            "<li>one</li>",
            "<li><strong>two</strong></li>",
            "</ul>",
            "</ul>",
            "<p>text &amp; more</p>",
            "<h6>six</h6>",
        ])
    );
}

#[test]
fn heading_content_starts_one_byte_after_marks() {
    let step = markdown_line(false, "#NoSpace");
    assert_eq!(step.lines, strings(&["<h1>oSpace</h1>"]));
    assert!(!step.in_list);
    let step = markdown_line(true, "  ## Sub  ");
    assert_eq!(step.lines, strings(&["<h2>Sub</h2>"]));
    assert!(step.in_list);
}

#[test]
fn list_state_transitions() {
    let step = markdown_line(true, "- x");
    assert_eq!(step.lines, strings(&["<li>x</li>"]));
    assert!(step.in_list);
    let step = markdown_line(true, "");
    assert_eq!(step.lines, strings(&["</ul>"]));
    assert!(step.in_list);
    let step = markdown_line(false, "   ");
    assert!(step.lines.is_empty());
    assert!(!step.in_list);
    let step = markdown_line(true, "para");
    assert_eq!(step.lines, strings(&["</ul>", "<p>para</p>"]));
    assert!(!step.in_list);
}

#[test]
fn convertible_lines() {
    assert!(!line_is_convertible("##"));
    assert!(!line_is_convertible("#é"));
    assert!(line_is_convertible("# é"));
    assert!(line_is_convertible("#######"));
    assert!(line_is_convertible("- #"));
    assert!(line_is_convertible("plain"));
}

#[test]
fn split_then_join_gives_back_the_text() {
    for text in ["a**b**c", "***", "**", "", "x*y", "**start and end**"] {
        let s: Vec<char> = text.chars().collect();
        let d: Vec<char> = "**".chars().collect();
        let parts: Vec<String> = split(&s, &d).iter().map(|p| p.iter().collect()).collect();
        assert_eq!(parts.join("**"), text);
    }
}

#[test]
fn escaped_text_has_no_angle_brackets() {
    let out = escape_html("<<a> & <b>>");
    assert!(!out.contains('<') && !out.contains('>'));
    assert_eq!(out, "&lt;&lt;a&gt; &amp; &lt;b&gt;&gt;");
}

#[test]
fn escaping_can_be_undone() {
    for s in ["a<b>&c", "&lt;", "&amp;&gt;<>", "", "plain text"] {
        let e = escape_html(s);
        let back = e.replace("&lt;", "<").replace("&gt;", ">").replace("&amp;", "&");
        assert_eq!(back, s);
    }
}

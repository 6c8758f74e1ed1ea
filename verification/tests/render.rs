use mdpreview::page::{render_now, render_pass};

#[test]
fn initial_render_wraps_heading_in_h1() {
    let out = render_now("# Hello", "doc.md", "doc.md");
    let content_start = out.page.find("<main id='content'>").expect("content region");
    let content_end = out.page.find("</main>").expect("content region end");
    let region = &out.page[content_start..content_end];
    assert!(region.contains("<h1>Hello</h1>"));
    assert!(out.timestamp > 0);
    assert_eq!(out.status, format!("{{\"timestamp\":{}}}", out.timestamp));
}

#[test]
fn rerender_after_append_adds_paragraph() {
    let first = render_pass("# Hello", "doc.md", "doc.md", 1000, "10:00:00");
    let second = render_pass("# Hello\n\nWorld", "doc.md", "doc.md", 2000, "10:00:01");
    assert!(first.page.contains("<h1>Hello</h1>"));
    assert!(!first.page.contains("<p>World</p>"));
    assert!(second.page.contains("<h1>Hello</h1>"));
    assert!(second.page.contains("<p>World</p>"));
    let t1: i64 = mdpreview::status::parse_status(&first.status).expect("valid status");
    let t2: i64 = mdpreview::status::parse_status(&second.status).expect("valid status");
    assert!(t2 > t1);
}

#[test]
fn rendering_is_deterministic_up_to_the_clock() {
    let a = render_pass("*text* and `code`", "n.md", "n.md", 5, "10:00:00");
    let b = render_pass("*text* and `code`", "n.md", "n.md", 99, "23:59:59");
    let a_head = &a.page[..a.page.find("</main>").unwrap()];
    let b_head = &b.page[..b.page.find("</main>").unwrap()];
    assert_eq!(a_head, b_head);
}

#[test]
fn page_embeds_title_name_and_time() {
    let out = render_pass("body", "My Title", "file.md", 7, "08:30:00");
    assert!(out.page.starts_with("<!DOCTYPE html>"));
    assert!(out.page.contains("<title>My Title</title>"));
    assert!(out.page.contains("Live preview: <strong>file.md</strong>"));
    assert!(out.page.contains("Rendered at 08:30:00</footer>"));
    assert!(out.page.contains("fetch('/status.json'"));
    assert!(out.page.ends_with("</html>\n"));
}

#[test]
fn conversion_is_markdown_not_the_input_itself() {
    let out = render_pass("- one\n- two", "l.md", "l.md", 1, "00:00:01");
    assert!(out.page.contains("<li>one</li>"));
    assert!(out.page.contains("<li>two</li>"));
    assert!(!out.page.contains("- one"));
}

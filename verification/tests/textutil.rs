use pulldown_cmark_escape::{escape_href, escape_html};
use verin::highlight::{HighlightEvent, Renderer, SyntaxConfig};
use verin::site::{refresh, split_article};
use verin::strutil::{append_decimal, create_seven, str_eq};
use verin::theme::Theme;
use verin::themes::highlight_names;

fn lib_escape_html(s: &str) -> String {
    let mut out = String::new();
    verin::escape::escape_html_into(&mut out, s);
    out
}

fn lib_escape_href(s: &str) -> String {
    let mut out = String::new();
    verin::escape::escape_href_into(&mut out, s);
    out
}

#[test]
fn decimal_formatting_exact() {
    for (n, expected) in [(0u64, "0"), (7, "7"), (120, "120"), (u64::MAX, "18446744073709551615")] {
        let mut s = String::from("n=");
        append_decimal(&mut s, n);
        assert_eq!(s, format!("n={expected}"));
    }
}

#[test]
fn html_escaping_matches_reference_writer() {
    for case in [
        "",
        "plain",
        "<a href=\"x\">&amp; 'quotes'</a>",
        "tabs\tand\nnewlines",
        "unicode: héllo — ≤≥",
    ] {
        let mut reference = String::new();
        escape_html(&mut reference, case).unwrap();
        assert_eq!(lib_escape_html(case), reference, "case {case:?}");
    }
}

#[test]
fn href_escaping_matches_reference_writer() {
    for case in [
        "",
        "https://example.com/a/b?q=1&r=2",
        "path with spaces/and\"quotes'",
        "unicode/héllo.png",
        "braces{}|[]`^~",
        "mailto:a@b.c",
    ] {
        let mut reference = String::new();
        escape_href(&mut reference, case).unwrap();
        assert_eq!(lib_escape_href(case), reference, "case {case:?}");
    }
}

#[test]
fn article_splits_at_first_separator() {
    let (meta, body) = split_article("title = \"x\"\n/~\n# Body /~ more").unwrap();
    assert_eq!(meta, "title = \"x\"\n");
    assert_eq!(body, "\n# Body /~ more");
    assert!(split_article("no separator here").is_none());
    let (empty_meta, rest) = split_article("/~rest").unwrap();
    assert_eq!(empty_meta, "");
    assert_eq!(rest, "rest");
}

#[test]
fn refresh_snippet_only_in_debug() {
    assert_eq!(refresh(false, 4111), "");
    let s = refresh(true, 4111);
    assert!(s.contains("ws://localhost:4111"));
    assert!(s.contains("<script>"));
    assert!(s.contains("document.location.reload()"));
    let other = refresh(true, 9005);
    assert!(other.contains("ws://localhost:9005"));
}

#[test]
fn small_helpers() {
    assert_eq!(create_seven(), 7);
    assert!(str_eq("abc", "abc"));
    assert!(!str_eq("abc", "abd"));
    assert!(!str_eq("abc", "ab"));
}

#[test]
fn highlight_error_messages() {
    assert_eq!(verin::highlight::Error::InvalidStream.message(), "ill-formed highlight capture stream");
    assert_eq!(verin::highlight::Error::MissingStream.message(), "missing highlight capture stream");
}

#[test]
fn highlight_renderer_resets_between_blocks() {
    // one long-lived pipeline serves many code blocks without leaking
    // region state from one block into the next.
    let names = highlight_names();
    let idx = names.iter().position(|n| n == "comment").unwrap();
    let theme = Theme(vec![(String::from("comment"), String::from("style=\"color: #949494\""))]);
    let syntax = SyntaxConfig::new(theme, names, vec![String::from("rust")]);
    let renderer = Renderer::new(&syntax);
    let styled = vec![
        HighlightEvent::HighlightStart(idx),
        HighlightEvent::Source { start: 0, end: 4 },
        HighlightEvent::HighlightEnd,
    ];
    let first = renderer.render("rust", "// x", &styled).unwrap();
    assert_eq!(first, "<span style=\"color: #949494\">// x</span>");
    let second = renderer
        .render("rust", "body", &vec![HighlightEvent::Source { start: 0, end: 4 }])
        .unwrap();
    assert_eq!(second, "body");
}

#[test]
fn highlight_lines_reopen_spans() {
    let names = highlight_names();
    let idx = names.iter().position(|n| n == "string").unwrap();
    let theme = Theme(vec![(String::from("string"), String::from("s"))]);
    let syntax = SyntaxConfig::new(theme, names, vec![String::from("rust")]);
    let renderer = Renderer::new(&syntax);
    let evs = vec![
        HighlightEvent::HighlightStart(idx),
        HighlightEvent::Source { start: 0, end: 3 },
        HighlightEvent::HighlightEnd,
    ];
    // the newline closes the open span and reopens it, so each line is
    // well-formed on its own
    let out = renderer.render("rust", "a\nb", &evs).unwrap();
    assert_eq!(out, "<span s>a</span>\n<span s>b</span>");
}

#[test]
fn unresolved_category_is_transparent() {
    let syntax = SyntaxConfig::new(Theme(Vec::new()), highlight_names(), vec![String::from("c")]);
    let renderer = Renderer::new(&syntax);
    let evs = vec![
        HighlightEvent::HighlightStart(0),
        HighlightEvent::Source { start: 0, end: 1 },
        HighlightEvent::HighlightEnd,
    ];
    let out = renderer.render("c", "x", &evs).unwrap();
    assert_eq!(out, "<span >x</span>");
}

#[test]
fn capture_stream_must_tile_the_text() {
    // a bounds-valid stream that skips part of the text would silently
    // drop code bytes; it is rejected instead.
    let syntax = SyntaxConfig::new(Theme(Vec::new()), highlight_names(), vec![String::from("c")]);
    let renderer = Renderer::new(&syntax);
    let gap = vec![HighlightEvent::Source { start: 1, end: 4 }];
    assert!(renderer.render("c", "abcd", &gap).is_err());
    let short = vec![HighlightEvent::Source { start: 0, end: 3 }];
    assert!(renderer.render("c", "abcd", &short).is_err());
    let empty: Vec<HighlightEvent> = Vec::new();
    assert!(renderer.render("c", "abcd", &empty).is_err());
    let full = vec![
        HighlightEvent::Source { start: 0, end: 2 },
        HighlightEvent::Source { start: 2, end: 4 },
    ];
    assert_eq!(renderer.render("c", "abcd", &full).unwrap(), "abcd");
}

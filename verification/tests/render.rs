use verin::events::{Alignment, CodeBlockKind, Event, LinkKind, Tag, TagEnd};
use verin::highlight::{HighlightEvent, SyntaxConfig};
use verin::html::write_html;
use verin::theme::{Color, Theme};
use verin::themes::highlight_names;

fn plain_config() -> SyntaxConfig {
    SyntaxConfig::new(Theme(Vec::new()), highlight_names(), Vec::new())
}

fn render(events: Vec<Event>) -> (String, Vec<verin::headings::HeadingInfo>) {
    let mut out = String::new();
    let streams: Vec<Vec<HighlightEvent>> = Vec::new();
    let headers = write_html(&events, &streams, &plain_config(), &mut out).unwrap();
    (out, headers)
}

fn heading(level: u8) -> Tag {
    Tag::Heading { level, classes: Vec::new(), attrs: Vec::new() }
}

#[test]
fn paragraph_roundtrip() {
    let (out, _) = render(vec![
        Event::Start(Tag::Paragraph),
        Event::Text(String::from("hello")),
        Event::End(TagEnd::Paragraph),
    ]);
    assert_eq!(out, "<p>hello</p>\n");
}

#[test]
fn text_is_escaped() {
    let (out, _) = render(vec![
        Event::Start(Tag::Paragraph),
        Event::Text(String::from("a<b&c>\"d'e")),
        Event::End(TagEnd::Paragraph),
    ]);
    assert_eq!(out, "<p>a&lt;b&amp;c&gt;&quot;d&#39;e</p>\n");
}

#[test]
fn heading_numbering_nested_levels() {
    // nominal levels [1,2,2,3,2] yield paths ["1","1.1","1.2","1.2.1","1.3"]
    let mut events = Vec::new();
    for (level, text) in [(1, "a"), (2, "b"), (2, "c"), (3, "d"), (2, "e")] {
        events.push(Event::Start(heading(level)));
        events.push(Event::Text(String::from(text)));
        events.push(Event::End(TagEnd::Heading(level)));
    }
    let (out, headers) = render(events);
    let numbers: Vec<&str> = headers.iter().map(|h| h.number.as_str()).collect();
    assert_eq!(numbers, vec!["1", "1.1", "1.2", "1.2.1", "1.3"]);
    assert!(out.contains("id=\"header-1.2.1\""));
    let levels: Vec<u8> = headers.iter().map(|h| h.level).collect();
    assert_eq!(levels, vec![1, 2, 2, 3, 2]);
}

#[test]
fn heading_numbering_floor() {
    // a document starting at nominal level 3 is depth 1; a later nominal
    // level 1 heading stays at the floor and becomes "2", not a parent.
    let mut events = Vec::new();
    for level in [3u8, 1u8] {
        events.push(Event::Start(heading(level)));
        events.push(Event::Text(String::from("t")));
        events.push(Event::End(TagEnd::Heading(level)));
    }
    let (_, headers) = render(events);
    let numbers: Vec<&str> = headers.iter().map(|h| h.number.as_str()).collect();
    assert_eq!(numbers, vec!["1", "2"]);
    assert_eq!(headers[0].level, 1);
    assert_eq!(headers[1].level, 1);
}

#[test]
fn heading_record_text_is_plain() {
    let events = vec![
        Event::Start(heading(1)),
        Event::Text(String::from("a ")),
        Event::Start(Tag::Emphasis),
        Event::Text(String::from("b<c")),
        Event::End(TagEnd::Emphasis),
        Event::End(TagEnd::Heading(1)),
    ];
    let (out, headers) = render(events);
    assert_eq!(headers[0].text, "a b&lt;c");
    assert!(out.starts_with("<h1 id=\"header-1\" >a <em>b&lt;c</em></h1>\n"));
}

#[test]
fn footnote_ordinals_first_seen() {
    // whichever site of a name comes first in document order takes the
    // next free ordinal; later sites reuse it.
    let events = vec![
        Event::Start(Tag::Paragraph),
        Event::FootnoteReference(String::from("x")),
        Event::FootnoteReference(String::from("y")),
        Event::FootnoteReference(String::from("x")),
        Event::End(TagEnd::Paragraph),
        Event::Start(Tag::FootnoteDefinition(String::from("y"))),
        Event::End(TagEnd::FootnoteDefinition),
        Event::Start(Tag::FootnoteDefinition(String::from("x"))),
        Event::End(TagEnd::FootnoteDefinition),
    ];
    let (out, _) = render(events);
    assert_eq!(
        out,
        "<p><sup class=\"footnote-reference\"><a href=\"#x\">1</a></sup><sup class=\"footnote-reference\"><a href=\"#y\">2</a></sup><sup class=\"footnote-reference\"><a href=\"#x\">1</a></sup></p>\n<div class=\"footnote-definition\" id=\"y\"><sup class=\"footnote-definition-label\">2</sup></div>\n<div class=\"footnote-definition\" id=\"x\"><sup class=\"footnote-definition-label\">1</sup></div>\n"
    );
}

#[test]
fn footnote_definition_first_keeps_ordinal() {
    let events = vec![
        Event::Start(Tag::FootnoteDefinition(String::from("x"))),
        Event::End(TagEnd::FootnoteDefinition),
        Event::Start(Tag::Paragraph),
        Event::FootnoteReference(String::from("x")),
        Event::End(TagEnd::Paragraph),
    ];
    let (out, _) = render(events);
    assert!(out.contains("footnote-definition-label\">1</sup>"));
    assert!(out.contains("<a href=\"#x\">1</a>"));
}

#[test]
fn table_alignment_styles_per_column() {
    // a 3-column table [Left, Unspecified, Right]: left style in column
    // 0, no style in column 1, right style in column 2, in every row.
    let mut events = vec![Event::Start(Tag::Table(vec![
        Alignment::Left,
        Alignment::Unspecified,
        Alignment::Right,
    ]))];
    events.push(Event::Start(Tag::TableHead));
    for t in ["h1", "h2", "h3"] {
        events.push(Event::Start(Tag::TableCell));
        events.push(Event::Text(String::from(t)));
        events.push(Event::End(TagEnd::TableCell));
    }
    events.push(Event::End(TagEnd::TableHead));
    events.push(Event::Start(Tag::TableRow));
    for t in ["b1", "b2", "b3"] {
        events.push(Event::Start(Tag::TableCell));
        events.push(Event::Text(String::from(t)));
        events.push(Event::End(TagEnd::TableCell));
    }
    events.push(Event::End(TagEnd::TableRow));
    events.push(Event::End(TagEnd::Table));
    let (out, _) = render(events);
    assert_eq!(
        out,
        "<table><thead><tr><th style=\"text-align: left\">h1</th><th>h2</th><th style=\"text-align: right\">h3</th></tr></thead><tbody>\n<tr><td style=\"text-align: left\">b1</td><td>b2</td><td style=\"text-align: right\">b3</td></tr>\n</tbody></table>\n"
    );
}

#[test]
fn unknown_language_falls_back_escaped() {
    // unknown code language: exactly the HTML-escaped bytes come through
    // with no style spans, wrapped only in the per-line marker.
    let events = vec![
        Event::Start(Tag::CodeBlock(CodeBlockKind::Fenced(String::from("brainfuck")))),
        Event::Text(String::from("+++")),
        Event::End(TagEnd::CodeBlock),
    ];
    let (out, _) = render(events);
    assert_eq!(
        out,
        "<pre style=\"background-color: #080808; color: #c6c6c6\"><code><span class=\"newline\">+++\n</span></code></pre>"
    );
    assert!(!out.contains("<span style"));
}

#[test]
fn unknown_language_text_is_escaped() {
    let events = vec![
        Event::Start(Tag::CodeBlock(CodeBlockKind::Fenced(String::from("brainfuck")))),
        Event::Text(String::from("if a < b && c > \"d\" {\n}\n")),
        Event::End(TagEnd::CodeBlock),
    ];
    let (out, _) = render(events);
    assert_eq!(
        out,
        "<pre style=\"background-color: #080808; color: #c6c6c6\"><code><span class=\"newline\">if a &lt; b &amp;&amp; c &gt; &quot;d&quot; {\n</span><span class=\"newline\">}\n</span></code></pre>"
    );
}

#[test]
fn known_language_renders_styled_spans() {
    let theme = Theme(vec![(
        String::from("keyword"),
        String::from("style=\"color: #d183e8\""),
    )]);
    let names = highlight_names();
    let keyword_idx = names.iter().position(|n| n == "keyword").unwrap();
    let syntax = SyntaxConfig::new(theme, names, vec![String::from("rust")]);
    let events = vec![
        Event::Start(Tag::CodeBlock(CodeBlockKind::Fenced(String::from("rust")))),
        Event::Text(String::from("fn main")),
        Event::End(TagEnd::CodeBlock),
    ];
    let streams = vec![vec![
        HighlightEvent::HighlightStart(keyword_idx),
        HighlightEvent::Source { start: 0, end: 2 },
        HighlightEvent::HighlightEnd,
        HighlightEvent::Source { start: 2, end: 7 },
    ]];
    let mut out = String::new();
    write_html(&events, &streams, &syntax, &mut out).unwrap();
    assert_eq!(
        out,
        "<pre style=\"background-color: #080808; color: #c6c6c6\"><code><span class=\"newline\"><span style=\"color: #d183e8\">fn</span> main\n</span></code></pre>"
    );
}

#[test]
fn missing_capture_stream_is_an_error() {
    let syntax = SyntaxConfig::new(Theme(Vec::new()), highlight_names(), vec![String::from("rust")]);
    let events = vec![
        Event::Start(Tag::CodeBlock(CodeBlockKind::Fenced(String::from("rust")))),
        Event::Text(String::from("fn")),
        Event::End(TagEnd::CodeBlock),
    ];
    let streams: Vec<Vec<HighlightEvent>> = Vec::new();
    let mut out = String::new();
    let r = write_html(&events, &streams, &syntax, &mut out);
    assert!(matches!(r, Err(verin::highlight::Error::MissingStream)));
}

#[test]
fn ill_formed_capture_stream_is_an_error() {
    let syntax = SyntaxConfig::new(Theme(Vec::new()), highlight_names(), vec![String::from("rust")]);
    let events = vec![
        Event::Start(Tag::CodeBlock(CodeBlockKind::Fenced(String::from("rust")))),
        Event::Text(String::from("fn")),
        Event::End(TagEnd::CodeBlock),
    ];
    let streams = vec![vec![HighlightEvent::HighlightEnd]];
    let mut out = String::new();
    let r = write_html(&events, &streams, &syntax, &mut out);
    assert!(matches!(r, Err(verin::highlight::Error::InvalidStream)));
}

#[test]
fn fence_info_takes_first_token() {
    let syntax = SyntaxConfig::new(Theme(Vec::new()), highlight_names(), vec![String::from("rust")]);
    let events = vec![
        Event::Start(Tag::CodeBlock(CodeBlockKind::Fenced(String::from("rust ignore")))),
        Event::Text(String::from("x")),
        Event::End(TagEnd::CodeBlock),
    ];
    // "rust ignore" resolves to the registered "rust": a stream is needed.
    let streams: Vec<Vec<HighlightEvent>> = Vec::new();
    let mut out = String::new();
    let r = write_html(&events, &streams, &syntax, &mut out);
    assert!(matches!(r, Err(verin::highlight::Error::MissingStream)));
}

#[test]
fn image_alt_text_drops_markup() {
    let events = vec![
        Event::Start(Tag::Paragraph),
        Event::Start(Tag::Image { dest_url: String::from("a.png"), title: String::from("t") }),
        Event::Text(String::from("alt ")),
        Event::Start(Tag::Emphasis),
        Event::Text(String::from("text")),
        Event::End(TagEnd::Emphasis),
        Event::End(TagEnd::Image),
        Event::End(TagEnd::Paragraph),
    ];
    let (out, _) = render(events);
    assert_eq!(out, "<p><img src=\"a.png\" alt=\"alt text\" title=\"t\" /></p>\n");
}

#[test]
fn email_link_gets_mailto() {
    let events = vec![
        Event::Start(Tag::Paragraph),
        Event::Start(Tag::Link {
            kind: LinkKind::Email,
            dest_url: String::from("a@b.c"),
            title: String::new(),
        }),
        Event::Text(String::from("mail")),
        Event::End(TagEnd::Link),
        Event::End(TagEnd::Paragraph),
    ];
    let (out, _) = render(events);
    assert_eq!(out, "<p><a href=\"mailto:a@b.c\">mail</a></p>\n");
}

#[test]
fn lists_rules_breaks_and_tasks() {
    let events = vec![
        Event::Start(Tag::List(Some(3))),
        Event::Start(Tag::Item),
        Event::TaskListMarker(true),
        Event::Text(String::from("one")),
        Event::End(TagEnd::Item),
        Event::End(TagEnd::List(true)),
        Event::Rule,
        Event::Start(Tag::Paragraph),
        Event::Text(String::from("a")),
        Event::HardBreak,
        Event::Text(String::from("b")),
        Event::SoftBreak,
        Event::Code(String::from("c<d")),
        Event::End(TagEnd::Paragraph),
    ];
    let (out, _) = render(events);
    assert_eq!(
        out,
        "<ol start=\"3\">\n<li><input disabled=\"\" type=\"checkbox\" checked=\"\"/>\none</li>\n</ol>\n<hr />\n<p>a<br />\nb\n<code>c&lt;d</code></p>\n"
    );
}

#[test]
fn metadata_block_is_silent() {
    let events = vec![
        Event::Start(Tag::MetadataBlock),
        Event::Text(String::from("title: hidden")),
        Event::End(TagEnd::MetadataBlock),
        Event::Start(Tag::Paragraph),
        Event::Text(String::from("shown")),
        Event::End(TagEnd::Paragraph),
    ];
    let (out, _) = render(events);
    assert_eq!(out, "<p>shown</p>\n");
}

#[test]
fn raw_html_passes_through() {
    let events = vec![
        Event::Start(Tag::HtmlBlock),
        Event::Html(String::from("<aside>raw</aside>\n")),
        Event::End(TagEnd::HtmlBlock),
    ];
    let (out, _) = render(events);
    assert_eq!(out, "<aside>raw</aside>\n");
}

#[test]
fn renders_are_deterministic() {
    let events = vec![
        Event::Start(heading(2)),
        Event::Text(String::from("title")),
        Event::End(TagEnd::Heading(2)),
        Event::Start(Tag::Paragraph),
        Event::Text(String::from("body & more")),
        Event::End(TagEnd::Paragraph),
    ];
    let mut out1 = String::new();
    let mut out2 = String::new();
    let streams: Vec<Vec<HighlightEvent>> = Vec::new();
    let h1 = write_html(&events, &streams, &plain_config(), &mut out1).unwrap();
    let h2 = write_html(&events, &streams, &plain_config(), &mut out2).unwrap();
    assert_eq!(out1, out2);
    assert_eq!(h1.len(), h2.len());
    for (a, b) in h1.iter().zip(h2.iter()) {
        assert_eq!(a.level, b.level);
        assert_eq!(a.text, b.text);
        assert_eq!(a.number, b.number);
    }
}

#[test]
fn blockquote_and_indented_code() {
    let events = vec![
        Event::Start(Tag::BlockQuote),
        Event::Start(Tag::Paragraph),
        Event::Text(String::from("q")),
        Event::End(TagEnd::Paragraph),
        Event::End(TagEnd::BlockQuote),
        Event::Start(Tag::CodeBlock(CodeBlockKind::Indented)),
        Event::Text(String::from("let x;")),
        Event::End(TagEnd::CodeBlock),
    ];
    let (out, _) = render(events);
    assert_eq!(out, "<blockquote>\n<p>q</p>\n</blockquote>\n<pre><code>let x;</code></pre>");
}

#[test]
fn fenced_code_without_language_is_escaped() {
    let events = vec![
        Event::Start(Tag::CodeBlock(CodeBlockKind::Fenced(String::new()))),
        Event::Text(String::from("a<b\n")),
        Event::End(TagEnd::CodeBlock),
    ];
    let (out, _) = render(events);
    assert_eq!(
        out,
        "<pre style=\"background-color: #080808; color: #c6c6c6\"><code>a&lt;b\n</code></pre>"
    );
}

#[test]
fn heading_classes_and_attrs_serialize() {
    let events = vec![
        Event::Start(Tag::Heading {
            level: 2,
            classes: vec![String::from("wide"), String::from("x<y")],
            attrs: vec![
                (String::from("data-k"), Some(String::from("v\"w"))),
                (String::from("hidden"), None),
            ],
        }),
        Event::Text(String::from("t")),
        Event::End(TagEnd::Heading(2)),
    ];
    let (out, headers) = render(events);
    assert_eq!(
        out,
        "<h2 id=\"header-1\"  class=\"wide x&lt;y\" data-k=\"v&quot;w\" hidden=\"\">t</h2>\n"
    );
    assert_eq!(headers[0].number, "1");
}

#[test]
fn each_code_text_run_consumes_one_stream() {
    let names = highlight_names();
    let idx = names.iter().position(|n| n == "string").unwrap();
    let theme = Theme(vec![(String::from("string"), String::from("s"))]);
    let syntax = SyntaxConfig::new(theme, names, vec![String::from("rust")]);
    let events = vec![
        Event::Start(Tag::CodeBlock(CodeBlockKind::Fenced(String::from("rust")))),
        Event::Text(String::from("ab")),
        Event::Text(String::from("cd")),
        Event::End(TagEnd::CodeBlock),
    ];
    let streams = vec![
        vec![
            HighlightEvent::HighlightStart(idx),
            HighlightEvent::Source { start: 0, end: 2 },
            HighlightEvent::HighlightEnd,
        ],
        vec![HighlightEvent::Source { start: 0, end: 2 }],
    ];
    let mut out = String::new();
    write_html(&events, &streams, &syntax, &mut out).unwrap();
    assert_eq!(
        out,
        "<pre style=\"background-color: #080808; color: #c6c6c6\"><code><span class=\"newline\"><span s>ab</span>\n</span><span class=\"newline\">cd\n</span></code></pre>"
    );
}

#[test]
fn link_with_title_and_unsafe_href() {
    let events = vec![
        Event::Start(Tag::Paragraph),
        Event::Start(Tag::Link {
            kind: LinkKind::Other,
            dest_url: String::from("a b<c"),
            title: String::from("t&t"),
        }),
        Event::Text(String::from("x")),
        Event::End(TagEnd::Link),
        Event::End(TagEnd::Paragraph),
    ];
    let (out, _) = render(events);
    assert_eq!(out, "<p><a href=\"a%20b%3Cc\" title=\"t&amp;t\">x</a></p>\n");
}

#[test]
fn crlf_code_lines_drop_the_carriage_return() {
    // CRLF-terminated code lines keep no stray carriage return inside
    // the per-line spans; a final unterminated line is kept whole.
    let events = vec![
        Event::Start(Tag::CodeBlock(CodeBlockKind::Fenced(String::from("brainfuck")))),
        Event::Text(String::from("a\r\nb")),
        Event::End(TagEnd::CodeBlock),
    ];
    let (out, _) = render(events);
    assert_eq!(
        out,
        "<pre style=\"background-color: #080808; color: #c6c6c6\"><code><span class=\"newline\">a\n</span><span class=\"newline\">b\n</span></code></pre>"
    );
}

use verin::highlight::{Renderer, SyntaxConfig};
use verin::pattern::pattern_match;
use verin::predicate::{
    accept, contains_str, events_of_captures, filter_matches, node_text, parse_pattern,
    parse_predicate, render_matches, Capture, CaptureMatch, NodeBinding, Predicate, QueryError,
    QueryMatch,
};
use verin::theme::Theme;
use verin::themes::highlight_names;

fn pat(s: &str) -> verin::pattern::Pattern {
    parse_pattern(s).unwrap()
}

#[test]
fn lua_match_classes_and_quantifiers() {
    assert!(pattern_match(&pat("%d+"), "abc123"));
    assert!(!pattern_match(&pat("%d+"), "abc"));
    assert!(pattern_match(&pat("^%a%w*$"), "name42"));
    assert!(!pattern_match(&pat("^%a%w*$"), "9name"));
    assert!(pattern_match(&pat("a.c"), "xabcx"));
    assert!(pattern_match(&pat("colou?r"), "color"));
    assert!(pattern_match(&pat("colou?r"), "colour"));
    assert!(pattern_match(&pat("a-b"), "b"));
    assert!(pattern_match(&pat("%s"), "a b"));
    assert!(!pattern_match(&pat("%s"), "ab"));
    assert!(pattern_match(&pat("%%"), "50%"));
}

#[test]
fn lua_match_sets_and_anchors() {
    assert!(pattern_match(&pat("^[A-Z][A-Z%d_]+$"), "SCREAMING_CASE2"));
    assert!(!pattern_match(&pat("^[A-Z][A-Z%d_]+$"), "lower_case"));
    assert!(pattern_match(&pat("[^abc]"), "d"));
    assert!(!pattern_match(&pat("[^abc]"), "b"));
    assert!(pattern_match(&pat("x$"), "max"));
    assert!(!pattern_match(&pat("x$"), "xam"));
    // capture parentheses are transparent for the yes/no answer
    assert!(pattern_match(&pat("(%d+)%.(%d+)"), "pi is 3.14"));
}

#[test]
fn parse_pattern_rejects_backrefs_and_unclosed_sets() {
    assert!(parse_pattern("%1").is_none());
    assert!(parse_pattern("[abc").is_none());
    assert!(parse_pattern("abc%").is_none());
    assert!(parse_pattern("ok").is_some());
}

#[test]
fn contains_finds_substrings() {
    assert!(contains_str("hello world", "o wo"));
    assert!(contains_str("hello", ""));
    assert!(!contains_str("hello", "world"));
    assert!(!contains_str("ab", "abc"));
}

#[test]
fn node_text_concatenates_chunks() {
    let chunks = vec![String::from("ab"), String::new(), String::from("cd")];
    assert_eq!(node_text(&chunks), "abcd");
}

#[test]
fn accept_applies_every_predicate_to_bound_nodes() {
    let m = QueryMatch {
        nodes: vec![
            NodeBinding { capture: 0, chunks: vec![String::from("CONST")] },
            NodeBinding { capture: 1, chunks: vec![String::from("other")] },
        ],
    };
    let yes = vec![Predicate::LuaMatch { capture: 0, pattern: pat("^[A-Z]+$") }];
    assert!(accept(&yes, &m));
    let no = vec![Predicate::LuaMatch { capture: 1, pattern: pat("^[A-Z]+$") }];
    assert!(!accept(&no, &m));
    let has = vec![Predicate::Contains {
        capture: 0,
        literals: vec![String::from("ON"), String::from("ST")],
    }];
    assert!(accept(&has, &m));
    let lacks = vec![Predicate::Contains { capture: 0, literals: vec![String::from("xx")] }];
    assert!(!accept(&lacks, &m));
}

#[test]
fn parse_predicate_vocabulary_is_closed() {
    let args = vec![String::from("^x$")];
    assert!(matches!(
        parse_predicate("lua-match?", 0, &args),
        Ok(Predicate::LuaMatch { capture: 0, .. })
    ));
    assert!(matches!(
        parse_predicate("contains?", 2, &args),
        Ok(Predicate::Contains { capture: 2, .. })
    ));
    assert!(matches!(
        parse_predicate("set!", 0, &args),
        Err(QueryError::UnsupportedPredicate)
    ));
    assert!(matches!(
        parse_predicate("is-not?", 0, &args),
        Err(QueryError::UnsupportedPredicate)
    ));
    let none: Vec<String> = Vec::new();
    assert!(matches!(
        parse_predicate("lua-match?", 0, &none),
        Err(QueryError::MissingArgument)
    ));
    assert!(matches!(
        parse_predicate("lua-match?", 0, &vec![String::from("%1")]),
        Err(QueryError::MalformedPattern)
    ));
}

fn capture_match(category: usize, start: usize, end: usize, text: &str, pattern: &str) -> CaptureMatch {
    CaptureMatch {
        capture: Capture { category, start, end },
        predicates: vec![Predicate::LuaMatch { capture: 0, pattern: pat(pattern) }],
        bindings: QueryMatch {
            nodes: vec![NodeBinding { capture: 0, chunks: vec![String::from(text)] }],
        },
    }
}

#[test]
fn rejected_capture_contributes_no_spans() {
    // a lua-match? predicate rejecting the capture leaves the text
    // rendered, unstyled: the output equals the capture-free rendering.
    let names = highlight_names();
    let keyword_idx = names.iter().position(|n| n == "keyword").unwrap();
    let theme = Theme(vec![(String::from("keyword"), String::from("style=\"color: #ff5454\""))]);
    let syntax = SyntaxConfig::new(theme, names, vec![String::from("rust")]);
    let renderer = Renderer::new(&syntax);

    let text = "fn main";
    let rejected = vec![capture_match(keyword_idx, 0, 2, "fn", "^[A-Z]+$")];
    let out = render_matches(&renderer, "rust", text, &rejected).unwrap();
    let none: Vec<CaptureMatch> = Vec::new();
    let out_plain = render_matches(&renderer, "rust", text, &none).unwrap();
    assert_eq!(out, out_plain);
    assert!(!out.contains("<span style"));
    assert!(out.contains("fn main"));

    // the same capture accepted does produce a styled span
    let accepted = vec![capture_match(keyword_idx, 0, 2, "fn", "^[a-z]+$")];
    let styled = render_matches(&renderer, "rust", text, &accepted).unwrap();
    assert_eq!(styled, "<span style=\"color: #ff5454\">fn</span> main");
}

#[test]
fn filter_and_events_shape() {
    let kept = filter_matches(&vec![capture_match(3, 1, 2, "x", "x")]);
    assert_eq!(kept.len(), 1);
    let evs = events_of_captures(&kept, 5);
    assert_eq!(evs.len(), 5);
}

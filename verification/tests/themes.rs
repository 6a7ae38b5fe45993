use verin::theme::{
    resolve_group, resolve_theme, theme_coverage_warnings, Color, Group, Resolution, Theme,
};
use verin::themes::{
    highlight_names, moonfly_colors, moonfly_theme, tokyo_night_groups, tokyo_night_ignore,
    tokyo_night_theme,
};

fn g(k: &str, v: Group) -> (String, Group) {
    (String::from(k), v)
}

#[test]
fn alias_chain_resolves_to_concrete_style() {
    // A -> B -> C -> concrete style resolves A to that style
    let groups = vec![
        g("A", Group::Link(String::from("B"))),
        g("B", Group::Link(String::from("C"))),
        g("C", Group::Color(String::from("#123456"))),
        g("N", Group::NoStyle),
    ];
    assert!(matches!(resolve_group(&groups, "A"), Resolution::Style(s) if s == "#123456"));
    assert!(matches!(resolve_group(&groups, "C"), Resolution::Style(s) if s == "#123456"));
    assert!(matches!(resolve_group(&groups, "N"), Resolution::Unstyled));
    assert!(matches!(resolve_group(&groups, "missing"), Resolution::Undefined));
}

#[test]
fn cyclic_alias_graph_is_reported_not_followed() {
    // a cycle is a build-time defect of the theme; resolution reports it
    // instead of looping.
    let groups = vec![
        g("A", Group::Link(String::from("B"))),
        g("B", Group::Link(String::from("A"))),
    ];
    assert!(matches!(resolve_group(&groups, "A"), Resolution::TooDeep));
}

#[test]
fn from_colors_formats_style_attribute() {
    let colors = Color(vec![(String::from("keyword"), String::from("#d183e8"))]);
    let theme = Theme::from_colors(&colors);
    assert_eq!(theme.get("keyword").unwrap(), "style=\"color: #d183e8\"");
    assert!(theme.get("comment").is_none());
}

#[test]
fn resolve_theme_sorts_categories() {
    let groups = vec![
        g("Base", Group::Color(String::from("#111111"))),
        g("@keyword", Group::Link(String::from("Base"))),
        g("@comment", Group::NoStyle),
        g("@broken", Group::Link(String::from("nowhere"))),
        g("plain", Group::Color(String::from("#222222"))),
    ];
    let build = resolve_theme(&groups);
    assert_eq!(build.colors.0.len(), 1);
    assert_eq!(build.colors.0[0].0, "keyword");
    assert_eq!(build.colors.0[0].1, "#111111");
    assert_eq!(build.unstyled, vec![String::from("comment")]);
    assert_eq!(build.unresolved, vec![String::from("broken")]);
}

#[test]
fn coverage_lint_reports_forgotten_names() {
    let colors = Color(vec![(String::from("a"), String::from("#1"))]);
    let ignore = vec![String::from("b")];
    let names = vec![String::from("a"), String::from("b"), String::from("c")];
    let warn = theme_coverage_warnings(&colors, &ignore, &names);
    assert_eq!(warn, vec![String::from("c")]);
}

#[test]
fn bundled_vocabulary_and_palettes() {
    assert_eq!(highlight_names().len(), 61);
    assert_eq!(moonfly_colors().0.len(), 62);
    assert_eq!(tokyo_night_groups().len(), 103);
    assert_eq!(tokyo_night_ignore().len(), 26);
}

#[test]
fn bundled_themes_resolve_known_categories() {
    let moonfly = moonfly_theme();
    assert_eq!(moonfly.get("string").unwrap(), "style=\"color: #c2c292\"");
    assert_eq!(moonfly.get("error").unwrap(), "style=\"color: #ff5454\"");
    let tokyo = tokyo_night_theme();
    assert_eq!(tokyo.get("keyword").unwrap(), "style=\"color: #9d7cd8\"");
    // an alias chain inside the bundled graph: @number -> Number ->
    // Constant -> orange
    assert_eq!(tokyo.get("number").unwrap(), "style=\"color: #ff9e64\"");
}

//! The built-in highlight vocabulary and the two bundled themes.
//!
//! The vocabulary is the fixed, closed set of highlight category names the
//! capture streams index into. Each theme is plain data, pinned entry for
//! entry by the spec-level tables below: one is a flat palette, the other
//! an alias graph resolved through the theme graph machinery.

use vstd::prelude::*;
use crate::theme::{
    Color, Group, GroupModel, Theme, ThemeBuild, graph_view, names_view, pairs_view,
    resolve_theme, resolved_colors, styled_pairs,
};

verus! {

fn pair(k: &str, v: &str) -> (r: (String, String))
    ensures
        r.0@ == k@,
        r.1@ == v@,
{
    (String::from_str(k), String::from_str(v))
}

fn gcol(k: &str, v: &str) -> (r: (String, Group))
    ensures
        r.0@ == k@,
        r.1 matches Group::Color(c) && c@ == v@,
{
    (String::from_str(k), Group::Color(String::from_str(v)))
}

fn glink(k: &str, v: &str) -> (r: (String, Group))
    ensures
        r.0@ == k@,
        r.1 matches Group::Link(l) && l@ == v@,
{
    (String::from_str(k), Group::Link(String::from_str(v)))
}

fn gnone(k: &str) -> (r: (String, Group))
    ensures
        r.0@ == k@,
        r.1 is NoStyle,
{
    (String::from_str(k), Group::NoStyle)
}

pub open spec fn vocab_chunk1() -> Seq<Seq<char>> {
    seq![
        "annotation"@,
        "attribute"@,
        "constant"@,
        "constant.builtin"@,
        "constant.macro"@,
        "constructor"@,
        "function.builtin"@,
        "function.macro"@,
        "include"@,
        "keyword.operator"@,
        "namespace"@,
        "parameter"@,
        "punctuation.special"@,
        "symbol"@,
        "tag"@,
        "tag.delimiter"@,
    ]
}

pub open spec fn vocab_chunk2() -> Seq<Seq<char>> {
    seq![
        "variable.builtin"@,
        "string"@,
        "number"@,
        "label"@,
        "boolean"@,
        "character"@,
        "character.special"@,
        "comment"@,
        "conditional"@,
        "debug"@,
        "define"@,
        "error"@,
        "exception"@,
        "field"@,
        "float"@,
        "function"@,
    ]
}

pub open spec fn vocab_chunk3() -> Seq<Seq<char>> {
    seq![
        "function.call"@,
        "keyword"@,
        "keyword.function"@,
        "keyword.return"@,
        "method"@,
        "method.call"@,
        "operator"@,
        "parameter.reference"@,
        "preproc"@,
        "property"@,
        "punctuation.delimiter"@,
        "punctuation.bracket"@,
        "repeat"@,
        "storageclass"@,
        "string.regex"@,
        "string.escape"@,
    ]
}

pub open spec fn vocab_chunk4() -> Seq<Seq<char>> {
    seq![
        "string.special"@,
        "tag.attribute"@,
        "title"@,
        "text.literal"@,
        "text.math"@,
        "text.reference"@,
        "text.environment"@,
        "text.environment.name"@,
        "text.note"@,
        "type"@,
        "type.builtin"@,
        "type.qualifier"@,
        "type.definition"@,
    ]
}

/// The fixed highlight category vocabulary, in capture-index order.
pub open spec fn vocabulary() -> Seq<Seq<char>> {
    vocab_chunk1() + vocab_chunk2() + vocab_chunk3() + vocab_chunk4()
}

fn vocab_part1(v: &mut Vec<String>)
    ensures
        names_view(final(v)@) == names_view(old(v)@) + vocab_chunk1(),
{
    v.push(String::from_str("annotation"));
    v.push(String::from_str("attribute"));
    v.push(String::from_str("constant"));
    v.push(String::from_str("constant.builtin"));
    v.push(String::from_str("constant.macro"));
    v.push(String::from_str("constructor"));
    v.push(String::from_str("function.builtin"));
    v.push(String::from_str("function.macro"));
    v.push(String::from_str("include"));
    v.push(String::from_str("keyword.operator"));
    v.push(String::from_str("namespace"));
    v.push(String::from_str("parameter"));
    v.push(String::from_str("punctuation.special"));
    v.push(String::from_str("symbol"));
    v.push(String::from_str("tag"));
    v.push(String::from_str("tag.delimiter"));
    proof {
        assert(names_view(v@) =~= names_view(old(v)@) + vocab_chunk1());
    }
}

fn vocab_part2(v: &mut Vec<String>)
    ensures
        names_view(final(v)@) == names_view(old(v)@) + vocab_chunk2(),
{
    v.push(String::from_str("variable.builtin"));
    v.push(String::from_str("string"));
    v.push(String::from_str("number"));
    v.push(String::from_str("label"));
    v.push(String::from_str("boolean"));
    v.push(String::from_str("character"));
    v.push(String::from_str("character.special"));
    v.push(String::from_str("comment"));
    v.push(String::from_str("conditional"));
    v.push(String::from_str("debug"));
    v.push(String::from_str("define"));
    v.push(String::from_str("error"));
    v.push(String::from_str("exception"));
    v.push(String::from_str("field"));
    v.push(String::from_str("float"));
    v.push(String::from_str("function"));
    proof {
        assert(names_view(v@) =~= names_view(old(v)@) + vocab_chunk2());
    }
}

fn vocab_part3(v: &mut Vec<String>)
    ensures
        names_view(final(v)@) == names_view(old(v)@) + vocab_chunk3(),
{
    v.push(String::from_str("function.call"));
    v.push(String::from_str("keyword"));
    v.push(String::from_str("keyword.function"));
    v.push(String::from_str("keyword.return"));
    v.push(String::from_str("method"));
    v.push(String::from_str("method.call"));
    v.push(String::from_str("operator"));
    v.push(String::from_str("parameter.reference"));
    v.push(String::from_str("preproc"));
    v.push(String::from_str("property"));
    v.push(String::from_str("punctuation.delimiter"));
    v.push(String::from_str("punctuation.bracket"));
    v.push(String::from_str("repeat"));
    v.push(String::from_str("storageclass"));
    v.push(String::from_str("string.regex"));
    v.push(String::from_str("string.escape"));
    proof {
        assert(names_view(v@) =~= names_view(old(v)@) + vocab_chunk3());
    }
}

fn vocab_part4(v: &mut Vec<String>)
    ensures
        names_view(final(v)@) == names_view(old(v)@) + vocab_chunk4(),
{
    v.push(String::from_str("string.special"));
    v.push(String::from_str("tag.attribute"));
    v.push(String::from_str("title"));
    v.push(String::from_str("text.literal"));
    v.push(String::from_str("text.math"));
    v.push(String::from_str("text.reference"));
    v.push(String::from_str("text.environment"));
    v.push(String::from_str("text.environment.name"));
    v.push(String::from_str("text.note"));
    v.push(String::from_str("type"));
    v.push(String::from_str("type.builtin"));
    v.push(String::from_str("type.qualifier"));
    v.push(String::from_str("type.definition"));
    proof {
        assert(names_view(v@) =~= names_view(old(v)@) + vocab_chunk4());
    }
}

/// The fixed highlight category vocabulary, in capture-index order.
pub fn highlight_names() -> (r: Vec<String>)
    ensures
        names_view(r@) == vocabulary(),
{
    let mut v: Vec<String> = Vec::new();
    vocab_part1(&mut v);
    vocab_part2(&mut v);
    vocab_part3(&mut v);
    vocab_part4(&mut v);
    proof {
        assert(names_view(v@) =~= vocabulary());
    }
    v
}

pub open spec fn moonfly_chunk1() -> Seq<(Seq<char>, Seq<char>)> {
    seq![
        ("annotation"@, "#d183e8"@),
        ("attribute"@, "#74b2ff"@),
        ("constant"@, "#79dac8"@),
        ("constant.builtin"@, "#8cc85f"@),
        ("constant.macro"@, "#d183e8"@),
        ("constructor"@, "#36c692"@),
        ("function.builtin"@, "#74b2ff"@),
        ("function.macro"@, "#74b2ff"@),
        ("include"@, "#e2637f"@),
        ("keyword.operator"@, "#d183e8"@),
        ("namespace"@, "#79dac8"@),
        ("parameter"@, "#c6c6c6"@),
        ("punctuation.special"@, "#e2637f"@),
        ("symbol"@, "#ae81ff"@),
        ("tag"@, "#80a0ff"@),
        ("tag.delimiter"@, "#85dc85"@),
    ]
}

pub open spec fn moonfly_chunk2() -> Seq<(Seq<char>, Seq<char>)> {
    seq![
        ("variable.builtin"@, "#85dc85"@),
        ("string"@, "#c2c292"@),
        ("number"@, "#de935f"@),
        ("label"@, "#79dac8"@),
        ("boolean"@, "#f09479"@),
        ("character"@, "#ae81ff"@),
        ("character.special"@, "#e2637f"@),
        ("comment"@, "#949494"@),
        ("conditional"@, "#d183e8"@),
        ("keyword.conditional"@, "#d183e8"@),
        ("debug"@, "#e2637f"@),
        ("define"@, "#e2637f"@),
        ("error"@, "#ff5454"@),
        ("exception"@, "#ff5189"@),
        ("field"@, "#79dac8"@),
        ("float"@, "#de935f"@),
    ]
}

pub open spec fn moonfly_chunk3() -> Seq<(Seq<char>, Seq<char>)> {
    seq![
        ("function"@, "#74b2ff"@),
        ("function.call"@, "#74b2ff"@),
        ("keyword"@, "#d183e8"@),
        ("keyword.function"@, "#d183e8"@),
        ("keyword.return"@, "#d183e8"@),
        ("method"@, "#74b2ff"@),
        ("method.call"@, "#74b2ff"@),
        ("operator"@, "#e2637f"@),
        ("parameter.reference"@, "#c6c6c6"@),
        ("preproc"@, "#e2637f"@),
        ("property"@, "#79dac8"@),
        ("punctuation.delimiter"@, "#c6c6c6"@),
        ("punctuation.bracket"@, "#c6c6c6"@),
        ("repeat"@, "#d183e8"@),
        ("storageclass"@, "#f09479"@),
        ("string.regex"@, "#c2c292"@),
    ]
}

pub open spec fn moonfly_chunk4() -> Seq<(Seq<char>, Seq<char>)> {
    seq![
        ("string.escape"@, "#e2637f"@),
        ("string.special"@, "#e2637f"@),
        ("tag.attribute"@, "#79dac8"@),
        ("title"@, "#de935f"@),
        ("text.literal"@, "#c2c292"@),
        ("text.math"@, "#e2637f"@),
        ("text.reference"@, "#de935f"@),
        ("text.environment"@, "#e2637f"@),
        ("text.environment.name"@, "#36c692"@),
        ("text.note"@, "#e2637f"@),
        ("type"@, "#36c692"@),
        ("type.builtin"@, "#36c692"@),
        ("type.qualifier"@, "#36c692"@),
        ("type.definition"@, "#36c692"@),
    ]
}

/// The flat palette of the first bundled theme, entry for entry.
pub open spec fn moonfly_palette() -> Seq<(Seq<char>, Seq<char>)> {
    moonfly_chunk1() + moonfly_chunk2() + moonfly_chunk3() + moonfly_chunk4()
}

fn moonfly_part1(v: &mut Vec<(String, String)>)
    ensures
        pairs_view(final(v)@) == pairs_view(old(v)@) + moonfly_chunk1(),
{
    v.push(pair("annotation", "#d183e8"));
    v.push(pair("attribute", "#74b2ff"));
    v.push(pair("constant", "#79dac8"));
    v.push(pair("constant.builtin", "#8cc85f"));
    v.push(pair("constant.macro", "#d183e8"));
    v.push(pair("constructor", "#36c692"));
    v.push(pair("function.builtin", "#74b2ff"));
    v.push(pair("function.macro", "#74b2ff"));
    v.push(pair("include", "#e2637f"));
    v.push(pair("keyword.operator", "#d183e8"));
    v.push(pair("namespace", "#79dac8"));
    v.push(pair("parameter", "#c6c6c6"));
    v.push(pair("punctuation.special", "#e2637f"));
    v.push(pair("symbol", "#ae81ff"));
    v.push(pair("tag", "#80a0ff"));
    v.push(pair("tag.delimiter", "#85dc85"));
    proof {
        assert(pairs_view(v@) =~= pairs_view(old(v)@) + moonfly_chunk1());
    }
}

fn moonfly_part2(v: &mut Vec<(String, String)>)
    ensures
        pairs_view(final(v)@) == pairs_view(old(v)@) + moonfly_chunk2(),
{
    v.push(pair("variable.builtin", "#85dc85"));
    v.push(pair("string", "#c2c292"));
    v.push(pair("number", "#de935f"));
    v.push(pair("label", "#79dac8"));
    v.push(pair("boolean", "#f09479"));
    v.push(pair("character", "#ae81ff"));
    v.push(pair("character.special", "#e2637f"));
    v.push(pair("comment", "#949494"));
    v.push(pair("conditional", "#d183e8"));
    v.push(pair("keyword.conditional", "#d183e8"));
    v.push(pair("debug", "#e2637f"));
    v.push(pair("define", "#e2637f"));
    v.push(pair("error", "#ff5454"));
    v.push(pair("exception", "#ff5189"));
    v.push(pair("field", "#79dac8"));
    v.push(pair("float", "#de935f"));
    proof {
        assert(pairs_view(v@) =~= pairs_view(old(v)@) + moonfly_chunk2());
    }
}

fn moonfly_part3(v: &mut Vec<(String, String)>)
    ensures
        pairs_view(final(v)@) == pairs_view(old(v)@) + moonfly_chunk3(),
{
    v.push(pair("function", "#74b2ff"));
    v.push(pair("function.call", "#74b2ff"));
    v.push(pair("keyword", "#d183e8"));
    v.push(pair("keyword.function", "#d183e8"));
    v.push(pair("keyword.return", "#d183e8"));
    v.push(pair("method", "#74b2ff"));
    v.push(pair("method.call", "#74b2ff"));
    v.push(pair("operator", "#e2637f"));
    v.push(pair("parameter.reference", "#c6c6c6"));
    v.push(pair("preproc", "#e2637f"));
    v.push(pair("property", "#79dac8"));
    v.push(pair("punctuation.delimiter", "#c6c6c6"));
    v.push(pair("punctuation.bracket", "#c6c6c6"));
    v.push(pair("repeat", "#d183e8"));
    v.push(pair("storageclass", "#f09479"));
    v.push(pair("string.regex", "#c2c292"));
    proof {
        assert(pairs_view(v@) =~= pairs_view(old(v)@) + moonfly_chunk3());
    }
}

fn moonfly_part4(v: &mut Vec<(String, String)>)
    ensures
        pairs_view(final(v)@) == pairs_view(old(v)@) + moonfly_chunk4(),
{
    v.push(pair("string.escape", "#e2637f"));
    v.push(pair("string.special", "#e2637f"));
    v.push(pair("tag.attribute", "#79dac8"));
    v.push(pair("title", "#de935f"));
    v.push(pair("text.literal", "#c2c292"));
    v.push(pair("text.math", "#e2637f"));
    v.push(pair("text.reference", "#de935f"));
    v.push(pair("text.environment", "#e2637f"));
    v.push(pair("text.environment.name", "#36c692"));
    v.push(pair("text.note", "#e2637f"));
    v.push(pair("type", "#36c692"));
    v.push(pair("type.builtin", "#36c692"));
    v.push(pair("type.qualifier", "#36c692"));
    v.push(pair("type.definition", "#36c692"));
    proof {
        assert(pairs_view(v@) =~= pairs_view(old(v)@) + moonfly_chunk4());
    }
}

/// The flat palette of the first bundled theme.
pub fn moonfly_colors() -> (r: Color)
    ensures
        pairs_view(r.0@) == moonfly_palette(),
{
    let mut v: Vec<(String, String)> = Vec::new();
    moonfly_part1(&mut v);
    moonfly_part2(&mut v);
    moonfly_part3(&mut v);
    moonfly_part4(&mut v);
    proof {
        assert(pairs_view(v@) =~= moonfly_palette());
    }
    Color(v)
}

pub open spec fn tokyo_chunk1() -> Seq<(Seq<char>, GroupModel)> {
    seq![
        ("Comment"@, GroupModel::Color("#565f89"@)),
        ("DiffAdd"@, GroupModel::NoStyle),
        ("DiffChange"@, GroupModel::NoStyle),
        ("DiffDelete"@, GroupModel::NoStyle),
        ("Title"@, GroupModel::Color("#7aa2f7"@)),
        ("Constant"@, GroupModel::Color("#ff9e64"@)),
        ("String"@, GroupModel::Color("#9ece6a"@)),
        ("Character"@, GroupModel::Color("#9ece6a"@)),
        ("Number"@, GroupModel::Link("Constant"@)),
        ("Boolean"@, GroupModel::Link("Constant"@)),
        ("Float"@, GroupModel::Link("Number"@)),
        ("Identifier"@, GroupModel::Color("#bb9af7"@)),
        ("Function"@, GroupModel::Color("#7aa2f7"@)),
        ("PreProc"@, GroupModel::Color("#7dcfff"@)),
        ("Include"@, GroupModel::Link("PreProc"@)),
        ("Define"@, GroupModel::Link("PreProc"@)),
    ]
}

pub open spec fn tokyo_chunk2() -> Seq<(Seq<char>, GroupModel)> {
    seq![
        ("Macro"@, GroupModel::Link("PreProc"@)),
        ("Type"@, GroupModel::Color("#2ac3de"@)),
        ("StorageClass"@, GroupModel::Link("Type"@)),
        ("Typedef"@, GroupModel::Link("Type"@)),
        ("Statement"@, GroupModel::Color("#bb9af7"@)),
        ("Conditional"@, GroupModel::Link("Statement"@)),
        ("Repeat"@, GroupModel::Link("Statement"@)),
        ("Label"@, GroupModel::Link("Statement"@)),
        ("Exception"@, GroupModel::Link("Statement"@)),
        ("Special"@, GroupModel::Color("#2ac3de"@)),
        ("SpecialChar"@, GroupModel::Link("Special"@)),
        ("Delimiter"@, GroupModel::Link("Special"@)),
        ("Debug"@, GroupModel::Color("#ff9e64"@)),
        ("@annotation"@, GroupModel::Link("PreProc"@)),
        ("@attribute"@, GroupModel::Link("PreProc"@)),
        ("@boolean"@, GroupModel::Link("Boolean"@)),
    ]
}

pub open spec fn tokyo_chunk3() -> Seq<(Seq<char>, GroupModel)> {
    seq![
        ("@character"@, GroupModel::Link("Character"@)),
        ("@character.special"@, GroupModel::Link("SpecialChar"@)),
        ("@comment"@, GroupModel::Link("Comment"@)),
        ("@keyword.conditional"@, GroupModel::Link("Conditional"@)),
        ("@constant"@, GroupModel::Link("Constant"@)),
        ("@constant.builtin"@, GroupModel::Link("Special"@)),
        ("@constant.macro"@, GroupModel::Link("Define"@)),
        ("@keyword.debug"@, GroupModel::Link("Debug"@)),
        ("@keyword.directive.define"@, GroupModel::Link("Define"@)),
        ("@keyword.exception"@, GroupModel::Link("Exception"@)),
        ("@number.float"@, GroupModel::Link("Float"@)),
        ("@function"@, GroupModel::Link("Function"@)),
        ("@function.builtin"@, GroupModel::Link("Special"@)),
        ("@function.call"@, GroupModel::Link("@function"@)),
        ("@function.macro"@, GroupModel::Link("Macro"@)),
        ("@keyword.import"@, GroupModel::Link("Include"@)),
    ]
}

pub open spec fn tokyo_chunk4() -> Seq<(Seq<char>, GroupModel)> {
    seq![
        ("@keyword.coroutine"@, GroupModel::Link("@keyword"@)),
        ("@keyword.operator"@, GroupModel::Link("@operator"@)),
        ("@keyword.return"@, GroupModel::Link("@keyword"@)),
        ("@function.method"@, GroupModel::Link("Function"@)),
        ("@function.method.call"@, GroupModel::Link("@function.method"@)),
        ("@namespace.builtin"@, GroupModel::Link("@variable.builtin"@)),
        ("@none"@, GroupModel::NoStyle),
        ("@number"@, GroupModel::Link("Number"@)),
        ("@keyword.directive"@, GroupModel::Link("PreProc"@)),
        ("@keyword.repeat"@, GroupModel::Link("Repeat"@)),
        ("@keyword.storage"@, GroupModel::Link("StorageClass"@)),
        ("@string"@, GroupModel::Link("String"@)),
        ("@markup.link.label"@, GroupModel::Link("SpecialChar"@)),
        ("@markup.link.label.symbol"@, GroupModel::Link("Identifier"@)),
        ("@tag"@, GroupModel::Link("Label"@)),
        ("@tag.attribute"@, GroupModel::Link("@property"@)),
    ]
}

pub open spec fn tokyo_chunk5() -> Seq<(Seq<char>, GroupModel)> {
    seq![
        ("@tag.delimiter"@, GroupModel::Link("Delimiter"@)),
        ("@markup"@, GroupModel::Link("@none"@)),
        ("@markup.environment"@, GroupModel::Link("Macro"@)),
        ("@markup.environment.name"@, GroupModel::Link("Type"@)),
        ("@markup.raw"@, GroupModel::Link("String"@)),
        ("@markup.math"@, GroupModel::Link("Special"@)),
        ("@markup.heading"@, GroupModel::Link("Title"@)),
        ("@type"@, GroupModel::Link("Type"@)),
        ("@type.definition"@, GroupModel::Link("Typedef"@)),
        ("@type.qualifier"@, GroupModel::Link("@keyword"@)),
        ("@operator"@, GroupModel::Color("#89ddff"@)),
        ("@punctuation.delimiter"@, GroupModel::Color("#89ddff"@)),
        ("@punctuation.bracket"@, GroupModel::Color("#a9b1d6"@)),
        ("@punctuation.special"@, GroupModel::Color("#89ddff"@)),
        ("@markup.list"@, GroupModel::Color("#89ddff"@)),
        ("@markup.list.markdown"@, GroupModel::Color("#ff9e64"@)),
    ]
}

pub open spec fn tokyo_chunk6() -> Seq<(Seq<char>, GroupModel)> {
    seq![
        ("@string.documentation"@, GroupModel::Color("#e0af68"@)),
        ("@string.regexp"@, GroupModel::Color("#b4f9f8"@)),
        ("@string.escape"@, GroupModel::Color("#bb9af7"@)),
        ("@constructor"@, GroupModel::Color("#bb9af7"@)),
        ("@variable.parameter"@, GroupModel::Color("#e0af68"@)),
        ("@variable.parameter.builtin"@, GroupModel::Color("#e0af68"@)),
        ("@keyword"@, GroupModel::Color("#9d7cd8"@)),
        ("@keyword.function"@, GroupModel::Color("#bb9af7"@)),
        ("@label"@, GroupModel::Color("#7aa2f7"@)),
        ("@type.builtin"@, GroupModel::Color("#2ac3de"@)),
        ("@variable.member"@, GroupModel::Color("#73daca"@)),
        ("@property"@, GroupModel::Color("#73daca"@)),
        ("@variable"@, GroupModel::Color("#c0caf5"@)),
        ("@variable.builtin"@, GroupModel::Color("#f7768e"@)),
        ("@module.builtin"@, GroupModel::Color("#f7768e"@)),
        ("@markup.raw.markdown_inline"@, GroupModel::Color("#7aa2f7"@)),
    ]
}

pub open spec fn tokyo_chunk7() -> Seq<(Seq<char>, GroupModel)> {
    seq![
        ("@markup.link"@, GroupModel::Color("#1abc9c"@)),
        ("@markup.list.unchecked"@, GroupModel::Color("#7aa2f7"@)),
        ("@markup.list.checked"@, GroupModel::Color("#73daca"@)),
        ("@diff.plus"@, GroupModel::Link("DiffAdd"@)),
        ("@diff.minus"@, GroupModel::Link("DiffDelete"@)),
        ("@diff.delta"@, GroupModel::Link("DiffChange"@)),
        ("@module"@, GroupModel::Link("Include"@)),
    ]
}

/// The alias graph of the second bundled theme, entry for entry.
pub open spec fn tokyo_night_graph() -> Seq<(Seq<char>, GroupModel)> {
    tokyo_chunk1() + tokyo_chunk2() + tokyo_chunk3() + tokyo_chunk4() + tokyo_chunk5() + tokyo_chunk6() + tokyo_chunk7()
}

fn tokyo_part1(v: &mut Vec<(String, Group)>)
    ensures
        graph_view(final(v)@) == graph_view(old(v)@) + tokyo_chunk1(),
{
    v.push(gcol("Comment", "#565f89"));
    v.push(gnone("DiffAdd"));
    v.push(gnone("DiffChange"));
    v.push(gnone("DiffDelete"));
    v.push(gcol("Title", "#7aa2f7"));
    v.push(gcol("Constant", "#ff9e64"));
    v.push(gcol("String", "#9ece6a"));
    v.push(gcol("Character", "#9ece6a"));
    v.push(glink("Number", "Constant"));
    v.push(glink("Boolean", "Constant"));
    v.push(glink("Float", "Number"));
    v.push(gcol("Identifier", "#bb9af7"));
    v.push(gcol("Function", "#7aa2f7"));
    v.push(gcol("PreProc", "#7dcfff"));
    v.push(glink("Include", "PreProc"));
    v.push(glink("Define", "PreProc"));
    proof {
        assert(graph_view(v@) =~= graph_view(old(v)@) + tokyo_chunk1());
    }
}

fn tokyo_part2(v: &mut Vec<(String, Group)>)
    ensures
        graph_view(final(v)@) == graph_view(old(v)@) + tokyo_chunk2(),
{
    v.push(glink("Macro", "PreProc"));
    v.push(gcol("Type", "#2ac3de"));
    v.push(glink("StorageClass", "Type"));
    v.push(glink("Typedef", "Type"));
    v.push(gcol("Statement", "#bb9af7"));
    v.push(glink("Conditional", "Statement"));
    v.push(glink("Repeat", "Statement"));
    v.push(glink("Label", "Statement"));
    v.push(glink("Exception", "Statement"));
    v.push(gcol("Special", "#2ac3de"));
    v.push(glink("SpecialChar", "Special"));
    v.push(glink("Delimiter", "Special"));
    v.push(gcol("Debug", "#ff9e64"));
    v.push(glink("@annotation", "PreProc"));
    v.push(glink("@attribute", "PreProc"));
    v.push(glink("@boolean", "Boolean"));
    proof {
        assert(graph_view(v@) =~= graph_view(old(v)@) + tokyo_chunk2());
    }
}

fn tokyo_part3(v: &mut Vec<(String, Group)>)
    ensures
        graph_view(final(v)@) == graph_view(old(v)@) + tokyo_chunk3(),
{
    v.push(glink("@character", "Character"));
    v.push(glink("@character.special", "SpecialChar"));
    v.push(glink("@comment", "Comment"));
    v.push(glink("@keyword.conditional", "Conditional"));
    v.push(glink("@constant", "Constant"));
    v.push(glink("@constant.builtin", "Special"));
    v.push(glink("@constant.macro", "Define"));
    v.push(glink("@keyword.debug", "Debug"));
    v.push(glink("@keyword.directive.define", "Define"));
    v.push(glink("@keyword.exception", "Exception"));
    v.push(glink("@number.float", "Float"));
    v.push(glink("@function", "Function"));
    v.push(glink("@function.builtin", "Special"));
    v.push(glink("@function.call", "@function"));
    v.push(glink("@function.macro", "Macro"));
    v.push(glink("@keyword.import", "Include"));
    proof {
        assert(graph_view(v@) =~= graph_view(old(v)@) + tokyo_chunk3());
    }
}

fn tokyo_part4(v: &mut Vec<(String, Group)>)
    ensures
        graph_view(final(v)@) == graph_view(old(v)@) + tokyo_chunk4(),
{
    v.push(glink("@keyword.coroutine", "@keyword"));
    v.push(glink("@keyword.operator", "@operator"));
    v.push(glink("@keyword.return", "@keyword"));
    v.push(glink("@function.method", "Function"));
    v.push(glink("@function.method.call", "@function.method"));
    v.push(glink("@namespace.builtin", "@variable.builtin"));
    v.push(gnone("@none"));
    v.push(glink("@number", "Number"));
    v.push(glink("@keyword.directive", "PreProc"));
    v.push(glink("@keyword.repeat", "Repeat"));
    v.push(glink("@keyword.storage", "StorageClass"));
    v.push(glink("@string", "String"));
    v.push(glink("@markup.link.label", "SpecialChar"));
    v.push(glink("@markup.link.label.symbol", "Identifier"));
    v.push(glink("@tag", "Label"));
    v.push(glink("@tag.attribute", "@property"));
    proof {
        assert(graph_view(v@) =~= graph_view(old(v)@) + tokyo_chunk4());
    }
}

fn tokyo_part5(v: &mut Vec<(String, Group)>)
    ensures
        graph_view(final(v)@) == graph_view(old(v)@) + tokyo_chunk5(),
{
    v.push(glink("@tag.delimiter", "Delimiter"));
    v.push(glink("@markup", "@none"));
    v.push(glink("@markup.environment", "Macro"));
    v.push(glink("@markup.environment.name", "Type"));
    v.push(glink("@markup.raw", "String"));
    v.push(glink("@markup.math", "Special"));
    v.push(glink("@markup.heading", "Title"));
    v.push(glink("@type", "Type"));
    v.push(glink("@type.definition", "Typedef"));
    v.push(glink("@type.qualifier", "@keyword"));
    v.push(gcol("@operator", "#89ddff"));
    v.push(gcol("@punctuation.delimiter", "#89ddff"));
    v.push(gcol("@punctuation.bracket", "#a9b1d6"));
    v.push(gcol("@punctuation.special", "#89ddff"));
    v.push(gcol("@markup.list", "#89ddff"));
    v.push(gcol("@markup.list.markdown", "#ff9e64"));
    proof {
        assert(graph_view(v@) =~= graph_view(old(v)@) + tokyo_chunk5());
    }
}

fn tokyo_part6(v: &mut Vec<(String, Group)>)
    ensures
        graph_view(final(v)@) == graph_view(old(v)@) + tokyo_chunk6(),
{
    v.push(gcol("@string.documentation", "#e0af68"));
    v.push(gcol("@string.regexp", "#b4f9f8"));
    v.push(gcol("@string.escape", "#bb9af7"));
    v.push(gcol("@constructor", "#bb9af7"));
    v.push(gcol("@variable.parameter", "#e0af68"));
    v.push(gcol("@variable.parameter.builtin", "#e0af68"));
    v.push(gcol("@keyword", "#9d7cd8"));
    v.push(gcol("@keyword.function", "#bb9af7"));
    v.push(gcol("@label", "#7aa2f7"));
    v.push(gcol("@type.builtin", "#2ac3de"));
    v.push(gcol("@variable.member", "#73daca"));
    v.push(gcol("@property", "#73daca"));
    v.push(gcol("@variable", "#c0caf5"));
    v.push(gcol("@variable.builtin", "#f7768e"));
    v.push(gcol("@module.builtin", "#f7768e"));
    v.push(gcol("@markup.raw.markdown_inline", "#7aa2f7"));
    proof {
        assert(graph_view(v@) =~= graph_view(old(v)@) + tokyo_chunk6());
    }
}

fn tokyo_part7(v: &mut Vec<(String, Group)>)
    ensures
        graph_view(final(v)@) == graph_view(old(v)@) + tokyo_chunk7(),
{
    v.push(gcol("@markup.link", "#1abc9c"));
    v.push(gcol("@markup.list.unchecked", "#7aa2f7"));
    v.push(gcol("@markup.list.checked", "#73daca"));
    v.push(glink("@diff.plus", "DiffAdd"));
    v.push(glink("@diff.minus", "DiffDelete"));
    v.push(glink("@diff.delta", "DiffChange"));
    v.push(glink("@module", "Include"));
    proof {
        assert(graph_view(v@) =~= graph_view(old(v)@) + tokyo_chunk7());
    }
}

/// The alias graph of the second bundled theme.
pub fn tokyo_night_groups() -> (r: Vec<(String, Group)>)
    ensures
        graph_view(r@) == tokyo_night_graph(),
{
    let mut v: Vec<(String, Group)> = Vec::new();
    tokyo_part1(&mut v);
    tokyo_part2(&mut v);
    tokyo_part3(&mut v);
    tokyo_part4(&mut v);
    tokyo_part5(&mut v);
    tokyo_part6(&mut v);
    tokyo_part7(&mut v);
    proof {
        assert(graph_view(v@) =~= tokyo_night_graph());
    }
    v
}

pub open spec fn tokyo_ignore_chunk1() -> Seq<Seq<char>> {
    seq![
        "include"@,
        "namespace"@,
        "parameter"@,
        "symbol"@,
        "conditional"@,
        "debug"@,
        "define"@,
        "error"@,
        "exception"@,
        "field"@,
        "float"@,
        "method"@,
        "method.call"@,
        "parameter.reference"@,
        "preproc"@,
        "repeat"@,
    ]
}

pub open spec fn tokyo_ignore_chunk2() -> Seq<Seq<char>> {
    seq![
        "storageclass"@,
        "string.regex"@,
        "string.special"@,
        "title"@,
        "text.literal"@,
        "text.math"@,
        "text.reference"@,
        "text.environment"@,
        "text.environment.name"@,
        "text.note"@,
    ]
}

/// The categories the second theme leaves unstyled on purpose, entry
/// for entry.
pub open spec fn tokyo_ignore_names() -> Seq<Seq<char>> {
    tokyo_ignore_chunk1() + tokyo_ignore_chunk2()
}

fn tokyo_ignore_part1(v: &mut Vec<String>)
    ensures
        names_view(final(v)@) == names_view(old(v)@) + tokyo_ignore_chunk1(),
{
    v.push(String::from_str("include"));
    v.push(String::from_str("namespace"));
    v.push(String::from_str("parameter"));
    v.push(String::from_str("symbol"));
    v.push(String::from_str("conditional"));
    v.push(String::from_str("debug"));
    v.push(String::from_str("define"));
    v.push(String::from_str("error"));
    v.push(String::from_str("exception"));
    v.push(String::from_str("field"));
    v.push(String::from_str("float"));
    v.push(String::from_str("method"));
    v.push(String::from_str("method.call"));
    v.push(String::from_str("parameter.reference"));
    v.push(String::from_str("preproc"));
    v.push(String::from_str("repeat"));
    proof {
        assert(names_view(v@) =~= names_view(old(v)@) + tokyo_ignore_chunk1());
    }
}

fn tokyo_ignore_part2(v: &mut Vec<String>)
    ensures
        names_view(final(v)@) == names_view(old(v)@) + tokyo_ignore_chunk2(),
{
    v.push(String::from_str("storageclass"));
    v.push(String::from_str("string.regex"));
    v.push(String::from_str("string.special"));
    v.push(String::from_str("title"));
    v.push(String::from_str("text.literal"));
    v.push(String::from_str("text.math"));
    v.push(String::from_str("text.reference"));
    v.push(String::from_str("text.environment"));
    v.push(String::from_str("text.environment.name"));
    v.push(String::from_str("text.note"));
    proof {
        assert(names_view(v@) =~= names_view(old(v)@) + tokyo_ignore_chunk2());
    }
}

/// The categories the second theme leaves unstyled on purpose.
pub fn tokyo_night_ignore() -> (r: Vec<String>)
    ensures
        names_view(r@) == tokyo_ignore_names(),
{
    let mut v: Vec<String> = Vec::new();
    tokyo_ignore_part1(&mut v);
    tokyo_ignore_part2(&mut v);
    proof {
        assert(names_view(v@) =~= tokyo_ignore_names());
    }
    v
}

/// The first bundled theme: the style table its palette denotes.
pub fn moonfly_theme() -> (r: Theme)
    ensures
        pairs_view(r.0@) == styled_pairs(moonfly_palette()),
{
    let colors = moonfly_colors();
    let r = Theme::from_colors(&colors);
    proof {
        assert(pairs_view(r.0@) =~= styled_pairs(moonfly_palette()));
    }
    r
}

/// The second bundled theme: its alias graph resolved to a fixed point,
/// then turned into the flat style table — exactly the table the graph
/// denotes.
pub fn tokyo_night_theme() -> (r: Theme)
    ensures
        pairs_view(r.0@) == styled_pairs(
            resolved_colors(tokyo_night_graph(), tokyo_night_graph()),
        ),
{
    let groups = tokyo_night_groups();
    let build: ThemeBuild = resolve_theme(&groups);
    let r = Theme::from_colors(&build.colors);
    proof {
        assert(pairs_view(r.0@) =~= styled_pairs(
            resolved_colors(tokyo_night_graph(), tokyo_night_graph()),
        ));
    }
    r
}

} // verus!

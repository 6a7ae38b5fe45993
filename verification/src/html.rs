//! The event-to-HTML compiler.
//!
//! A single forward pass consumes structural events, delegates code text to
//! the highlighting pipeline and heading numbering to the heading stack, and
//! serializes every other tag to HTML with exact escaping, tight newline
//! control, and one-pass footnote numbering. The whole pass is modelled by
//! the spec functions in this module: the output text and the returned
//! heading records are a pure function of the event stream, the capture
//! streams and the configuration.

use vstd::prelude::*;
use crate::events::{Alignment, CodeBlockKind, Event, LinkKind, Tag, TagEnd, balanced, balanced_from, end_of};
use crate::escape::{href_escaped, html_escaped};
use crate::headings::{HeadModel, HeadingInfo, HeadingStack, enter_spec, head_wf, repr_spec};
use crate::highlight::{Error, HighlightEvent, Renderer, SyntaxConfig, pipeline_spec, strs_view};
use crate::strutil::dec_digits;

verus! {

/// One heading record in the model: effective depth, plain text, dotted
/// path.
pub ghost struct HeadRec {
    pub level: int,
    pub text: Seq<char>,
    pub number: Seq<char>,
}

/// The model of a heading record value.
pub open spec fn info_view(h: HeadingInfo) -> HeadRec {
    HeadRec { level: h.level as int, text: h.text@, number: h.number@ }
}

/// The models of a sequence of heading records.
pub open spec fn infos_view(hs: Seq<HeadingInfo>) -> Seq<HeadRec> {
    hs.map_values(|h: HeadingInfo| info_view(h))
}

/// The full state of one render pass.
pub ghost struct WModel {
    /// Output text so far.
    pub out: Seq<char>,
    /// Whether the last tracked write ended in a newline.
    pub end_newline: bool,
    /// Inside a metadata block: content is silently skipped.
    pub in_metadata: bool,
    /// Language of the open code block: `None` outside code, an empty
    /// sequence for plain preformatted text, a tag otherwise.
    pub code: Option<Seq<char>>,
    /// Whether table cells are currently header cells.
    pub table_head: bool,
    /// Column alignments of the current table.
    pub aligns: Seq<Alignment>,
    /// Current table column.
    pub cell: int,
    /// Footnote names in first-seen order; the ordinal is the position
    /// plus one.
    pub notes: Seq<Seq<char>>,
    /// The heading numbering stack.
    pub heads: HeadModel,
    /// The plain-text shadow copy of the open heading, if one is open.
    pub cur_header: Option<Seq<char>>,
    /// Finished heading records, in document order.
    pub headers: Seq<HeadRec>,
    /// How many capture streams have been consumed.
    pub streams_used: int,
}

/// The state every render pass starts from.
pub open spec fn init_model() -> WModel {
    WModel {
        out: Seq::empty(),
        end_newline: true,
        in_metadata: false,
        code: Option::None,
        table_head: true,
        aligns: Seq::empty(),
        cell: 0,
        notes: Seq::empty(),
        heads: HeadModel { floor: 0, current: 0, counters: Seq::empty() },
        cur_header: Option::None,
        headers: Seq::empty(),
        streams_used: 0,
    }
}

/// A tracked write: text goes out, and the newline flag follows the text's
/// last character. An empty write leaves the flag alone.
pub open spec fn wr(m: WModel, s: Seq<char>) -> WModel {
    WModel {
        out: m.out + s,
        end_newline: if s.len() == 0 {
            m.end_newline
        } else {
            s.last() == '\n'
        },
        ..m
    }
}

/// An escaped write of content text: it reaches the output and the open
/// heading's shadow copy, and leaves the newline flag alone.
pub open spec fn wesc(m: WModel, s: Seq<char>) -> WModel {
    WModel {
        out: m.out + html_escaped(s),
        cur_header: match m.cur_header {
            Option::Some(h) => Option::Some(h + html_escaped(s)),
            Option::None => Option::None,
        },
        ..m
    }
}

/// An escaped write that does not feed the heading shadow copy.
pub open spec fn wesc_out(m: WModel, s: Seq<char>) -> WModel {
    WModel { out: m.out + html_escaped(s), ..m }
}

/// An href-escaped write; the newline flag is left alone.
pub open spec fn whref(m: WModel, s: Seq<char>) -> WModel {
    WModel { out: m.out + href_escaped(s), ..m }
}

/// A decimal number written straight to the output.
pub open spec fn wnum(m: WModel, n: nat) -> WModel {
    WModel { out: m.out + dec_digits(n), ..m }
}

/// A heading tag name written straight to the output: `h` and the level.
pub open spec fn wlevel(m: WModel, level: u8) -> WModel {
    WModel { out: m.out + seq!['h'] + dec_digits(level as nat), ..m }
}

/// Sets the newline flag from a text run, as the pass does after each text
/// event: true exactly when the run ends in a newline.
pub open spec fn set_nl(m: WModel, s: Seq<char>) -> WModel {
    WModel { end_newline: s.len() > 0 && s.last() == '\n', ..m }
}

/// First index of `name` in the note list, or its length.
pub open spec fn note_idx(notes: Seq<Seq<char>>, name: Seq<char>) -> int
    decreases notes.len(),
{
    if notes.len() == 0 {
        0
    } else if notes.first() == name {
        0
    } else {
        1 + note_idx(notes.drop_first(), name)
    }
}

/// The note list after one sighting of `name`: unchanged when known,
/// extended when new.
pub open spec fn notes_after(notes: Seq<Seq<char>>, name: Seq<char>) -> Seq<Seq<char>> {
    if note_idx(notes, name) < notes.len() {
        notes
    } else {
        notes.push(name)
    }
}

/// The ordinal of a footnote name: its first-seen position plus one.
pub open spec fn ordinal_of(notes: Seq<Seq<char>>, name: Seq<char>) -> nat {
    (note_idx(notes, name) + 1) as nat
}

/// Index of the first space in a fence info text, or its length.
pub open spec fn first_token(s: Seq<char>) -> Seq<char>
    decreases s.len(),
{
    if s.len() == 0 {
        Seq::empty()
    } else if s.first() == ' ' {
        Seq::empty()
    } else {
        seq![s.first()] + first_token(s.drop_first())
    }
}

/// Index of the first newline in a text, or its length.
pub open spec fn first_nl(s: Seq<char>) -> nat
    decreases s.len(),
{
    if s.len() == 0 {
        0
    } else if s.first() == '\n' {
        0
    } else {
        1 + first_nl(s.drop_first())
    }
}

/// A line with a carriage return dropped from its end, so that a CRLF
/// terminator leaves no stray character inside the line.
pub open spec fn strip_cr(l: Seq<char>) -> Seq<char> {
    if l.len() > 0 && l.last() == '\r' {
        l.drop_last()
    } else {
        l
    }
}

/// The lines of a text: split at newlines, with newline and CRLF
/// terminators dropped, and no empty trailing line. A final line without
/// a terminator is kept whole.
pub open spec fn split_lines(s: Seq<char>) -> Seq<Seq<char>>
    decreases s.len(),
{
    if s.len() == 0 {
        Seq::empty()
    } else {
        let i = first_nl(s) as int;
        if i >= s.len() {
            seq![s]
        } else {
            seq![strip_cr(s.take(i))] + split_lines(s.skip(i + 1))
        }
    }
}

/// One rendered code line, wrapped so the line is independently
/// addressable.
pub open spec fn wrap_one(m: WModel, line: Seq<char>) -> WModel {
    wr(wr(wr(wr(m, "<span class=\"newline\">"@), line), "\n"@), "</span>"@)
}

/// All rendered code lines wrapped, from position `i` on.
pub open spec fn wrap_rec(m: WModel, lines: Seq<Seq<char>>, i: int) -> WModel
    decreases lines.len() - i,
{
    if i < 0 || i >= lines.len() {
        m
    } else {
        wrap_rec(wrap_one(m, lines[i]), lines, i + 1)
    }
}

/// The classes of a heading written after the first one: space-separated,
/// escaped.
pub open spec fn classes_rest(m: WModel, cs: Seq<String>, i: int) -> WModel
    decreases cs.len() - i,
{
    if i < 0 || i >= cs.len() {
        m
    } else {
        classes_rest(wesc(wr(m, " "@), cs[i]@), cs, i + 1)
    }
}

/// The whole class attribute of a heading, empty when it has no classes.
pub open spec fn heading_classes(m: WModel, cs: Seq<String>) -> WModel {
    if cs.len() == 0 {
        m
    } else {
        wr(classes_rest(wesc(wr(m, " class=\""@), cs[0]@), cs, 1), "\""@)
    }
}

/// The extra attributes of a heading, each escaped; a missing value is
/// written as an empty one.
pub open spec fn heading_attrs(m: WModel, ats: Seq<(String, Option<String>)>, i: int) -> WModel
    decreases ats.len() - i,
{
    if i < 0 || i >= ats.len() {
        m
    } else {
        let m2 = wesc_out(wr(m, " "@), ats[i].0@);
        let m3 = match ats[i].1 {
            Option::Some(v) => wr(wesc_out(wr(m2, "=\""@), v@), "\""@),
            Option::None => wr(m2, "=\"\""@),
        };
        heading_attrs(m3, ats, i + 1)
    }
}

/// The newline discipline of block tags: prefix a newline only when the
/// previous write did not end in one.
pub open spec fn block_open(m: WModel, plain: Seq<char>, pre: Seq<char>) -> WModel {
    if m.end_newline {
        wr(m, plain)
    } else {
        wr(m, pre)
    }
}

/// The opening writes of an image: everything before the alt text.
pub open spec fn image_open(m: WModel, dest: Seq<char>) -> WModel {
    wr(whref(wr(m, "<img src=\""@), dest), "\" alt=\""@)
}

/// The closing writes of an image, after the alt text.
pub open spec fn image_close(m: WModel, title: Seq<char>) -> WModel {
    let m2 = if title.len() > 0 {
        wesc_out(wr(m, "\" title=\""@), title)
    } else {
        m
    };
    wr(m2, "\" />"@)
}

/// A footnote reference in running text: link, escaped name, ordinal.
pub open spec fn fnref_step(m: WModel, name: Seq<char>) -> WModel {
    let m1 = wr(m, "<sup class=\"footnote-reference\"><a href=\"#"@);
    let m2 = wesc(m1, name);
    let m3 = wr(m2, "\">"@);
    let m4 = WModel {
        out: m3.out + dec_digits(ordinal_of(m.notes, name)),
        notes: notes_after(m.notes, name),
        ..m3
    };
    wr(m4, "</a></sup>"@)
}

/// A footnote sighting inside alt text: `[ordinal]`, no markup.
pub open spec fn rawfn_step(m: WModel, name: Seq<char>) -> WModel {
    WModel {
        out: m.out + seq!['['] + dec_digits(ordinal_of(m.notes, name)) + seq![']'],
        notes: notes_after(m.notes, name),
        ..m
    }
}

/// The effect of one start tag on the state.
pub open spec fn step_start(m: WModel, t: Tag) -> WModel {
    match t {
        Tag::Paragraph => block_open(m, "<p>"@, "\n<p>"@),
        Tag::Heading { level, classes, attrs } => {
            let heads2 = enter_spec(m.heads, level);
            let m1 = WModel { heads: heads2, ..m };
            let m2 = block_open(m1, "<"@, "\n<"@);
            let m3 = wlevel(m2, level);
            let m4 = wr(m3, " id=\"header-"@ + repr_spec(heads2.counters) + "\" "@);
            let m5 = heading_classes(m4, classes@);
            let m6 = heading_attrs(m5, attrs@, 0);
            let m7 = wr(m6, ">"@);
            WModel { cur_header: Option::Some(Seq::empty()), ..m7 }
        },
        Tag::BlockQuote => block_open(m, "<blockquote>\n"@, "\n<blockquote>\n"@),
        Tag::CodeBlock(kind) => {
            let m1 = if m.end_newline {
                m
            } else {
                wr(m, "\n"@)
            };
            match kind {
                CodeBlockKind::Fenced(info) => WModel {
                    code: Option::Some(first_token(info@)),
                    ..wr(
                        m1,
                        "<pre style=\"background-color: #080808; color: #c6c6c6\"><code>"@,
                    )
                },
                CodeBlockKind::Indented => wr(m1, "<pre><code>"@),
            }
        },
        Tag::HtmlBlock => m,
        Tag::List(start) => match start {
            Option::Some(n) => if n == 1 {
                block_open(m, "<ol>\n"@, "\n<ol>\n"@)
            } else {
                wr(wnum(block_open(m, "<ol start=\""@, "\n<ol start=\""@), n as nat), "\">\n"@)
            },
            Option::None => block_open(m, "<ul>\n"@, "\n<ul>\n"@),
        },
        Tag::Item => block_open(m, "<li>"@, "\n<li>"@),
        Tag::FootnoteDefinition(name) => {
            let m1 = block_open(
                m,
                "<div class=\"footnote-definition\" id=\""@,
                "\n<div class=\"footnote-definition\" id=\""@,
            );
            let m2 = wesc_out(m1, name@);
            let m3 = wr(m2, "\"><sup class=\"footnote-definition-label\">"@);
            let m4 = WModel {
                out: m3.out + dec_digits(ordinal_of(m.notes, name@)),
                notes: notes_after(m.notes, name@),
                ..m3
            };
            wr(m4, "</sup>"@)
        },
        Tag::Table(aligns) => WModel {
            aligns: aligns@,
            ..block_open(m, "<table>"@, "\n<table>"@)
        },
        Tag::TableHead => WModel { table_head: true, cell: 0, ..wr(m, "<thead><tr>"@) },
        Tag::TableRow => WModel { cell: 0, ..wr(m, "<tr>"@) },
        Tag::TableCell => {
            let m1 = if m.table_head {
                wr(m, "<th"@)
            } else {
                wr(m, "<td"@)
            };
            if 0 <= m.cell < m.aligns.len() {
                match m.aligns[m.cell] {
                    Alignment::Left => wr(m1, " style=\"text-align: left\">"@),
                    Alignment::Center => wr(m1, " style=\"text-align: center\">"@),
                    Alignment::Right => wr(m1, " style=\"text-align: right\">"@),
                    Alignment::Unspecified => wr(m1, ">"@),
                }
            } else {
                wr(m1, ">"@)
            }
        },
        Tag::Emphasis => wr(m, "<em>"@),
        Tag::Strong => wr(m, "<strong>"@),
        Tag::Strikethrough => wr(m, "<del>"@),
        Tag::Link { kind, dest_url, title } => {
            let m1 = match kind {
                LinkKind::Email => wr(m, "<a href=\"mailto:"@),
                LinkKind::Other => wr(m, "<a href=\""@),
            };
            let m2 = whref(m1, dest_url@);
            let m3 = if title@.len() > 0 {
                wesc_out(wr(m2, "\" title=\""@), title@)
            } else {
                m2
            };
            wr(m3, "\">"@)
        },
        Tag::Image { dest_url, .. } => image_open(m, dest_url@),
        Tag::MetadataBlock => WModel { in_metadata: true, ..m },
    }
}

/// The effect of one end tag on the state.
pub open spec fn step_end(m: WModel, e: TagEnd) -> WModel {
    match e {
        TagEnd::Paragraph => wr(m, "</p>\n"@),
        TagEnd::Heading(level) => {
            let text = match m.cur_header {
                Option::Some(t) => t,
                Option::None => Seq::empty(),
            };
            let rec = HeadRec {
                level: m.heads.counters.len() as int,
                text: text,
                number: repr_spec(m.heads.counters),
            };
            let m1 = WModel {
                headers: m.headers.push(rec),
                cur_header: Option::None,
                ..m
            };
            wr(wlevel(wr(m1, "</"@), level), ">\n"@)
        },
        TagEnd::Table => wr(m, "</tbody></table>\n"@),
        TagEnd::TableHead => WModel { table_head: false, ..wr(m, "</tr></thead><tbody>\n"@) },
        TagEnd::TableRow => wr(m, "</tr>\n"@),
        TagEnd::TableCell => {
            let m1 = if m.table_head {
                wr(m, "</th>"@)
            } else {
                wr(m, "</td>"@)
            };
            WModel { cell: m1.cell + 1, ..m1 }
        },
        TagEnd::BlockQuote => wr(m, "</blockquote>\n"@),
        TagEnd::CodeBlock => WModel { code: Option::None, ..wr(m, "</code></pre>"@) },
        TagEnd::List(ordered) => if ordered {
            wr(m, "</ol>\n"@)
        } else {
            wr(m, "</ul>\n"@)
        },
        TagEnd::Item => wr(m, "</li>\n"@),
        TagEnd::Emphasis => wr(m, "</em>"@),
        TagEnd::Strong => wr(m, "</strong>"@),
        TagEnd::Strikethrough => wr(m, "</del>"@),
        TagEnd::Link => wr(m, "</a>"@),
        TagEnd::Image => m,
        TagEnd::FootnoteDefinition => wr(m, "</div>\n"@),
        TagEnd::HtmlBlock => m,
        TagEnd::MetadataBlock => WModel { in_metadata: false, ..m },
    }
}

/// The outcome of one text event, which may consume a capture stream.
pub ghost struct TextOut {
    pub m: WModel,
    pub err: Option<Error>,
}

/// The effect of one text run: escaped outside code, piped through the
/// highlighting pipeline inside a code block with a language tag.
pub open spec fn text_step(
    m: WModel,
    s: Seq<char>,
    streams: Seq<Vec<HighlightEvent>>,
    cfg: SyntaxConfig,
) -> TextOut {
    match m.code {
        Option::None => TextOut { m: set_nl(wesc(m, s), s), err: Option::None },
        Option::Some(lang) => if lang.len() == 0 {
            TextOut { m: set_nl(wesc(m, s), s), err: Option::None }
        } else if !crate::highlight::known_language(cfg.languages@, lang) {
            // unknown language: not an error — the text falls back to
            // plain HTML-escaped, unhighlighted lines, and no capture
            // stream is consumed
            TextOut {
                m: set_nl(wrap_rec(m, split_lines(html_escaped(s)), 0), s),
                err: Option::None,
            }
        } else if m.streams_used >= streams.len() {
            TextOut { m, err: Option::Some(Error::MissingStream) }
        } else {
            match pipeline_spec(cfg, lang, s, streams[m.streams_used]@) {
                Option::None => TextOut { m, err: Option::Some(Error::InvalidStream) },
                Option::Some(rendered) => {
                    let m1 = WModel { streams_used: m.streams_used + 1, ..m };
                    let m2 = wrap_rec(m1, split_lines(rendered), 0);
                    TextOut { m: set_nl(m2, s), err: Option::None }
                },
            }
        },
    }
}

/// An inline code span: escaped between `code` tags.
pub open spec fn code_step(m: WModel, s: Seq<char>) -> WModel {
    wr(wesc(wr(m, "<code>"@), s), "</code>"@)
}

/// The alt-text subpass state: the model after it, and the position of the
/// first event it did not consume.
pub ghost struct RawOut {
    pub m: WModel,
    pub next: int,
}

/// The alt-text subpass: consumes events through the matching end while
/// tracking depth, serializing only plain escaped text — inner markup is
/// dropped, breaks become spaces, footnote sightings become bracketed
/// ordinals.
pub open spec fn raw_run(m: WModel, evs: Seq<Event>, i: int, nest: int) -> RawOut
    decreases evs.len() - i,
{
    if i < 0 || i >= evs.len() {
        RawOut { m, next: i }
    } else {
        match evs[i] {
            Event::Start(_) => raw_run(m, evs, i + 1, nest + 1),
            Event::End(_) => if nest == 0 {
                RawOut { m, next: i + 1 }
            } else {
                raw_run(m, evs, i + 1, nest - 1)
            },
            Event::Html(_) => raw_run(m, evs, i + 1, nest),
            Event::InlineHtml(s) => raw_run(set_nl(wesc_out(m, s@), s@), evs, i + 1, nest),
            Event::Code(s) => raw_run(set_nl(wesc_out(m, s@), s@), evs, i + 1, nest),
            Event::Text(s) => raw_run(set_nl(wesc_out(m, s@), s@), evs, i + 1, nest),
            Event::SoftBreak => raw_run(wr(m, " "@), evs, i + 1, nest),
            Event::HardBreak => raw_run(wr(m, " "@), evs, i + 1, nest),
            Event::Rule => raw_run(wr(m, " "@), evs, i + 1, nest),
            Event::FootnoteReference(name) => raw_run(rawfn_step(m, name@), evs, i + 1, nest),
            Event::TaskListMarker(b) => if b {
                raw_run(wr(m, "[x]"@), evs, i + 1, nest)
            } else {
                raw_run(wr(m, "[ ]"@), evs, i + 1, nest)
            },
        }
    }
}

/// The subpass stays within the stream and always makes progress.
pub proof fn lemma_raw_next(m: WModel, evs: Seq<Event>, i: int, nest: int)
    requires
        0 <= i <= evs.len(),
    ensures
        i <= raw_run(m, evs, i, nest).next <= evs.len(),
        i < evs.len() ==> raw_run(m, evs, i, nest).next >= i + 1,
    decreases evs.len() - i,
{
    if i < evs.len() {
        match evs[i] {
            Event::Start(_) => lemma_raw_next(m, evs, i + 1, nest + 1),
            Event::End(_) => if nest != 0 {
                lemma_raw_next(m, evs, i + 1, nest - 1)
            },
            Event::Html(_) => lemma_raw_next(m, evs, i + 1, nest),
            Event::InlineHtml(s) => lemma_raw_next(set_nl(wesc_out(m, s@), s@), evs, i + 1, nest),
            Event::Code(s) => lemma_raw_next(set_nl(wesc_out(m, s@), s@), evs, i + 1, nest),
            Event::Text(s) => lemma_raw_next(set_nl(wesc_out(m, s@), s@), evs, i + 1, nest),
            Event::SoftBreak => lemma_raw_next(wr(m, " "@), evs, i + 1, nest),
            Event::HardBreak => lemma_raw_next(wr(m, " "@), evs, i + 1, nest),
            Event::Rule => lemma_raw_next(wr(m, " "@), evs, i + 1, nest),
            Event::FootnoteReference(name) => lemma_raw_next(
                rawfn_step(m, name@),
                evs,
                i + 1,
                nest,
            ),
            Event::TaskListMarker(b) => if b {
                lemma_raw_next(wr(m, "[x]"@), evs, i + 1, nest)
            } else {
                lemma_raw_next(wr(m, "[ ]"@), evs, i + 1, nest)
            },
        }
    }
}

/// The outcome of a whole pass: the final state, and the error that
/// stopped it, if one did.
pub ghost struct RunOut {
    pub m: WModel,
    pub err: Option<Error>,
}

/// The whole pass from position `i` on: one event at a time, with the
/// alt-text subpass consuming an image's nested events, metadata content
/// skipped, and a highlighting failure stopping the pass.
pub open spec fn run_spec(
    m: WModel,
    evs: Seq<Event>,
    streams: Seq<Vec<HighlightEvent>>,
    cfg: SyntaxConfig,
    i: int,
) -> RunOut
    decreases evs.len() - i,
    via run_spec_dec
{
    if i < 0 || i >= evs.len() {
        RunOut { m, err: Option::None }
    } else if m.in_metadata {
        match evs[i] {
            Event::End(TagEnd::MetadataBlock) => run_spec(
                WModel { in_metadata: false, ..m },
                evs,
                streams,
                cfg,
                i + 1,
            ),
            _ => run_spec(m, evs, streams, cfg, i + 1),
        }
    } else {
        match evs[i] {
            Event::Start(t) => match t {
                Tag::Image { dest_url, title } => {
                    let r = raw_run(step_start(m, t), evs, i + 1, 0);
                    run_spec(
                        image_close(r.m, title@),
                        evs,
                        streams,
                        cfg,
                        if r.next > evs.len() {
                            evs.len() as int
                        } else {
                            r.next
                        },
                    )
                },
                _ => run_spec(step_start(m, t), evs, streams, cfg, i + 1),
            },
            Event::End(e) => run_spec(step_end(m, e), evs, streams, cfg, i + 1),
            Event::Text(s) => {
                let t = text_step(m, s@, streams, cfg);
                if t.err is Some {
                    RunOut { m: t.m, err: t.err }
                } else {
                    run_spec(t.m, evs, streams, cfg, i + 1)
                }
            },
            Event::Code(s) => run_spec(code_step(m, s@), evs, streams, cfg, i + 1),
            Event::Html(s) => run_spec(wr(m, s@), evs, streams, cfg, i + 1),
            Event::InlineHtml(s) => run_spec(wr(m, s@), evs, streams, cfg, i + 1),
            Event::SoftBreak => run_spec(wr(m, "\n"@), evs, streams, cfg, i + 1),
            Event::HardBreak => run_spec(wr(m, "<br />\n"@), evs, streams, cfg, i + 1),
            Event::Rule => run_spec(
                wr(
                    m,
                    if m.end_newline {
                        "<hr />\n"@
                    } else {
                        "\n<hr />\n"@
                    },
                ),
                evs,
                streams,
                cfg,
                i + 1,
            ),
            Event::FootnoteReference(name) => run_spec(
                fnref_step(m, name@),
                evs,
                streams,
                cfg,
                i + 1,
            ),
            Event::TaskListMarker(b) => run_spec(
                wr(
                    m,
                    if b {
                        "<input disabled=\"\" type=\"checkbox\" checked=\"\"/>\n"@
                    } else {
                        "<input disabled=\"\" type=\"checkbox\"/>\n"@
                    },
                ),
                evs,
                streams,
                cfg,
                i + 1,
            ),
        }
    }
}

#[via_fn]
proof fn run_spec_dec(
    m: WModel,
    evs: Seq<Event>,
    streams: Seq<Vec<HighlightEvent>>,
    cfg: SyntaxConfig,
    i: int,
) {
    if 0 <= i < evs.len() && !m.in_metadata {
        match evs[i] {
            Event::Start(t) => match t {
                Tag::Image { .. } => {
                    lemma_raw_next(step_start(m, t), evs, i + 1, 0);
                },
                _ => {},
            },
            _ => {},
        }
    }
}

/// The outcome of rendering a whole stream from the initial state.
pub open spec fn render_spec(
    evs: Seq<Event>,
    streams: Seq<Vec<HighlightEvent>>,
    cfg: SyntaxConfig,
) -> RunOut {
    run_spec(init_model(), evs, streams, cfg, 0)
}


/// The renderer state of one pass: output, newline flag, table and code
/// state, footnote ordinals, heading numbering and records.
pub struct HtmlWriter {
    out: String,
    end_newline: bool,
    in_metadata: bool,
    code: Option<String>,
    table_head: bool,
    aligns: Vec<Alignment>,
    cell: usize,
    notes: Vec<String>,
    heads: HeadingStack,
    have_header: bool,
    header: String,
    headers: Vec<HeadingInfo>,
    streams_used: usize,
}

impl View for HtmlWriter {
    type V = WModel;

    closed spec fn view(&self) -> WModel {
        WModel {
            out: self.out@,
            end_newline: self.end_newline,
            in_metadata: self.in_metadata,
            code: match self.code {
                Option::Some(s) => Option::Some(s@),
                Option::None => Option::None,
            },
            table_head: self.table_head,
            aligns: self.aligns@,
            cell: self.cell as int,
            notes: strs_view(self.notes@),
            heads: self.heads@,
            cur_header: if self.have_header {
                Option::Some(self.header@)
            } else {
                Option::None
            },
            headers: infos_view(self.headers@),
            streams_used: self.streams_used as int,
        }
    }
}

impl HtmlWriter {
    /// A fresh pass over an empty output.
    fn new() -> (r: HtmlWriter)
        ensures
            r@ == init_model(),
    {
        let r = HtmlWriter {
            out: String::new(),
            end_newline: true,
            in_metadata: false,
            code: Option::None,
            table_head: true,
            aligns: Vec::new(),
            cell: 0,
            notes: Vec::new(),
            heads: HeadingStack::new(),
            have_header: false,
            header: String::new(),
            headers: Vec::new(),
            streams_used: 0,
        };
        proof {
            assert(strs_view(r.notes@) =~= Seq::<Seq<char>>::empty());
            assert(infos_view(r.headers@) =~= Seq::<HeadRec>::empty());
            assert(r@ =~~= init_model());
        }
        r
    }

    /// A tracked write: text to the output, the newline flag from its last
    /// character.
    fn write(&mut self, s: &str)
        ensures
            final(self)@ == wr(old(self)@, s@),
    {
        let n = s.unicode_len();
        if n > 0 {
            let c = s.get_char(n - 1);
            self.end_newline = c == '\n';
        }
        self.out.append(s);
        proof {
            assert(self@ =~~= wr(old(self)@, s@));
        }
    }

    /// Escaped content text: to the output and to the open heading's
    /// shadow copy.
    fn write_escaped(&mut self, s: &str)
        ensures
            final(self)@ == wesc(old(self)@, s@),
    {
        crate::escape::escape_html_into(&mut self.out, s);
        if self.have_header {
            crate::escape::escape_html_into(&mut self.header, s);
        }
        proof {
            assert(self@ =~~= wesc(old(self)@, s@));
        }
    }

    /// Escaped text to the output only.
    fn write_escaped_out(&mut self, s: &str)
        ensures
            final(self)@ == wesc_out(old(self)@, s@),
    {
        crate::escape::escape_html_into(&mut self.out, s);
        proof {
            assert(self@ =~~= wesc_out(old(self)@, s@));
        }
    }

    /// Href-escaped text to the output only.
    fn write_href(&mut self, s: &str)
        ensures
            final(self)@ == whref(old(self)@, s@),
    {
        crate::escape::escape_href_into(&mut self.out, s);
        proof {
            assert(self@ =~~= whref(old(self)@, s@));
        }
    }

    /// A decimal number straight to the output.
    fn write_num(&mut self, n: u64)
        ensures
            final(self)@ == wnum(old(self)@, n as nat),
    {
        crate::strutil::append_decimal(&mut self.out, n);
        proof {
            assert(self@ =~~= wnum(old(self)@, n as nat));
        }
    }

    /// A heading tag name straight to the output.
    fn write_level(&mut self, level: u8)
        ensures
            final(self)@ == wlevel(old(self)@, level),
    {
        self.out.push('h');
        crate::strutil::append_decimal(&mut self.out, level as u64);
        proof {
            assert(self.out@ =~= old(self).out@ + seq!['h'] + dec_digits(level as nat));
            assert(self@ =~~= wlevel(old(self)@, level));
        }
    }

    /// Writes one rendered code block, each line wrapped so that line
    /// boundaries are independently addressable.
    fn wrap_rendered(&mut self, rendered: &str)
        ensures
            final(self)@ == wrap_rec(old(self)@, split_lines(rendered@), 0),
            final(self)@.heads == old(self)@.heads,
            final(self)@.notes == old(self)@.notes,
            final(self)@.cell == old(self)@.cell,
            final(self)@.streams_used == old(self)@.streams_used,
    {
        let lines = split_lines_of(rendered);
        let ghost m1 = self@;
        let ghost lv = split_lines(rendered@);
        let mut li: usize = 0;
        while li < lines.len()
            invariant
                0 <= li <= lines@.len(),
                strs_view(lines@) == lv,
                wrap_rec(self@, lv, li as int) == wrap_rec(m1, lv, 0),
                self@.heads == m1.heads,
                self@.notes == m1.notes,
                self@.cell == m1.cell,
                self@.streams_used == m1.streams_used,
            decreases lines@.len() - li,
        {
            let ghost mb = self@;
            self.write("<span class=\"newline\">");
            self.write(lines[li].as_str());
            self.write("\n");
            self.write("</span>");
            proof {
                assert(self@ == wrap_one(mb, lv[li as int]));
                assert(wrap_rec(mb, lv, li as int) == wrap_rec(self@, lv, li + 1));
            }
            li = li + 1;
        }
    }

    /// Sets the newline flag from a text run's last character.
    fn set_newline_from(&mut self, s: &str)
        ensures
            final(self)@ == set_nl(old(self)@, s@),
    {
        let n = s.unicode_len();
        self.end_newline = n > 0 && s.get_char(n - 1) == '\n';
        proof {
            assert(self@ =~~= set_nl(old(self)@, s@));
        }
    }

    /// The ordinal of a footnote name: its position in first-seen order,
    /// counting from one; a new name is appended.
    fn note_ordinal(&mut self, name: &str) -> (r: usize)
        requires
            old(self)@.notes.len() < usize::MAX,
        ensures
            final(self)@ == (WModel { notes: notes_after(old(self)@.notes, name@), ..old(self)@ }),
            r == ordinal_of(old(self)@.notes, name@),
    {
        let ghost s0 = strs_view(self.notes@);
        let n = self.notes.len();
        let mut i: usize = 0;
        proof {
            assert(s0.skip(0) =~= s0);
        }
        while i < n
            invariant
                i <= n,
                n == self.notes@.len(),
                self == old(self),
                s0 == strs_view(self.notes@),
                note_idx(s0, name@) == i + note_idx(s0.skip(i as int), name@),
            decreases n - i,
        {
            proof {
                assert(s0.skip(i as int).first() == s0[i as int]);
                assert(s0.skip(i as int).drop_first() =~= s0.skip(i + 1));
            }
            if crate::strutil::str_eq(self.notes[i].as_str(), name) {
                proof {
                    assert(note_idx(s0.skip(i as int), name@) == 0);
                    assert(notes_after(s0, name@) =~= s0);
                    assert(self@ =~~= (WModel { notes: notes_after(old(self)@.notes, name@), ..old(self)@ }));
                }
                return i + 1;
            }
            i = i + 1;
        }
        proof {
            assert(s0.skip(n as int).len() == 0);
            assert(note_idx(s0, name@) == n);
        }
        self.notes.push(String::from_str(name));
        proof {
            assert(strs_view(self.notes@) =~= s0.push(name@));
            assert(notes_after(s0, name@) =~= s0.push(name@));
            assert(self@ =~~= (WModel { notes: notes_after(old(self)@.notes, name@), ..old(self)@ }));
        }
        n + 1
    }
}

/// The first whitespace-delimited token of a fence info text.
fn first_token_of(s: &str) -> (r: String)
    ensures
        r@ == first_token(s@),
{
    let n = s.unicode_len();
    let mut r = String::new();
    let mut i: usize = 0;
    proof {
        assert(s@.skip(0) =~= s@);
    }
    while i < n
        invariant
            i <= n,
            n == s@.len(),
            first_token(s@) == r@ + first_token(s@.skip(i as int)),
        decreases n - i,
    {
        let c = s.get_char(i);
        proof {
            assert(s@.skip(i as int).first() == s@[i as int]);
            assert(s@.skip(i as int).drop_first() =~= s@.skip(i + 1));
        }
        if c == ' ' {
            proof {
                assert(first_token(s@.skip(i as int)) =~= Seq::<char>::empty());
                assert(first_token(s@) =~= r@);
            }
            return r;
        }
        r.push(c);
        proof {
            assert(r@ + first_token(s@.skip(i + 1)) =~= first_token(s@));
        }
        i = i + 1;
    }
    proof {
        assert(s@.skip(n as int).len() == 0);
        assert(first_token(s@.skip(n as int)) =~= Seq::<char>::empty());
        assert(first_token(s@) =~= r@);
    }
    r
}

/// Splits a rendered code block into its lines, newline and CRLF
/// terminators dropped.
fn split_lines_of(s: &str) -> (r: Vec<String>)
    ensures
        strs_view(r@) == split_lines(s@),
{
    let n = s.unicode_len();
    let mut r: Vec<String> = Vec::new();
    let mut pos: usize = 0;
    proof {
        assert(strs_view(r@) =~= Seq::<Seq<char>>::empty());
        assert(s@.skip(0) =~= s@);
        assert(strs_view(r@) + split_lines(s@.skip(0)) =~= split_lines(s@));
    }
    while pos < n
        invariant
            pos <= n,
            n == s@.len(),
            split_lines(s@) == strs_view(r@) + split_lines(s@.skip(pos as int)),
        decreases n - pos,
    {
        let ghost t = s@.skip(pos as int);
        let mut j: usize = pos;
        proof {
            assert(t.skip(0) =~= t);
        }
        while j < n
            invariant
                pos <= j <= n,
                n == s@.len(),
                t == s@.skip(pos as int),
                first_nl(t) == j - pos + first_nl(t.skip(j - pos)),
            ensures
                pos <= j <= n,
                first_nl(t) == j - pos,
            decreases n - j,
        {
            proof {
                assert(t.skip(j - pos).first() == s@[j as int]);
                assert(t.skip(j - pos).drop_first() =~= t.skip(j - pos + 1));
            }
            if s.get_char(j) == '\n' {
                proof {
                    assert(first_nl(t.skip(j - pos)) == 0);
                }
                break;
            }
            j = j + 1;
        }
        let line = if j < n && j > pos && s.get_char(j - 1) == '\r' {
            s.substring_char(pos, j - 1)
        } else {
            s.substring_char(pos, j)
        };
        let ghost old_lines = r@;
        r.push(String::from_str(line));
        proof {
            assert(t.take(j - pos) =~= s@.subrange(pos as int, j as int));
            if j < n {
                assert(line@ =~= strip_cr(t.take(first_nl(t) as int))) by {
                    if j > pos && s@[j - 1] == '\r' {
                        assert(t.take(j - pos).last() == s@[j - 1]);
                        assert(line@ =~= s@.subrange(pos as int, j - 1));
                        assert(t.take(j - pos).drop_last() =~= s@.subrange(pos as int, j - 1));
                    } else {
                        assert(line@ =~= s@.subrange(pos as int, j as int));
                    }
                }
            } else {
                assert(line@ =~= s@.subrange(pos as int, j as int));
            }
            assert(strs_view(r@) =~= strs_view(old_lines).push(line@));
        }
        if j == n {
            proof {
                assert(split_lines(t) =~= seq![t]);
                assert(t =~= line@);
                assert(strs_view(r@) + split_lines(s@.skip(n as int)) =~= split_lines(s@)) by {
                    assert(split_lines(s@.skip(n as int)) =~= Seq::<Seq<char>>::empty());
                    assert(strs_view(old_lines) + split_lines(t) =~= split_lines(s@));
                    assert(strs_view(old_lines) + split_lines(t) =~= strs_view(old_lines).push(t));
                }
            }
            pos = n;
        } else {
            proof {
                assert(split_lines(t) =~= seq![strip_cr(t.take(first_nl(t) as int))] + split_lines(
                    t.skip(first_nl(t) as int + 1),
                ));
                assert(t.skip(j - pos + 1) =~= s@.skip(j + 1));
                assert(strs_view(r@) + split_lines(s@.skip(j + 1)) =~= split_lines(s@)) by {
                    assert(strs_view(old_lines) + split_lines(t) =~= split_lines(s@));
                    assert(strs_view(old_lines) + (seq![line@] + split_lines(s@.skip(j + 1))) =~= (strs_view(old_lines).push(line@)) + split_lines(s@.skip(j + 1)));
                }
            }
            pos = j + 1;
        }
    }
    proof {
        assert(split_lines(s@.skip(n as int)) =~= Seq::<Seq<char>>::empty());
        assert(strs_view(r@) =~= split_lines(s@));
    }
    r
}

/// A plain copy of a table's alignment list.
fn clone_aligns(v: &Vec<Alignment>) -> (r: Vec<Alignment>)
    ensures
        r@ == v@,
{
    let mut r: Vec<Alignment> = Vec::new();
    let mut i: usize = 0;
    while i < v.len()
        invariant
            i <= v@.len(),
            r@ == v@.take(i as int),
        decreases v@.len() - i,
    {
        r.push(v[i]);
        proof {
            assert(r@ =~= v@.take(i + 1));
        }
        i = i + 1;
    }
    proof {
        assert(v@.take(v@.len() as int) =~= v@);
    }
    r
}


impl HtmlWriter {
    /// Serializes the start of one tag; an image's opening only, its alt
    /// text is the caller's subpass.
    #[verifier::rlimit(100)]
    fn start_tag(&mut self, tag: &Tag)
        requires
            head_wf(old(self)@.heads),
            old(self)@.notes.len() < usize::MAX,
        ensures
            final(self)@ == step_start(old(self)@, *tag),
            head_wf(final(self)@.heads),
            final(self)@.notes.len() <= old(self)@.notes.len() + 1,
            final(self)@.cell <= old(self)@.cell,
            final(self)@.streams_used == old(self)@.streams_used,
    {
        match tag {
            Tag::Paragraph => {
                if self.end_newline {
                    self.write("<p>");
                } else {
                    self.write("\n<p>");
                }
            },
            Tag::Heading { level, classes, attrs } => {
                let lv: u8 = *level;
                self.heads.enter(lv);
                if self.end_newline {
                    self.write("<");
                } else {
                    self.write("\n<");
                }
                self.write_level(lv);
                let mut idp = String::from_str(" id=\"header-");
                let rep = self.heads.repr();
                idp.append(rep.as_str());
                idp.append("\" ");
                self.write(idp.as_str());
                if classes.len() > 0 {
                    self.write(" class=\"");
                    self.write_escaped(classes[0].as_str());
                    let ghost mc = self@;
                    let mut ci: usize = 1;
                    while ci < classes.len()
                        invariant
                            1 <= ci <= classes@.len(),
                            classes_rest(self@, classes@, ci as int) == classes_rest(mc, classes@, 1),
                            self@.heads == mc.heads,
                            self@.notes == mc.notes,
                            self@.cell == mc.cell,
                            self@.streams_used == mc.streams_used,
                        decreases classes@.len() - ci,
                    {
                        let ghost mb = self@;
                        self.write(" ");
                        self.write_escaped(classes[ci].as_str());
                        proof {
                            assert(classes_rest(mb, classes@, ci as int) == classes_rest(
                                self@,
                                classes@,
                                ci + 1,
                            ));
                        }
                        ci = ci + 1;
                    }
                    self.write("\"");
                }
                let ghost ma = self@;
                let mut ai: usize = 0;
                while ai < attrs.len()
                    invariant
                        0 <= ai <= attrs@.len(),
                        heading_attrs(self@, attrs@, ai as int) == heading_attrs(ma, attrs@, 0),
                        self@.heads == ma.heads,
                        self@.notes == ma.notes,
                        self@.cell == ma.cell,
                        self@.streams_used == ma.streams_used,
                    decreases attrs@.len() - ai,
                {
                    let ghost mb = self@;
                    self.write(" ");
                    self.write_escaped_out(attrs[ai].0.as_str());
                    match &attrs[ai].1 {
                        Option::Some(v) => {
                            self.write("=\"");
                            self.write_escaped_out(v.as_str());
                            self.write("\"");
                        },
                        Option::None => {
                            self.write("=\"\"");
                        },
                    }
                    proof {
                        assert(heading_attrs(mb, attrs@, ai as int) == heading_attrs(
                            self@,
                            attrs@,
                            ai + 1,
                        ));
                    }
                    ai = ai + 1;
                }
                self.write(">");
                self.have_header = true;
                self.header = String::new();
                proof {
                    assert(self@ =~~= step_start(old(self)@, *tag));
                }
            },
            Tag::BlockQuote => {
                if self.end_newline {
                    self.write("<blockquote>\n");
                } else {
                    self.write("\n<blockquote>\n");
                }
            },
            Tag::CodeBlock(kind) => {
                if !self.end_newline {
                    self.write("\n");
                }
                match kind {
                    CodeBlockKind::Fenced(info) => {
                        let tok = first_token_of(info.as_str());
                        self.code = Option::Some(tok);
                        self.write("<pre style=\"background-color: #080808; color: #c6c6c6\"><code>");
                    },
                    CodeBlockKind::Indented => {
                        self.write("<pre><code>");
                    },
                }
            },
            Tag::HtmlBlock => {},
            Tag::List(start) => {
                match start {
                    Option::Some(n) => {
                        if *n == 1 {
                            if self.end_newline {
                                self.write("<ol>\n");
                            } else {
                                self.write("\n<ol>\n");
                            }
                        } else {
                            if self.end_newline {
                                self.write("<ol start=\"");
                            } else {
                                self.write("\n<ol start=\"");
                            }
                            self.write_num(*n);
                            self.write("\">\n");
                        }
                    },
                    Option::None => {
                        if self.end_newline {
                            self.write("<ul>\n");
                        } else {
                            self.write("\n<ul>\n");
                        }
                    },
                }
            },
            Tag::Item => {
                if self.end_newline {
                    self.write("<li>");
                } else {
                    self.write("\n<li>");
                }
            },
            Tag::FootnoteDefinition(name) => {
                if self.end_newline {
                    self.write("<div class=\"footnote-definition\" id=\"");
                } else {
                    self.write("\n<div class=\"footnote-definition\" id=\"");
                }
                self.write_escaped_out(name.as_str());
                self.write("\"><sup class=\"footnote-definition-label\">");
                let ord = self.note_ordinal(name.as_str());
                self.write_num(ord as u64);
                self.write("</sup>");
                proof {
                    assert(self@ =~~= step_start(old(self)@, *tag));
                }
            },
            Tag::Table(aligns) => {
                self.aligns = clone_aligns(aligns);
                if self.end_newline {
                    self.write("<table>");
                } else {
                    self.write("\n<table>");
                }
            },
            Tag::TableHead => {
                self.table_head = true;
                self.cell = 0;
                self.write("<thead><tr>");
            },
            Tag::TableRow => {
                self.cell = 0;
                self.write("<tr>");
            },
            Tag::TableCell => {
                if self.table_head {
                    self.write("<th");
                } else {
                    self.write("<td");
                }
                if self.cell < self.aligns.len() {
                    match self.aligns[self.cell] {
                        Alignment::Left => self.write(" style=\"text-align: left\">"),
                        Alignment::Center => self.write(" style=\"text-align: center\">"),
                        Alignment::Right => self.write(" style=\"text-align: right\">"),
                        Alignment::Unspecified => self.write(">"),
                    }
                } else {
                    self.write(">");
                }
            },
            Tag::Emphasis => self.write("<em>"),
            Tag::Strong => self.write("<strong>"),
            Tag::Strikethrough => self.write("<del>"),
            Tag::Link { kind, dest_url, title } => {
                match kind {
                    LinkKind::Email => self.write("<a href=\"mailto:"),
                    LinkKind::Other => self.write("<a href=\""),
                }
                self.write_href(dest_url.as_str());
                if title.as_str().unicode_len() > 0 {
                    self.write("\" title=\"");
                    self.write_escaped_out(title.as_str());
                }
                self.write("\">");
            },
            Tag::Image { dest_url, .. } => {
                self.write("<img src=\"");
                self.write_href(dest_url.as_str());
                self.write("\" alt=\"");
            },
            Tag::MetadataBlock => {
                self.in_metadata = true;
            },
        }
    }

    /// Serializes the end of one tag; a heading's end finalizes its record.
    fn end_tag(&mut self, e: &TagEnd)
        requires
            head_wf(old(self)@.heads),
            old(self)@.cell < usize::MAX,
        ensures
            final(self)@ == step_end(old(self)@, *e),
            final(self)@.heads == old(self)@.heads,
            head_wf(final(self)@.heads),
            final(self)@.notes == old(self)@.notes,
            final(self)@.cell <= old(self)@.cell + 1,
            final(self)@.streams_used == old(self)@.streams_used,
    {
        match e {
            TagEnd::Paragraph => self.write("</p>\n"),
            TagEnd::Heading(level) => {
                let text = if self.have_header {
                    self.header.clone()
                } else {
                    String::new()
                };
                let lvl = self.heads.effective_level();
                let num = self.heads.repr();
                let ghost hs0 = self.headers@;
                self.headers.push(HeadingInfo { level: lvl, text, number: num });
                self.have_header = false;
                proof {
                    assert(infos_view(self.headers@) =~= infos_view(hs0).push(
                        info_view(self.headers@.last()),
                    ));
                }
                self.write("</");
                self.write_level(*level);
                self.write(">\n");
                proof {
                    assert(self@ =~~= step_end(old(self)@, *e));
                }
            },
            TagEnd::Table => self.write("</tbody></table>\n"),
            TagEnd::TableHead => {
                self.write("</tr></thead><tbody>\n");
                self.table_head = false;
            },
            TagEnd::TableRow => self.write("</tr>\n"),
            TagEnd::TableCell => {
                if self.table_head {
                    self.write("</th>");
                } else {
                    self.write("</td>");
                }
                self.cell = self.cell + 1;
            },
            TagEnd::BlockQuote => self.write("</blockquote>\n"),
            TagEnd::CodeBlock => {
                self.code = Option::None;
                self.write("</code></pre>");
            },
            TagEnd::List(ordered) => {
                if *ordered {
                    self.write("</ol>\n");
                } else {
                    self.write("</ul>\n");
                }
            },
            TagEnd::Item => self.write("</li>\n"),
            TagEnd::Emphasis => self.write("</em>"),
            TagEnd::Strong => self.write("</strong>"),
            TagEnd::Strikethrough => self.write("</del>"),
            TagEnd::Link => self.write("</a>"),
            TagEnd::Image => {},
            TagEnd::FootnoteDefinition => self.write("</div>\n"),
            TagEnd::HtmlBlock => {},
            TagEnd::MetadataBlock => {
                self.in_metadata = false;
            },
        }
    }
}


impl HtmlWriter {
    /// The alt-text subpass: consumes events through the matching end,
    /// writing only plain escaped text. Returns the position after the
    /// consumed end tag.
    #[verifier::rlimit(50)]
    fn raw_text(&mut self, events: &Vec<Event>, start: usize) -> (j: usize)
        requires
            start <= events@.len(),
            old(self)@.notes.len() <= start,
        ensures
            raw_run(old(self)@, events@, start as int, 0) == (RawOut {
                m: final(self)@,
                next: j as int,
            }),
            start <= j <= events@.len(),
            final(self)@.notes.len() <= j,
            final(self)@.cell == old(self)@.cell,
            final(self)@.streams_used == old(self)@.streams_used,
            final(self)@.heads == old(self)@.heads,
    {
        let n = events.len();
        let mut j = start;
        let mut nest: usize = 0;
        loop
            invariant_except_break
                start <= j <= n,
                n == events@.len(),
                nest <= j - start,
                self@.notes.len() <= j,
                self@.cell == old(self)@.cell,
                self@.streams_used == old(self)@.streams_used,
                self@.heads == old(self)@.heads,
                raw_run(self@, events@, j as int, nest as int) == raw_run(
                    old(self)@,
                    events@,
                    start as int,
                    0,
                ),
            ensures
                start <= j <= n,
                self@.notes.len() <= j,
                self@.cell == old(self)@.cell,
                self@.streams_used == old(self)@.streams_used,
                self@.heads == old(self)@.heads,
                raw_run(old(self)@, events@, start as int, 0) == (RawOut {
                    m: self@,
                    next: j as int,
                }),
            decreases n - j,
        {
            if j >= n {
                proof {
                    assert(raw_run(self@, events@, j as int, nest as int) == (RawOut {
                        m: self@,
                        next: j as int,
                    }));
                }
                break;
            }
            let ghost m0 = self@;
            match &events[j] {
                Event::Start(_) => {
                    nest = nest + 1;
                },
                Event::End(_) => {
                    if nest == 0 {
                        j = j + 1;
                        proof {
                            assert(raw_run(self@, events@, j - 1, 0) == (RawOut {
                                m: self@,
                                next: j as int,
                            }));
                        }
                        break;
                    }
                    nest = nest - 1;
                },
                Event::Html(_) => {},
                Event::InlineHtml(t) => {
                    self.write_escaped_out(t.as_str());
                    self.set_newline_from(t.as_str());
                },
                Event::Code(t) => {
                    self.write_escaped_out(t.as_str());
                    self.set_newline_from(t.as_str());
                },
                Event::Text(t) => {
                    self.write_escaped_out(t.as_str());
                    self.set_newline_from(t.as_str());
                },
                Event::SoftBreak => self.write(" "),
                Event::HardBreak => self.write(" "),
                Event::Rule => self.write(" "),
                Event::FootnoteReference(name) => {
                    self.out.push('[');
                    let ord = self.note_ordinal(name.as_str());
                    self.write_num(ord as u64);
                    self.out.push(']');
                    proof {
                        assert(self.out@ =~= m0.out + seq!['['] + dec_digits(
                            ordinal_of(m0.notes, name@),
                        ) + seq![']']);
                        assert(self@ =~~= rawfn_step(m0, name@));
                    }
                },
                Event::TaskListMarker(b) => {
                    if *b {
                        self.write("[x]");
                    } else {
                        self.write("[ ]");
                    }
                },
            }
            j = j + 1;
        }
        j
    }

    /// The main pass: one event at a time, left to right.
    #[verifier::rlimit(100)]
    fn run(&mut self, events: &Vec<Event>, streams: &Vec<Vec<HighlightEvent>>, syntax: &SyntaxConfig) -> (r:
        Option<Error>)
        requires
            head_wf(old(self)@.heads),
            old(self)@.cell == 0,
            old(self)@.notes.len() == 0,
            old(self)@.streams_used == 0,
        ensures
            ({
                let ro = run_spec(old(self)@, events@, streams@, *syntax, 0);
                &&& final(self)@ == ro.m
                &&& match r {
                    Option::None => ro.err is None,
                    Option::Some(e) => ro.err == Option::Some(e),
                }
            }),
    {
        let n = events.len();
        let mut i: usize = 0;
        loop
            invariant_except_break
                i <= n,
                n == events@.len(),
                head_wf(self@.heads),
                self@.cell <= i,
                self@.notes.len() <= i,
                self@.streams_used <= i,
                run_spec(self@, events@, streams@, *syntax, i as int) == run_spec(
                    old(self)@,
                    events@,
                    streams@,
                    *syntax,
                    0,
                ),
            ensures
                run_spec(old(self)@, events@, streams@, *syntax, 0) == (RunOut {
                    m: self@,
                    err: Option::<Error>::None,
                }),
            decreases n - i,
        {
            if i >= n {
                proof {
                    assert(run_spec(self@, events@, streams@, *syntax, i as int) == (RunOut {
                        m: self@,
                        err: Option::<Error>::None,
                    }));
                }
                break;
            }
            let ghost m0 = self@;
            if self.in_metadata {
                match &events[i] {
                    Event::End(TagEnd::MetadataBlock) => {
                        self.in_metadata = false;
                        proof {
                            assert(self@ =~~= (WModel { in_metadata: false, ..m0 }));
                        }
                    },
                    _ => {},
                }
                i = i + 1;
            } else {
                match &events[i] {
                    Event::Start(tag) => {
                        match tag {
                            Tag::Image { title, .. } => {
                                self.start_tag(tag);
                                let j = self.raw_text(events, i + 1);
                                let ghost mr = self@;
                                if title.as_str().unicode_len() > 0 {
                                    self.write("\" title=\"");
                                    self.write_escaped_out(title.as_str());
                                }
                                self.write("\" />");
                                proof {
                                    assert(self@ =~~= image_close(mr, title@));
                                    assert(run_spec(m0, events@, streams@, *syntax, i as int)
                                        == run_spec(self@, events@, streams@, *syntax, j as int));
                                }
                                i = j;
                            },
                            _ => {
                                self.start_tag(tag);
                                i = i + 1;
                            },
                        }
                    },
                    Event::End(e) => {
                        self.end_tag(e);
                        i = i + 1;
                    },
                    Event::Text(t) => {
                        let lang_opt: Option<String> = match &self.code {
                            Option::Some(l) => Option::Some(l.clone()),
                            Option::None => Option::None,
                        };
                        let mut plain = true;
                        match &lang_opt {
                            Option::Some(lang) => {
                                if lang.as_str().unicode_len() > 0 {
                                    plain = false;
                                }
                            },
                            Option::None => {},
                        }
                        if plain {
                            self.write_escaped(t.as_str());
                            self.set_newline_from(t.as_str());
                            proof {
                                assert(text_step(m0, t@, streams@, *syntax) == (TextOut {
                                    m: self@,
                                    err: Option::<Error>::None,
                                }));
                            }
                        } else {
                            let lang = match lang_opt {
                                Option::Some(l) => l,
                                Option::None => String::new(),
                            };
                            if !syntax.knows_language(lang.as_str()) {
                                let renderer = Renderer::new(syntax);
                                let empty: Vec<HighlightEvent> = Vec::new();
                                let res = renderer.render(lang.as_str(), t.as_str(), &empty);
                                match res {
                                    Result::Ok(rendered) => {
                                        let mut escaped = String::new();
                                        crate::escape::escape_html_into(
                                            &mut escaped,
                                            rendered.as_str(),
                                        );
                                        self.wrap_rendered(escaped.as_str());
                                        self.set_newline_from(t.as_str());
                                        proof {
                                            assert(rendered@ == t@);
                                            assert(escaped@ == html_escaped(t@));
                                            assert(text_step(m0, t@, streams@, *syntax) == (TextOut {
                                                m: self@,
                                                err: Option::<Error>::None,
                                            }));
                                        }
                                    },
                                    Result::Err(e) => {
                                        proof {
                                            assert(false);
                                        }
                                        return Option::Some(e);
                                    },
                                }
                            } else if self.streams_used >= streams.len() {
                                proof {
                                    assert(text_step(m0, t@, streams@, *syntax).err
                                        == Option::Some(Error::MissingStream));
                                    assert(run_spec(m0, events@, streams@, *syntax, i as int).err
                                        == Option::Some(Error::MissingStream));
                                    assert(run_spec(m0, events@, streams@, *syntax, i as int).m
                                        == m0);
                                }
                                return Option::Some(Error::MissingStream);
                            } else {
                                let used = self.streams_used;
                                let renderer = Renderer::new(syntax);
                                let res = renderer.render(lang.as_str(), t.as_str(), &streams[used]);
                                match res {
                                    Result::Err(e) => {
                                        proof {
                                            assert(text_step(m0, t@, streams@, *syntax).err
                                                == Option::Some(Error::InvalidStream));
                                            assert(run_spec(m0, events@, streams@, *syntax, i as int).err
                                                == Option::Some(Error::InvalidStream));
                                            assert(run_spec(m0, events@, streams@, *syntax, i as int).m
                                                == m0);
                                        }
                                        return Option::Some(Error::InvalidStream);
                                    },
                                    Result::Ok(rendered) => {
                                        self.streams_used = used + 1;
                                        proof {
                                            assert(self@ =~~= (WModel {
                                                streams_used: m0.streams_used + 1,
                                                ..m0
                                            }));
                                        }
                                        self.wrap_rendered(rendered.as_str());
                                        self.set_newline_from(t.as_str());
                                        proof {
                                            assert(text_step(m0, t@, streams@, *syntax) == (TextOut {
                                                m: self@,
                                                err: Option::<Error>::None,
                                            }));
                                        }
                                    },
                                }
                            }
                        }
                        i = i + 1;
                    },
                    Event::Code(t) => {
                        self.write("<code>");
                        self.write_escaped(t.as_str());
                        self.write("</code>");
                        i = i + 1;
                    },
                    Event::Html(t) => {
                        self.write(t.as_str());
                        i = i + 1;
                    },
                    Event::InlineHtml(t) => {
                        self.write(t.as_str());
                        i = i + 1;
                    },
                    Event::SoftBreak => {
                        self.write("\n");
                        i = i + 1;
                    },
                    Event::HardBreak => {
                        self.write("<br />\n");
                        i = i + 1;
                    },
                    Event::Rule => {
                        if self.end_newline {
                            self.write("<hr />\n");
                        } else {
                            self.write("\n<hr />\n");
                        }
                        i = i + 1;
                    },
                    Event::FootnoteReference(name) => {
                        self.write("<sup class=\"footnote-reference\"><a href=\"#");
                        self.write_escaped(name.as_str());
                        self.write("\">");
                        let ord = self.note_ordinal(name.as_str());
                        self.write_num(ord as u64);
                        self.write("</a></sup>");
                        proof {
                            assert(self@ =~~= fnref_step(m0, name@));
                        }
                        i = i + 1;
                    },
                    Event::TaskListMarker(b) => {
                        if *b {
                            self.write("<input disabled=\"\" type=\"checkbox\" checked=\"\"/>\n");
                        } else {
                            self.write("<input disabled=\"\" type=\"checkbox\"/>\n");
                        }
                        i = i + 1;
                    },
                }
            }
        }
        Option::None
    }
}

/// Renders a whole event stream to HTML, appending to a caller-supplied
/// output text, and returns the document's heading records. The capture
/// streams are consumed one per highlighted code text run, in order. The
/// output and records are a pure function of the inputs; a missing or
/// ill-formed capture stream aborts the pass with the output written so
/// far.
pub fn write_html(
    events: &Vec<Event>,
    streams: &Vec<Vec<HighlightEvent>>,
    syntax: &SyntaxConfig,
    out: &mut String,
) -> (r: Result<Vec<HeadingInfo>, Error>)
    ensures
        ({
            let ro = render_spec(events@, streams@, *syntax);
            &&& final(out)@ == old(out)@ + ro.m.out
            &&& match r {
                Result::Ok(h) => ro.err is None && infos_view(h@) == ro.m.headers,
                Result::Err(e) => ro.err == Option::Some(e),
            }
        }),
{
    let mut w = HtmlWriter::new();
    let r = w.run(events, streams, syntax);
    out.append(w.out.as_str());
    match r {
        Option::None => Result::Ok(w.headers),
        Option::Some(e) => Result::Err(e),
    }
}


/// The HTML element names a start tag's serialization opens and leaves
/// open, outermost first. A cell's element depends on whether the table
/// is in its header part. An image is a void element, closed within its
/// own serialization, and a footnote definition's ordinal label opens and
/// closes its `sup` within the start, so neither leaves anything beyond
/// what is listed here.
pub open spec fn opened_elems(t: Tag, table_head: bool) -> Seq<Seq<char>> {
    match t {
        Tag::Paragraph => seq!["p"@],
        Tag::Heading { level, .. } => seq![seq!['h'] + dec_digits(level as nat)],
        Tag::BlockQuote => seq!["blockquote"@],
        Tag::CodeBlock(_) => seq!["pre"@, "code"@],
        Tag::HtmlBlock => Seq::empty(),
        Tag::List(start) => if start is Some {
            seq!["ol"@]
        } else {
            seq!["ul"@]
        },
        Tag::Item => seq!["li"@],
        Tag::FootnoteDefinition(_) => seq!["div"@],
        Tag::Table(_) => seq!["table"@],
        Tag::TableHead => seq!["thead"@, "tr"@],
        Tag::TableRow => seq!["tr"@],
        Tag::TableCell => if table_head {
            seq!["th"@]
        } else {
            seq!["td"@]
        },
        Tag::Emphasis => seq!["em"@],
        Tag::Strong => seq!["strong"@],
        Tag::Strikethrough => seq!["del"@],
        Tag::Link { .. } => seq!["a"@],
        Tag::Image { .. } => Seq::empty(),
        Tag::MetadataBlock => Seq::empty(),
    }
}

/// The element names an end tag's serialization closes, in emission
/// order. The table header's end additionally opens `tbody`, which the
/// table's own end closes.
pub open spec fn closed_elems(e: TagEnd, table_head: bool) -> Seq<Seq<char>> {
    match e {
        TagEnd::Paragraph => seq!["p"@],
        TagEnd::Heading(level) => seq![seq!['h'] + dec_digits(level as nat)],
        TagEnd::BlockQuote => seq!["blockquote"@],
        TagEnd::CodeBlock => seq!["code"@, "pre"@],
        TagEnd::HtmlBlock => Seq::empty(),
        TagEnd::List(ordered) => if ordered {
            seq!["ol"@]
        } else {
            seq!["ul"@]
        },
        TagEnd::Item => seq!["li"@],
        TagEnd::FootnoteDefinition => seq!["div"@],
        TagEnd::Table => seq!["tbody"@, "table"@],
        TagEnd::TableHead => seq!["tr"@, "thead"@],
        TagEnd::TableRow => seq!["tr"@],
        TagEnd::TableCell => if table_head {
            seq!["th"@]
        } else {
            seq!["td"@]
        },
        TagEnd::Emphasis => seq!["em"@],
        TagEnd::Strong => seq!["strong"@],
        TagEnd::Strikethrough => seq!["del"@],
        TagEnd::Link => seq!["a"@],
        TagEnd::Image => Seq::empty(),
        TagEnd::MetadataBlock => Seq::empty(),
    }
}

/// Structural balance, tag by tag: every tag's end closes exactly the
/// elements its start opened, in reverse order, under the same table
/// state — the state only changes at a table header's end, outside any
/// cell of a disciplined stream. The one exception is the table itself,
/// whose end also closes the `tbody` that its header's end opened; the
/// companion lemma below accounts for it. Over a balanced event stream,
/// where every start meets its matching end, these equalities are what
/// makes every opened element close before the stream ends.
pub proof fn lemma_tag_elements_balance(t: Tag, table_head: bool)
    requires
        !(t is Table),
    ensures
        closed_elems(end_of(t), table_head) == opened_elems(t, table_head).reverse(),
{
    match t {
        Tag::CodeBlock(_) => {
            assert(closed_elems(end_of(t), table_head) =~= opened_elems(t, table_head).reverse());
        },
        Tag::TableHead => {
            assert(closed_elems(end_of(t), table_head) =~= opened_elems(t, table_head).reverse());
        },
        _ => {
            assert(closed_elems(end_of(t), table_head) =~= opened_elems(t, table_head).reverse());
        },
    }
}

/// The table's side of the trade: its end closes the `tbody` that the
/// header's end opened, then the `table` its own start opened.
pub proof fn lemma_table_elements_balance(aligns: Vec<Alignment>, table_head: bool)
    ensures
        closed_elems(TagEnd::Table, table_head) == (opened_elems(Tag::Table(aligns), table_head)
            + seq!["tbody"@]).reverse(),
{
    assert(closed_elems(TagEnd::Table, table_head) =~= (opened_elems(
        Tag::Table(aligns),
        table_head,
    ) + seq!["tbody"@]).reverse());
}

/// Determinism: two renders of identical event and capture streams under
/// the same theme and configuration produce identical output text,
/// identical heading records and the same outcome — the pass is a pure
/// function of its inputs, with no hidden or shared state.
pub proof fn lemma_render_deterministic(
    evs1: Seq<Event>,
    evs2: Seq<Event>,
    streams1: Seq<Vec<HighlightEvent>>,
    streams2: Seq<Vec<HighlightEvent>>,
    cfg1: SyntaxConfig,
    cfg2: SyntaxConfig,
)
    requires
        evs1 == evs2,
        streams1 == streams2,
        cfg1 == cfg2,
    ensures
        render_spec(evs1, streams1, cfg1).m.out == render_spec(evs2, streams2, cfg2).m.out,
        render_spec(evs1, streams1, cfg1).m.headers == render_spec(evs2, streams2, cfg2).m.headers,
        render_spec(evs1, streams1, cfg1).err == render_spec(evs2, streams2, cfg2).err,
{
}


/// The position right after the alt-text subpass started at `i` with the
/// given open depth: where the pass resumes after an image.
pub open spec fn raw_skip(evs: Seq<Event>, i: int, nest: int) -> int
    decreases evs.len() - i,
{
    if i < 0 || i >= evs.len() {
        i
    } else {
        match evs[i] {
            Event::Start(_) => raw_skip(evs, i + 1, nest + 1),
            Event::End(_) => if nest == 0 {
                i + 1
            } else {
                raw_skip(evs, i + 1, nest - 1)
            },
            _ => raw_skip(evs, i + 1, nest),
        }
    }
}

/// The subpass stays within the stream and always makes progress.
pub proof fn lemma_raw_skip_bounds(evs: Seq<Event>, i: int, nest: int)
    requires
        0 <= i <= evs.len(),
    ensures
        i <= raw_skip(evs, i, nest) <= evs.len(),
        i < evs.len() ==> raw_skip(evs, i, nest) >= i + 1,
    decreases evs.len() - i,
{
    if i < evs.len() {
        match evs[i] {
            Event::Start(_) => lemma_raw_skip_bounds(evs, i + 1, nest + 1),
            Event::End(_) => if nest != 0 {
                lemma_raw_skip_bounds(evs, i + 1, nest - 1)
            },
            _ => lemma_raw_skip_bounds(evs, i + 1, nest),
        }
    }
}

/// The subpass consumes the same events whatever the render state: its
/// resume position is a function of the stream alone.
pub proof fn lemma_raw_skip_is_raw_next(m: WModel, evs: Seq<Event>, i: int, nest: int)
    ensures
        raw_run(m, evs, i, nest).next == raw_skip(evs, i, nest),
    decreases evs.len() - i,
{
    if 0 <= i < evs.len() {
        match evs[i] {
            Event::Start(_) => lemma_raw_skip_is_raw_next(m, evs, i + 1, nest + 1),
            Event::End(_) => if nest != 0 {
                lemma_raw_skip_is_raw_next(m, evs, i + 1, nest - 1)
            },
            Event::Html(_) => lemma_raw_skip_is_raw_next(m, evs, i + 1, nest),
            Event::InlineHtml(t) => lemma_raw_skip_is_raw_next(
                set_nl(wesc_out(m, t@), t@),
                evs,
                i + 1,
                nest,
            ),
            Event::Code(t) => lemma_raw_skip_is_raw_next(
                set_nl(wesc_out(m, t@), t@),
                evs,
                i + 1,
                nest,
            ),
            Event::Text(t) => lemma_raw_skip_is_raw_next(
                set_nl(wesc_out(m, t@), t@),
                evs,
                i + 1,
                nest,
            ),
            Event::SoftBreak => lemma_raw_skip_is_raw_next(wr(m, " "@), evs, i + 1, nest),
            Event::HardBreak => lemma_raw_skip_is_raw_next(wr(m, " "@), evs, i + 1, nest),
            Event::Rule => lemma_raw_skip_is_raw_next(wr(m, " "@), evs, i + 1, nest),
            Event::FootnoteReference(name) => lemma_raw_skip_is_raw_next(
                rawfn_step(m, name@),
                evs,
                i + 1,
                nest,
            ),
            Event::TaskListMarker(b) => if b {
                lemma_raw_skip_is_raw_next(wr(m, "[x]"@), evs, i + 1, nest)
            } else {
                lemma_raw_skip_is_raw_next(wr(m, "[ ]"@), evs, i + 1, nest)
            },
        }
    }
}

/// The position after the first metadata end at or past `i`: where the
/// pass resumes after a metadata block, whose content it suppresses.
pub open spec fn meta_skip(evs: Seq<Event>, i: int) -> int
    decreases evs.len() - i,
{
    if i < 0 || i >= evs.len() {
        i
    } else {
        match evs[i] {
            Event::End(TagEnd::MetadataBlock) => i + 1,
            _ => meta_skip(evs, i + 1),
        }
    }
}

/// The metadata skip stays within the stream and always makes progress.
pub proof fn lemma_meta_skip_bounds(evs: Seq<Event>, i: int)
    requires
        0 <= i <= evs.len(),
    ensures
        i <= meta_skip(evs, i) <= evs.len(),
        i < evs.len() ==> meta_skip(evs, i) >= i + 1,
    decreases evs.len() - i,
{
    if i < evs.len() {
        match evs[i] {
            Event::End(TagEnd::MetadataBlock) => {},
            _ => {
                lemma_meta_skip_bounds(evs, i + 1);
            },
        }
    }
}

/// No metadata block starts in the index range `[lo, hi)`.
pub open spec fn no_meta_starts(evs: Seq<Event>, lo: int, hi: int) -> bool {
    forall|k: int|
        lo <= k < hi ==> !((#[trigger] evs[k]) matches Event::Start(Tag::MetadataBlock))
}

/// Pops a run of element closes off an element stack: each close must
/// name the innermost open element. `None` on any mismatch.
pub open spec fn pop_elems(estack: Seq<Seq<char>>, closes: Seq<Seq<char>>) -> Option<
    Seq<Seq<char>>,
>
    decreases closes.len(),
{
    if closes.len() == 0 {
        Option::Some(estack)
    } else if estack.len() > 0 && estack.last() == closes.first() {
        pop_elems(estack.drop_last(), closes.drop_first())
    } else {
        Option::None
    }
}

/// Closing the exact reverse of what sits on top of the stack succeeds
/// and uncovers what lay below.
pub proof fn lemma_pop_reverse(st: Seq<Seq<char>>, es: Seq<Seq<char>>)
    ensures
        pop_elems(st + es, es.reverse()) == Option::Some(st),
    decreases es.len(),
{
    if es.len() == 0 {
        assert(st + es =~= st);
        assert(es.reverse() =~= Seq::<Seq<char>>::empty());
    } else {
        assert((st + es).last() == es.last());
        assert(es.reverse().first() == es.last());
        assert((st + es).drop_last() =~= st + es.drop_last());
        assert(es.reverse().drop_first() =~= es.drop_last().reverse());
        lemma_pop_reverse(st, es.drop_last());
        assert((st + es).len() > 0);
    }
}

/// The alt-text subpass lands exactly after the end tag that matches the
/// image: from a balanced position with `nest + 1` tags still open above
/// the rest, it resumes where those tags have all been closed.
pub proof fn lemma_raw_skip_balanced(evs: Seq<Event>, i: int, nest: int, stack: Seq<Tag>)
    requires
        0 <= i <= evs.len(),
        balanced_from(evs, i, stack),
        stack.len() >= nest + 1,
        nest >= 0,
    ensures
        i <= raw_skip(evs, i, nest) <= evs.len(),
        balanced_from(evs, raw_skip(evs, i, nest), stack.take(stack.len() - (nest + 1))),
    decreases evs.len() - i,
{
    lemma_raw_skip_bounds(evs, i, nest);
    if i >= evs.len() {
    } else {
        match evs[i] {
            Event::Start(t) => {
                lemma_raw_skip_balanced(evs, i + 1, nest + 1, stack.push(t));
                assert(stack.push(t).take(stack.push(t).len() - (nest + 2)) =~= stack.take(
                    stack.len() - (nest + 1),
                ));
            },
            Event::End(e) => {
                if nest == 0 {
                    assert(stack.take(stack.len() - 1) =~= stack.drop_last());
                } else {
                    lemma_raw_skip_balanced(evs, i + 1, nest - 1, stack.drop_last());
                    assert(stack.drop_last().take(stack.drop_last().len() - nest) =~= stack.take(
                        stack.len() - (nest + 1),
                    ));
                }
            },
            _ => {
                lemma_raw_skip_balanced(evs, i + 1, nest, stack);
            },
        }
    }
}

/// A name that the list does not yet hold sits past the end.
pub proof fn lemma_note_idx_new(notes: Seq<Seq<char>>, name: Seq<char>)
    requires
        forall|k: int| 0 <= k < notes.len() ==> #[trigger] notes[k] != name,
    ensures
        note_idx(notes, name) == notes.len(),
        ordinal_of(notes, name) == notes.len() + 1,
    decreases notes.len(),
{
    if notes.len() > 0 {
        assert(notes[0] != name);
        lemma_note_idx_new(notes.drop_first(), name);
    }
}

/// Footnote ordinals are first-seen and final: the first sighting of a
/// name — reference or definition, whichever comes first in document
/// order — assigns the next unused ordinal, and any later sighting of
/// any name leaves it untouched.
pub proof fn lemma_ordinal_first_seen(notes: Seq<Seq<char>>, name: Seq<char>, later: Seq<char>)
    requires
        note_idx(notes, name) < notes.len(),
    ensures
        ordinal_of(notes_after(notes, later), name) == ordinal_of(notes, name),
        notes_after(notes, name) == notes,
    decreases notes.len(),
{
    lemma_note_idx_push(notes, name, later);
}

/// Appending a name does not move an earlier name's first position.
proof fn lemma_note_idx_push(notes: Seq<Seq<char>>, name: Seq<char>, x: Seq<char>)
    requires
        note_idx(notes, name) < notes.len(),
    ensures
        note_idx(notes.push(x), name) == note_idx(notes, name),
    decreases notes.len(),
{
    if notes.first() == name {
        assert(notes.push(x).first() == name);
    } else {
        lemma_note_idx_push(notes.drop_first(), name, x);
        assert(notes.push(x).drop_first() =~= notes.drop_first().push(x));
    }
}


/// One open structural frame: its tag, and — for a table — whether its
/// header has ended, so that its body element is open.
pub ghost struct OpenFrame {
    pub tag: Tag,
    pub body_open: bool,
}

/// The tags of a frame stack.
pub open spec fn frame_tags(fr: Seq<OpenFrame>) -> Seq<Tag> {
    fr.map_values(|f: OpenFrame| f.tag)
}

/// Whether a table header is among the open frames: exactly then do
/// cells serialize as header cells.
pub open spec fn has_head(fr: Seq<OpenFrame>) -> bool {
    exists|k: int| 0 <= k < fr.len() && (#[trigger] fr[k]).tag is TableHead
}

/// The elements one open frame holds open: what its start opened, plus
/// the table body its header's end opened.
pub open spec fn frame_elems(f: OpenFrame, th_below: bool) -> Seq<Seq<char>> {
    opened_elems(f.tag, th_below) + (if f.tag is Table && f.body_open {
        seq!["tbody"@]
    } else {
        Seq::empty()
    })
}

/// The elements a whole frame stack holds open, outermost first.
pub open spec fn frames_elems(fr: Seq<OpenFrame>) -> Seq<Seq<char>>
    decreases fr.len(),
{
    if fr.len() == 0 {
        Seq::empty()
    } else {
        frames_elems(fr.drop_last()) + frame_elems(fr.last(), has_head(fr.drop_last()))
    }
}

/// Table discipline over a stream: a table's header opens directly under
/// its table and only once, no table opens inside a header, a table does
/// not end before its header has, and a metadata block's suppressed
/// content holds no nested metadata start — the shapes under which the
/// serialized elements can balance.
pub open spec fn table_ok(evs: Seq<Event>, i: int, fr: Seq<OpenFrame>) -> bool
    decreases evs.len() - i,
    via table_ok_dec
{
    if i < 0 || i >= evs.len() {
        true
    } else {
        match evs[i] {
            Event::Start(t) => match t {
                Tag::Image { .. } => table_ok(evs, raw_skip(evs, i + 1, 0), fr),
                Tag::TableHead => fr.len() > 0 && fr.last().tag is Table && !fr.last().body_open
                    && !has_head(fr) && table_ok(
                    evs,
                    i + 1,
                    fr.push(OpenFrame { tag: t, body_open: false }),
                ),
                Tag::Table(_) => !has_head(fr) && table_ok(
                    evs,
                    i + 1,
                    fr.push(OpenFrame { tag: t, body_open: false }),
                ),
                Tag::MetadataBlock => no_meta_starts(evs, i + 1, meta_skip(evs, i + 1) - 1)
                    && table_ok(evs, meta_skip(evs, i + 1), fr),
                _ => table_ok(evs, i + 1, fr.push(OpenFrame { tag: t, body_open: false })),
            },
            Event::End(e) => match e {
                TagEnd::TableHead => fr.len() >= 2 && table_ok(
                    evs,
                    i + 1,
                    fr.drop_last().update(
                        fr.len() - 2,
                        OpenFrame { tag: fr[fr.len() - 2].tag, body_open: true },
                    ),
                ),
                TagEnd::Table => fr.len() > 0 && fr.last().body_open && table_ok(
                    evs,
                    i + 1,
                    fr.drop_last(),
                ),
                _ => fr.len() > 0 && table_ok(evs, i + 1, fr.drop_last()),
            },
            _ => table_ok(evs, i + 1, fr),
        }
    }
}

#[via_fn]
proof fn table_ok_dec(evs: Seq<Event>, i: int, fr: Seq<OpenFrame>) {
    if 0 <= i < evs.len() {
        match evs[i] {
            Event::Start(t) => match t {
                Tag::Image { .. } => {
                    lemma_raw_skip_bounds(evs, i + 1, 0);
                },
                Tag::MetadataBlock => {
                    lemma_meta_skip_bounds(evs, i + 1);
                },
                _ => {},
            },
            _ => {},
        }
    }
}

/// The element-level account of the pass, with the table state threaded
/// through: each start pushes the elements it opens under the current
/// cell mode, each end must close the innermost ones, a table header's
/// end closes its own elements and opens the table body, an image's
/// nested events are consumed by the alt-text subpass, a metadata
/// block's content is suppressed up to the first metadata end, and
/// nothing stays open at the end. Code text and raw HTML are flat at
/// this level.
pub open spec fn elems_closed(evs: Seq<Event>, i: int, th: bool, estack: Seq<Seq<char>>) -> bool
    decreases evs.len() - i,
    via elems_closed_dec
{
    if i < 0 || i >= evs.len() {
        estack.len() == 0
    } else {
        match evs[i] {
            Event::Start(t) => match t {
                Tag::Image { .. } => elems_closed(evs, raw_skip(evs, i + 1, 0), th, estack),
                Tag::MetadataBlock => elems_closed(evs, meta_skip(evs, i + 1), th, estack),
                Tag::TableHead => elems_closed(evs, i + 1, true, estack + opened_elems(t, th)),
                _ => elems_closed(evs, i + 1, th, estack + opened_elems(t, th)),
            },
            Event::End(e) => match pop_elems(estack, closed_elems(e, th)) {
                Option::Some(rest) => if e is TableHead {
                    elems_closed(evs, i + 1, false, rest + seq!["tbody"@])
                } else {
                    elems_closed(evs, i + 1, th, rest)
                },
                Option::None => false,
            },
            _ => elems_closed(evs, i + 1, th, estack),
        }
    }
}

#[via_fn]
proof fn elems_closed_dec(evs: Seq<Event>, i: int, th: bool, estack: Seq<Seq<char>>) {
    if 0 <= i < evs.len() {
        match evs[i] {
            Event::Start(t) => match t {
                Tag::Image { .. } => {
                    lemma_raw_skip_bounds(evs, i + 1, 0);
                },
                Tag::MetadataBlock => {
                    lemma_meta_skip_bounds(evs, i + 1);
                },
                _ => {},
            },
            _ => {},
        }
    }
}

/// Well-formedness of an open frame stack: only tables carry a body
/// flag, a header frame sits directly on its table whose body is not yet
/// open, no table sits above a header, headers are unique, and no
/// metadata frame exists.
pub open spec fn wf_frames(fr: Seq<OpenFrame>) -> bool {
    &&& (forall|k: int| 0 <= k < fr.len() && (#[trigger] fr[k]).body_open ==> fr[k].tag is Table)
    &&& (forall|k: int|
        0 <= k < fr.len() && (#[trigger] fr[k]).tag is TableHead ==> k >= 1 && fr[k - 1].tag
            is Table && !fr[k - 1].body_open)
    &&& (forall|k1: int, k2: int|
        0 <= k1 < k2 < fr.len() && (#[trigger] fr[k1]).tag is TableHead ==> !((
        #[trigger] fr[k2]).tag is Table))
    &&& (forall|k1: int, k2: int|
        0 <= k1 < fr.len() && 0 <= k2 < fr.len() && (#[trigger] fr[k1]).tag is TableHead && (
        #[trigger] fr[k2]).tag is TableHead ==> k1 == k2)
    &&& (forall|k: int| 0 <= k < fr.len() ==> !((#[trigger] fr[k]).tag is MetadataBlock))
}

/// Inside a metadata block the pass suppresses every event until the
/// first metadata end. Under balance, and with no nested metadata start
/// in the suppressed range, that end is the one matching the block's
/// start, so the pass resumes with exactly the enclosing tags open.
proof fn lemma_meta_skip_balanced(evs: Seq<Event>, i: int, stack: Seq<Tag>, extra: Seq<Tag>)
    requires
        0 <= i <= evs.len(),
        balanced_from(evs, i, stack + seq![Tag::MetadataBlock] + extra),
        no_meta_starts(evs, i, meta_skip(evs, i) - 1),
        forall|k: int| 0 <= k < extra.len() ==> !((#[trigger] extra[k]) is MetadataBlock),
    ensures
        i <= meta_skip(evs, i) <= evs.len(),
        balanced_from(evs, meta_skip(evs, i), stack),
    decreases evs.len() - i,
{
    lemma_meta_skip_bounds(evs, i);
    let full = stack + seq![Tag::MetadataBlock] + extra;
    if i >= evs.len() {
        assert(full.len() == 0);
        assert(full[stack.len() as int] == Tag::MetadataBlock);
        assert(false);
    } else {
        match evs[i] {
            Event::Start(t) => {
                assert(meta_skip(evs, i) == meta_skip(evs, i + 1));
                lemma_meta_skip_bounds(evs, i + 1);
                if meta_skip(evs, i + 1) <= i + 1 {
                    assert(i + 1 >= evs.len());
                    assert(balanced_from(evs, i + 1, full.push(t)));
                    assert(full.push(t).len() == 0);
                    assert(false);
                } else {
                    assert(i < meta_skip(evs, i) - 1);
                    assert(!(evs[i] matches Event::Start(Tag::MetadataBlock)));
                    assert(!(t is MetadataBlock));
                    assert(stack + seq![Tag::MetadataBlock] + extra.push(t) =~= full.push(t));
                    assert(forall|k: int|
                        0 <= k < extra.push(t).len() ==> !((#[trigger] extra.push(t)[k])
                            is MetadataBlock));
                    lemma_meta_skip_balanced(evs, i + 1, stack, extra.push(t));
                }
            },
            Event::End(e) => {
                assert(full.len() > 0);
                if extra.len() == 0 {
                    assert(full.last() == Tag::MetadataBlock) by {
                        assert(full =~= stack.push(Tag::MetadataBlock));
                    }
                    assert(e == end_of(Tag::MetadataBlock));
                    assert(meta_skip(evs, i) == i + 1);
                    assert(full.drop_last() =~= stack);
                } else {
                    let tl = extra.last();
                    assert(full.last() == tl);
                    assert(e == end_of(tl));
                    assert(!(tl is MetadataBlock));
                    assert(!(e is MetadataBlock));
                    assert(meta_skip(evs, i) == meta_skip(evs, i + 1));
                    assert(full.drop_last() =~= stack + seq![Tag::MetadataBlock]
                        + extra.drop_last());
                    assert(forall|k: int|
                        0 <= k < extra.len() - 1 ==> extra.drop_last()[k] == #[trigger] extra[k]);
                    lemma_meta_skip_balanced(evs, i + 1, stack, extra.drop_last());
                }
            },
            _ => {
                assert(meta_skip(evs, i) == meta_skip(evs, i + 1));
                lemma_meta_skip_balanced(evs, i + 1, stack, extra);
            },
        }
    }
}

/// The inductive heart of the balance theorem with tables: from a
/// balanced, disciplined position whose element stack is exactly what
/// the open frames hold, every element closes in order and nothing
/// stays open.
pub proof fn lemma_stream_balance_from(evs: Seq<Event>, i: int, fr: Seq<OpenFrame>)
    requires
        0 <= i <= evs.len(),
        balanced_from(evs, i, frame_tags(fr)),
        table_ok(evs, i, fr),
        wf_frames(fr),
    ensures
        elems_closed(evs, i, has_head(fr), frames_elems(fr)),
    decreases evs.len() - i,
{
    let stack = frame_tags(fr);
    assert(stack.len() == fr.len());
    if i >= evs.len() {
        assert(fr.len() == 0);
        assert(frames_elems(fr).len() == 0);
    } else {
        match evs[i] {
            Event::Start(t) => {
                match t {
                    Tag::Image { .. } => {
                        lemma_raw_skip_balanced(evs, i + 1, 0, stack.push(t));
                        let j = raw_skip(evs, i + 1, 0);
                        assert(stack.push(t).take(stack.push(t).len() - 1) =~= stack);
                        lemma_stream_balance_from(evs, j, fr);
                    },
                    Tag::MetadataBlock => {
                        lemma_meta_skip_bounds(evs, i + 1);
                        assert(stack + seq![Tag::MetadataBlock] + Seq::<Tag>::empty()
                            =~= stack.push(t));
                        lemma_meta_skip_balanced(evs, i + 1, stack, Seq::empty());
                        let j = meta_skip(evs, i + 1);
                        lemma_stream_balance_from(evs, j, fr);
                    },
                    _ => {
                        let f = OpenFrame { tag: t, body_open: false };
                        let fr2 = fr.push(f);
                        assert(frame_tags(fr2) =~= stack.push(t));
                        assert(fr2.drop_last() =~= fr);
                        assert(wf_frames(fr2)) by {
                            assert(forall|k: int|
                                0 <= k < fr.len() ==> fr2[k] == #[trigger] fr[k]);
                            if t is TableHead {
                                assert(fr2[fr2.len() - 2].tag is Table);
                            }
                            if t is Table {
                                assert forall|k1: int, k2: int|
                                    0 <= k1 < k2 < fr2.len() && (#[trigger] fr2[k1]).tag
                                        is TableHead implies !((#[trigger] fr2[k2]).tag
                                    is Table) by {
                                    if k2 == fr2.len() - 1 {
                                        assert(fr[k1].tag is TableHead);
                                        assert(has_head(fr));
                                    }
                                }
                            }
                        }
                        lemma_stream_balance_from(evs, i + 1, fr2);
                        assert(frames_elems(fr2) =~= frames_elems(fr) + frame_elems(
                            f,
                            has_head(fr),
                        ));
                        if t is TableHead {
                            assert(has_head(fr2)) by {
                                assert(fr2[fr2.len() - 1].tag is TableHead);
                            }
                            assert(!has_head(fr));
                            assert(frame_elems(f, has_head(fr)) =~= opened_elems(t, false));
                            assert(opened_elems(t, false) =~= opened_elems(t, has_head(fr)));
                        } else {
                            assert(has_head(fr2) == has_head(fr)) by {
                                if has_head(fr) {
                                    let k = choose|k: int|
                                        0 <= k < fr.len() && (#[trigger] fr[k]).tag is TableHead;
                                    assert(fr2[k].tag is TableHead);
                                }
                                if has_head(fr2) {
                                    let k = choose|k: int|
                                        0 <= k < fr2.len() && (#[trigger] fr2[k]).tag
                                            is TableHead;
                                    assert(k < fr.len());
                                    assert(fr[k].tag is TableHead);
                                }
                            }
                            assert(frame_elems(f, has_head(fr)) =~= opened_elems(
                                t,
                                has_head(fr),
                            ));
                        }
                    },
                }
            },
            Event::End(e) => {
                assert(stack.len() > 0);
                let f = fr.last();
                let t = f.tag;
                assert(stack.last() == t);
                assert(end_of(t) == e);
                let thb = has_head(fr.drop_last());
                assert(frames_elems(fr) == frames_elems(fr.drop_last()) + frame_elems(f, thb));
                if e is TableHead {
                    assert(t is TableHead);
                    assert(has_head(fr)) by {
                        assert(fr[fr.len() - 1].tag is TableHead);
                    }
                    let n2 = fr.len() - 2;
                    assert(fr[n2].tag is Table && !fr[n2].body_open);
                    assert(!thb) by {
                        if has_head(fr.drop_last()) {
                            let k = choose|k: int|
                                0 <= k < fr.len() - 1 && (#[trigger] fr.drop_last()[k]).tag
                                    is TableHead;
                            assert(fr[k].tag is TableHead);
                            assert(k == fr.len() - 1);
                        }
                    }
                    assert(frame_elems(f, thb) =~= opened_elems(t, thb));
                    lemma_tag_elements_balance(t, true);
                    assert(opened_elems(t, thb) =~= opened_elems(t, true));
                    assert(closed_elems(e, true) =~= closed_elems(e, has_head(fr)));
                    lemma_pop_reverse(frames_elems(fr.drop_last()), opened_elems(t, true));
                    assert(pop_elems(frames_elems(fr), closed_elems(e, has_head(fr)))
                        == Option::Some(frames_elems(fr.drop_last())));
                    let tf = OpenFrame { tag: fr[n2].tag, body_open: true };
                    let fr2 = fr.drop_last().update(n2, tf);
                    assert(frame_tags(fr2) =~= stack.drop_last());
                    assert(wf_frames(fr2)) by {
                        assert(forall|k: int|
                            0 <= k < n2 ==> fr2[k] == #[trigger] fr[k]);
                        assert forall|k: int|
                            0 <= k < fr2.len() && (#[trigger] fr2[k]).tag is TableHead implies k
                            >= 1 && fr2[k - 1].tag is Table && !fr2[k - 1].body_open by {
                            if k == n2 {
                                assert(fr2[k].tag == fr[n2].tag);
                                assert(false);
                            } else {
                                assert(fr[k].tag is TableHead);
                                assert(k == fr.len() - 1);
                                assert(false);
                            }
                        }
                    }
                    assert(!has_head(fr2)) by {
                        if has_head(fr2) {
                            let k = choose|k: int|
                                0 <= k < fr2.len() && (#[trigger] fr2[k]).tag is TableHead;
                            if k == n2 {
                                assert(fr2[k].tag == fr[n2].tag);
                            } else {
                                assert(fr[k].tag is TableHead);
                                assert(k == fr.len() - 1);
                            }
                        }
                    }
                    lemma_stream_balance_from(evs, i + 1, fr2);
                    assert(fr2.drop_last() =~= fr.drop_last().drop_last());
                    assert(fr2.last() == tf);
                    assert(frames_elems(fr2) == frames_elems(fr2.drop_last()) + frame_elems(
                        tf,
                        has_head(fr2.drop_last()),
                    ));
                    assert(frames_elems(fr.drop_last()) == frames_elems(
                        fr.drop_last().drop_last(),
                    ) + frame_elems(
                        OpenFrame { tag: fr[n2].tag, body_open: false },
                        has_head(fr.drop_last().drop_last()),
                    )) by {
                        assert(fr.drop_last().last() == fr[n2]);
                        assert(fr[n2] == (OpenFrame { tag: fr[n2].tag, body_open: false }));
                    }
                    assert(frames_elems(fr2) =~= frames_elems(fr.drop_last()) + seq!["tbody"@])
                        by {
                        assert(frame_elems(tf, has_head(fr2.drop_last())) =~= opened_elems(
                            fr[n2].tag,
                            has_head(fr2.drop_last()),
                        ) + seq!["tbody"@]);
                        assert(frame_elems(
                            OpenFrame { tag: fr[n2].tag, body_open: false },
                            has_head(fr.drop_last().drop_last()),
                        ) =~= opened_elems(fr[n2].tag, has_head(fr.drop_last().drop_last())));
                        assert(opened_elems(fr[n2].tag, true) =~= opened_elems(fr[n2].tag, false));
                    }
                } else if e is Table {
                    assert(t is Table);
                    assert(f.body_open);
                    assert(!has_head(fr)) by {
                        if has_head(fr) {
                            let k = choose|k: int|
                                0 <= k < fr.len() && (#[trigger] fr[k]).tag is TableHead;
                            assert(k < fr.len() - 1);
                            assert(!(fr[fr.len() - 1].tag is Table));
                        }
                    }
                    assert(!thb) by {
                        if has_head(fr.drop_last()) {
                            let k = choose|k: int|
                                0 <= k < fr.len() - 1 && (#[trigger] fr.drop_last()[k]).tag
                                    is TableHead;
                            assert(fr[k].tag is TableHead);
                        }
                    }
                    let es = opened_elems(t, false) + seq!["tbody"@];
                    assert(frame_elems(f, thb) =~= es);
                    assert(closed_elems(e, has_head(fr)) =~= es.reverse());
                    lemma_pop_reverse(frames_elems(fr.drop_last()), es);
                    assert(pop_elems(frames_elems(fr), closed_elems(e, has_head(fr)))
                        == Option::Some(frames_elems(fr.drop_last())));
                    assert(frame_tags(fr.drop_last()) =~= stack.drop_last());
                    assert(wf_frames(fr.drop_last())) by {
                        assert(forall|k: int|
                            0 <= k < fr.len() - 1 ==> fr.drop_last()[k] == #[trigger] fr[k]);
                    }
                    lemma_stream_balance_from(evs, i + 1, fr.drop_last());
                    assert(has_head(fr.drop_last()) == has_head(fr));
                } else {
                    assert(!(t is Table) && !(t is TableHead));
                    assert(has_head(fr) == thb) by {
                        if has_head(fr) {
                            let k = choose|k: int|
                                0 <= k < fr.len() && (#[trigger] fr[k]).tag is TableHead;
                            assert(k < fr.len() - 1);
                            assert(fr.drop_last()[k].tag is TableHead);
                        }
                        if thb {
                            let k = choose|k: int|
                                0 <= k < fr.len() - 1 && (#[trigger] fr.drop_last()[k]).tag
                                    is TableHead;
                            assert(fr[k].tag is TableHead);
                        }
                    }
                    assert(!f.body_open);
                    assert(frame_elems(f, thb) =~= opened_elems(t, thb));
                    lemma_tag_elements_balance(t, thb);
                    lemma_pop_reverse(frames_elems(fr.drop_last()), opened_elems(t, thb));
                    assert(pop_elems(frames_elems(fr), closed_elems(e, has_head(fr)))
                        == Option::Some(frames_elems(fr.drop_last())));
                    assert(frame_tags(fr.drop_last()) =~= stack.drop_last());
                    assert(wf_frames(fr.drop_last())) by {
                        assert(forall|k: int|
                            0 <= k < fr.len() - 1 ==> fr.drop_last()[k] == #[trigger] fr[k]);
                    }
                    lemma_stream_balance_from(evs, i + 1, fr.drop_last());
                    assert(has_head(fr.drop_last()) == has_head(fr));
                }
            },
            _ => {
                lemma_stream_balance_from(evs, i + 1, fr);
            },
        }
    }
}

/// Structural balance for a whole stream, tables and metadata blocks
/// included: over any balanced event sequence that keeps table
/// discipline, every HTML element the pass opens — paragraphs, headings,
/// lists, tables with their traded body element, all the rest — closes
/// before the stream ends, innermost first, and none stays open, while a
/// metadata block's suppressed content opens nothing at all. Balance of
/// the input is preserved in the output's element structure, not merely
/// assumed.
pub proof fn lemma_stream_balance(evs: Seq<Event>)
    requires
        balanced(evs),
        table_ok(evs, 0, Seq::empty()),
    ensures
        elems_closed(evs, 0, false, Seq::empty()),
{
    assert(frame_tags(Seq::<OpenFrame>::empty()) =~= Seq::<Tag>::empty());
    assert(frames_elems(Seq::<OpenFrame>::empty()) =~= Seq::<Seq<char>>::empty());
    lemma_stream_balance_from(evs, 0, Seq::empty());
    assert(!has_head(Seq::<OpenFrame>::empty()));
}


/// The inline style a table cell opens with: a function of the column's
/// alignment alone. Columns outside the alignment list get none.
pub open spec fn cell_style(aligns: Seq<Alignment>, cell: int) -> Seq<char> {
    if 0 <= cell < aligns.len() {
        match aligns[cell] {
            Alignment::Left => " style=\"text-align: left\">"@,
            Alignment::Center => " style=\"text-align: center\">"@,
            Alignment::Right => " style=\"text-align: right\">"@,
            Alignment::Unspecified => ">"@,
        }
    } else {
        ">"@
    }
}

/// Table alignment is per column, independent of the row: every cell's
/// start writes its part's opening element and then a style suffix that
/// is a function of the column index and the alignment list alone — the
/// same in header and body rows.
pub proof fn lemma_cell_style_by_column(m: WModel)
    ensures
        step_start(m, Tag::TableCell) == wr(
            wr(
                m,
                if m.table_head {
                    "<th"@
                } else {
                    "<td"@
                },
            ),
            cell_style(m.aligns, m.cell),
        ),
{
}

/// Footnote reference sites, definition sites, and alt-text sightings
/// share one ordinal map: for the same prior state and name, every site
/// kind prints the ordinal of the name's first sighting and leaves the
/// same map behind — so whichever site kind comes first in document
/// order fixes the ordinal for all later sites of that name.
pub proof fn lemma_footnote_sites_share_one_map(m: WModel, t: Tag)
    ensures
        match t {
            Tag::FootnoteDefinition(nm) => step_start(m, t).notes == notes_after(m.notes, nm@)
                && fnref_step(m, nm@).notes == notes_after(m.notes, nm@) && rawfn_step(
                m,
                nm@,
            ).notes == notes_after(m.notes, nm@),
            _ => true,
        },
{
}

} // verus!


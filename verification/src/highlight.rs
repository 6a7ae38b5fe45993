//! The syntax highlighting pipeline.
//!
//! The external incremental parser/query engine yields, for one code block,
//! a stream of highlight events: source ranges, and starts and ends of
//! highlighted regions named by an index into a fixed category vocabulary.
//! The renderer turns that stream into styled HTML text: every region
//! becomes a span whose style comes from the theme table, every source range
//! is HTML-escaped, and at each newline all open spans are closed and
//! reopened so each output line is well-formed on its own.
//!
//! An unknown language is not an error: the pipeline hands the input text
//! back unchanged, and the event-to-HTML pass escapes that fallback like
//! any other unhighlighted code text.

use vstd::prelude::*;
use crate::escape::html_escape_char;
use crate::theme::{Theme, theme_lookup};
use crate::strutil::str_eq;

verus! {

/// One event of the capture stream for a code block. Ranges are character
/// offsets into the code text.
#[derive(Clone, Copy)]
pub enum HighlightEvent {
    /// A run of source text.
    Source { start: usize, end: usize },
    /// A highlighted region opens; the payload indexes the category
    /// vocabulary.
    HighlightStart(usize),
    /// The innermost open region closes.
    HighlightEnd,
}

/// What can go wrong while rendering one code block.
#[derive(Clone, Copy, Debug, PartialEq, Eq)]
pub enum Error {
    /// The capture stream is ill-formed: a source range does not continue
    /// where the previous one ended, the ranges do not cover the whole
    /// text, a category index reaches outside the vocabulary, or region
    /// starts and ends do not balance. A valid stream's source ranges
    /// tile the text, so no code byte is dropped or repeated.
    InvalidStream,
    /// A code block needed a capture stream but the input had none left.
    MissingStream,
}

impl Error {
    /// A short description of the error.
    pub fn message(&self) -> (r: String)
        ensures
            r@ == (match self {
                Error::InvalidStream => "ill-formed highlight capture stream"@,
                Error::MissingStream => "missing highlight capture stream"@,
            }),
    {
        match self {
            Error::InvalidStream => String::from_str("ill-formed highlight capture stream"),
            Error::MissingStream => String::from_str("missing highlight capture stream"),
        }
    }
}

/// The grammar and theme configuration shared by all render passes.
pub struct SyntaxConfig {
    /// The resolved style table.
    pub theme: Theme,
    /// The fixed category vocabulary; capture indices point into it.
    pub names: Vec<String>,
    /// The language tags with a registered grammar.
    pub languages: Vec<String>,
}

impl SyntaxConfig {
    /// Bundles a theme with the registered vocabulary and languages.
    pub fn new(theme: Theme, names: Vec<String>, languages: Vec<String>) -> (r: SyntaxConfig)
        ensures
            r.theme == theme,
            r.names == names,
            r.languages == languages,
    {
        SyntaxConfig { theme, names, languages }
    }

    /// Whether a language tag has a registered grammar.
    pub fn knows_language(&self, lang: &str) -> (r: bool)
        ensures
            r == known_language(self.languages@, lang@),
    {
        let n = self.languages.len();
        let mut i: usize = 0;
        let mut found = false;
        while i < n
            invariant
                i <= n,
                n == self.languages@.len(),
                found == exists|j: int| 0 <= j < i && self.languages@[j]@ == lang@,
            decreases n - i,
        {
            if str_eq(self.languages[i].as_str(), lang) {
                found = true;
            }
            i = i + 1;
        }
        found
    }
}

/// The views of a sequence of strings.
pub open spec fn strs_view(ss: Seq<String>) -> Seq<Seq<char>> {
    ss.map_values(|s: String| s@)
}

/// Whether a language tag has a registered grammar.
pub open spec fn known_language(langs: Seq<String>, lang: Seq<char>) -> bool {
    exists|i: int| 0 <= i < langs.len() && langs[i]@ == lang
}

/// The opening text of one styled span.
pub open spec fn span_open(attr: Seq<char>) -> Seq<char> {
    "<span "@ + attr + ">"@
}

/// The closing text of `depth` nested spans.
pub open spec fn close_spans(depth: int) -> Seq<char>
    decreases depth,
{
    if depth <= 0 {
        Seq::empty()
    } else {
        close_spans(depth - 1) + "</span>"@
    }
}

/// The opening text of a whole span stack, outermost first.
pub open spec fn open_spans(stack: Seq<Seq<char>>) -> Seq<char>
    decreases stack.len(),
{
    if stack.len() == 0 {
        Seq::empty()
    } else {
        open_spans(stack.drop_last()) + span_open(stack.last())
    }
}

/// The output for one source character under a span stack: a newline closes
/// and reopens every span so each line stands on its own; any other
/// character is HTML-escaped.
pub open spec fn src_char(c: char, stack: Seq<Seq<char>>) -> Seq<char> {
    if c == '\n' {
        close_spans(stack.len() as int) + "\n"@ + open_spans(stack)
    } else {
        html_escape_char(c)
    }
}

/// The output for a run of source characters.
pub open spec fn src_text(cs: Seq<char>, stack: Seq<Seq<char>>) -> Seq<char>
    decreases cs.len(),
{
    if cs.len() == 0 {
        Seq::empty()
    } else {
        src_text(cs.drop_last(), stack) + src_char(cs.last(), stack)
    }
}

/// The style attribute for a category index: the themed style, or empty
/// when the theme leaves the category unresolved.
pub open spec fn attr_of(names: Seq<String>, theme: Seq<(String, String)>, idx: int) -> Seq<char> {
    match theme_lookup(theme, names[idx]@) {
        Option::Some(s) => s,
        Option::None => Seq::empty(),
    }
}

/// The state of the event renderer: output so far, the open span stack,
/// and how far into the text the source ranges have come.
pub ghost struct HlModel {
    pub out: Seq<char>,
    pub stack: Seq<Seq<char>>,
    pub pos: int,
}

/// One step of the event renderer; `None` when the stream is ill-formed.
/// Each source range must start exactly where the previous one ended, so
/// the ranges of a valid stream tile the text in order.
pub open spec fn hl_step(
    m: HlModel,
    ev: HighlightEvent,
    text: Seq<char>,
    names: Seq<String>,
    theme: Seq<(String, String)>,
) -> Option<HlModel> {
    match ev {
        HighlightEvent::Source { start, end } => if start == m.pos && start <= end <= text.len() {
            Option::Some(
                HlModel {
                    out: m.out + src_text(text.subrange(start as int, end as int), m.stack),
                    stack: m.stack,
                    pos: end as int,
                },
            )
        } else {
            Option::None
        },
        HighlightEvent::HighlightStart(idx) => if idx < names.len() {
            let attr = attr_of(names, theme, idx as int);
            Option::Some(
                HlModel { out: m.out + span_open(attr), stack: m.stack.push(attr), ..m },
            )
        } else {
            Option::None
        },
        HighlightEvent::HighlightEnd => if m.stack.len() > 0 {
            Option::Some(
                HlModel { out: m.out + "</span>"@, stack: m.stack.drop_last(), ..m },
            )
        } else {
            Option::None
        },
    }
}

/// The event renderer run from position `i` on.
pub open spec fn hl_run(
    m: HlModel,
    evs: Seq<HighlightEvent>,
    i: int,
    text: Seq<char>,
    names: Seq<String>,
    theme: Seq<(String, String)>,
) -> Option<HlModel>
    decreases evs.len() - i,
{
    if i < 0 || i >= evs.len() {
        Option::Some(m)
    } else {
        match hl_step(m, evs[i], text, names, theme) {
            Option::None => Option::None,
            Option::Some(m2) => hl_run(m2, evs, i + 1, text, names, theme),
        }
    }
}

/// The styled HTML for a known language's capture stream; `None` when
/// the stream is ill-formed, leaves regions open, or does not cover the
/// whole text with its source ranges.
pub open spec fn hl_spec(
    names: Seq<String>,
    theme: Seq<(String, String)>,
    text: Seq<char>,
    evs: Seq<HighlightEvent>,
) -> Option<Seq<char>> {
    match hl_run(
        HlModel { out: Seq::empty(), stack: Seq::empty(), pos: 0 },
        evs,
        0,
        text,
        names,
        theme,
    ) {
        Option::None => Option::None,
        Option::Some(m) => if m.stack.len() == 0 && m.pos == text.len() {
            Option::Some(m.out)
        } else {
            Option::None
        },
    }
}

/// What the pipeline produces for one code block: the text unchanged for an
/// unknown language, otherwise the styled HTML of the capture stream.
pub open spec fn pipeline_spec(
    cfg: SyntaxConfig,
    lang: Seq<char>,
    text: Seq<char>,
    evs: Seq<HighlightEvent>,
) -> Option<Seq<char>> {
    if !known_language(cfg.languages@, lang) {
        Option::Some(text)
    } else {
        hl_spec(cfg.names@, cfg.theme.0@, text, evs)
    }
}

/// Renders code blocks against one configuration. The pipeline holds no
/// per-block state, so one instance serves many blocks.
pub struct Renderer<'a> {
    /// The shared grammar and theme configuration.
    pub config: &'a SyntaxConfig,
}

impl<'a> Renderer<'a> {
    /// A renderer over the given configuration.
    pub fn new(config: &'a SyntaxConfig) -> (r: Renderer<'a>)
        ensures
            r.config == config,
    {
        Renderer { config }
    }

    /// Renders one code block. An unknown language falls back to the text
    /// unchanged; for a known language the capture stream is rendered, and
    /// an ill-formed stream — one whose source ranges do not tile the
    /// whole text, in order — is the one error. On success every code
    /// character reaches the output exactly once, escaped, in order.
    pub fn render(&self, language: &str, text: &str, stream: &Vec<HighlightEvent>) -> (r: Result<
        String,
        Error,
    >)
        ensures
            match r {
                Result::Ok(s) => pipeline_spec(*self.config, language@, text@, stream@)
                    == Option::Some(s@),
                Result::Err(e) => pipeline_spec(*self.config, language@, text@, stream@) is None
                    && e is InvalidStream,
            },
    {
        let mut is_known = false;
        let nl = self.config.languages.len();
        let mut li: usize = 0;
        while li < nl
            invariant
                li <= nl,
                nl == self.config.languages@.len(),
                is_known == exists|i: int|
                    0 <= i < li && self.config.languages@[i]@ == language@,
            decreases nl - li,
        {
            if str_eq(self.config.languages[li].as_str(), language) {
                is_known = true;
            }
            li = li + 1;
        }
        if !is_known {
            proof {
                assert(!known_language(self.config.languages@, language@));
            }
            return Result::Ok(String::from_str(text));
        }
        proof {
            assert(known_language(self.config.languages@, language@));
        }
        let tn = text.unicode_len();
        let mut out = String::new();
        let mut stack: Vec<String> = Vec::new();
        let mut cursor: usize = 0;
        let n = stream.len();
        let mut i: usize = 0;
        let ghost names = self.config.names@;
        let ghost theme = self.config.theme.0@;
        proof {
            assert(strs_view(stack@) =~= Seq::<Seq<char>>::empty());
        }
        while i < n
            invariant
                i <= n,
                n == stream@.len(),
                tn == text@.len(),
                names == self.config.names@,
                theme == self.config.theme.0@,
                known_language(self.config.languages@, language@),
                cursor <= tn,
                hl_run(
                    HlModel { out: out@, stack: strs_view(stack@), pos: cursor as int },
                    stream@,
                    i as int,
                    text@,
                    names,
                    theme,
                ) == hl_run(
                    HlModel { out: Seq::empty(), stack: Seq::empty(), pos: 0 },
                    stream@,
                    0,
                    text@,
                    names,
                    theme,
                ),
            decreases n - i,
        {
            let ghost m_pre = HlModel { out: out@, stack: strs_view(stack@), pos: cursor as int };
            match stream[i] {
                HighlightEvent::Source { start, end } => {
                    let s: usize = start;
                    let e: usize = end;
                    if !(s == cursor && s <= e && e <= tn) {
                        proof {
                            assert(hl_step(m_pre, stream@[i as int], text@, names, theme) is None);
                            assert(hl_run(m_pre, stream@, i as int, text@, names, theme) is None);
                            assert(hl_spec(names, theme, text@, stream@) is None);
                        }
                        return Result::Err(Error::InvalidStream);
                    }
                    let ghost piece = text@.subrange(s as int, e as int);
                    let ghost base = out@;
                    let mut j: usize = s;
                    proof {
                        assert(src_text(piece.take(0), m_pre.stack) =~= Seq::<char>::empty());
                        assert(out@ =~= base + src_text(piece.take(0), m_pre.stack));
                    }
                    while j < e
                        invariant
                            s <= j <= e,
                            e <= tn,
                            tn == text@.len(),
                            piece == text@.subrange(s as int, e as int),
                            stack@.len() == m_pre.stack.len(),
                            strs_view(stack@) == m_pre.stack,
                            out@ == base + src_text(piece.take(j - s), m_pre.stack),
                        decreases e - j,
                    {
                        let c = text.get_char(j);
                        if c == '\n' {
                            let d = stack.len();
                            let ghost base2 = out@;
                            let mut k: usize = 0;
                            proof {
                                assert(out@ =~= base2 + close_spans(0));
                            }
                            while k < d
                                invariant
                                    k <= d,
                                    d == stack@.len(),
                                    out@ == base2 + close_spans(k as int),
                                decreases d - k,
                            {
                                out.append("</span>");
                                k = k + 1;
                            }
                            out.push('\n');
                            let ghost base3 = out@;
                            let mut k2: usize = 0;
                            proof {
                                assert(open_spans(m_pre.stack.take(0)) =~= Seq::<char>::empty());
                                assert(out@ =~= base3 + open_spans(m_pre.stack.take(0)));
                            }
                            while k2 < d
                                invariant
                                    k2 <= d,
                                    d == stack@.len(),
                                    strs_view(stack@) == m_pre.stack,
                                    out@ == base3 + open_spans(m_pre.stack.take(k2 as int)),
                                decreases d - k2,
                            {
                                out.append("<span ");
                                out.append(stack[k2].as_str());
                                out.append(">");
                                proof {
                                    assert(m_pre.stack.take(k2 + 1).drop_last() =~= m_pre.stack.take(
                                        k2 as int,
                                    ));
                                    assert(m_pre.stack.take(k2 + 1).last() == stack@[k2 as int]@);
                                    assert(out@ =~= base3 + open_spans(m_pre.stack.take(k2 + 1)));
                                }
                                k2 = k2 + 1;
                            }
                            proof {
                                reveal_strlit("\n");
                                assert(m_pre.stack.take(d as int) =~= m_pre.stack);
                                assert(m_pre.stack.len() == stack@.len());
                                assert(out@ =~= base2 + src_char('\n', m_pre.stack));
                            }
                        } else {
                            crate::escape::push_escaped_char(&mut out, c);
                        }
                        proof {
                            assert(piece.take(j - s + 1).drop_last() =~= piece.take(j - s));
                            assert(piece.take(j - s + 1).last() == text@[j as int]);
                            assert(out@ =~= base + src_text(piece.take(j - s + 1), m_pre.stack));
                        }
                        j = j + 1;
                    }
                    cursor = e;
                    proof {
                        assert(piece.take(e - s) =~= piece);
                        assert(out@ =~= m_pre.out + src_text(piece, m_pre.stack));
                        assert(hl_step(m_pre, stream@[i as int], text@, names, theme)
                            == Option::Some(
                            HlModel { out: out@, stack: strs_view(stack@), pos: cursor as int },
                        ));
                    }
                },
                HighlightEvent::HighlightStart(idx) => {
                    let ix: usize = idx;
                    if ix >= self.config.names.len() {
                        proof {
                            assert(hl_step(m_pre, stream@[i as int], text@, names, theme) is None);
                        }
                        return Result::Err(Error::InvalidStream);
                    }
                    let attr = match self.config.theme.get(self.config.names[ix].as_str()) {
                        Option::Some(st) => st,
                        Option::None => String::new(),
                    };
                    out.append("<span ");
                    out.append(attr.as_str());
                    out.append(">");
                    stack.push(attr);
                    proof {
                        assert(attr@ == attr_of(names, theme, ix as int));
                        assert(strs_view(stack@) =~= m_pre.stack.push(attr@));
                        assert(out@ =~= m_pre.out + span_open(attr@));
                        assert(hl_step(m_pre, stream@[i as int], text@, names, theme)
                            == Option::Some(
                            HlModel { out: out@, stack: strs_view(stack@), pos: cursor as int },
                        ));
                    }
                },
                HighlightEvent::HighlightEnd => {
                    if stack.len() == 0 {
                        proof {
                            assert(strs_view(stack@).len() == 0);
                            assert(hl_step(m_pre, stream@[i as int], text@, names, theme) is None);
                            assert(hl_run(m_pre, stream@, i as int, text@, names, theme) is None);
                            assert(hl_spec(names, theme, text@, stream@) is None);
                        }
                        return Result::Err(Error::InvalidStream);
                    }
                    let _ = stack.pop();
                    out.append("</span>");
                    proof {
                        assert(strs_view(stack@) =~= m_pre.stack.drop_last());
                        assert(hl_step(m_pre, stream@[i as int], text@, names, theme)
                            == Option::Some(
                            HlModel { out: out@, stack: strs_view(stack@), pos: cursor as int },
                        ));
                    }
                },
            }
            i = i + 1;
        }
        if stack.len() > 0 || cursor != tn {
            proof {
                assert(strs_view(stack@).len() == stack@.len());
            }
            return Result::Err(Error::InvalidStream);
        }
        proof {
            assert(strs_view(stack@).len() == 0);
        }
        Result::Ok(out)
    }
}


/// The source text a capture stream carries from position `i` on: the
/// concatenation of its in-bounds source ranges.
pub open spec fn source_chars(evs: Seq<HighlightEvent>, i: int, text: Seq<char>) -> Seq<char>
    decreases evs.len() - i,
{
    if i < 0 || i >= evs.len() {
        Seq::empty()
    } else {
        match evs[i] {
            HighlightEvent::Source { start, end } => (if start <= end <= text.len() {
                text.subrange(start as int, end as int)
            } else {
                Seq::empty()
            }) + source_chars(evs, i + 1, text),
            _ => source_chars(evs, i + 1, text),
        }
    }
}

proof fn lemma_source_chars_run(
    m: HlModel,
    evs: Seq<HighlightEvent>,
    i: int,
    text: Seq<char>,
    names: Seq<String>,
    theme: Seq<(String, String)>,
)
    requires
        0 <= m.pos <= text.len(),
        hl_run(m, evs, i, text, names, theme) is Some,
    ensures
        ({
            let m2 = hl_run(m, evs, i, text, names, theme).unwrap();
            &&& m.pos <= m2.pos <= text.len()
            &&& source_chars(evs, i, text) == text.subrange(m.pos, m2.pos)
        }),
    decreases evs.len() - i,
{
    if i < 0 || i >= evs.len() {
        assert(text.subrange(m.pos, m.pos) =~= Seq::<char>::empty());
    } else {
        let m2 = hl_step(m, evs[i], text, names, theme).unwrap();
        lemma_source_chars_run(m2, evs, i + 1, text, names, theme);
        let mf = hl_run(m, evs, i, text, names, theme).unwrap();
        match evs[i] {
            HighlightEvent::Source { start, end } => {
                assert(text.subrange(start as int, end as int) + text.subrange(m2.pos, mf.pos)
                    =~= text.subrange(m.pos, mf.pos));
            },
            _ => {},
        }
    }
}

/// No code byte is dropped, repeated, or reordered: whenever a capture
/// stream renders successfully, the source ranges it carries reproduce
/// the code text exactly — the rendering only wraps and escapes it.
pub proof fn lemma_stream_covers_text(
    names: Seq<String>,
    theme: Seq<(String, String)>,
    text: Seq<char>,
    evs: Seq<HighlightEvent>,
)
    requires
        hl_spec(names, theme, text, evs) is Some,
    ensures
        source_chars(evs, 0, text) == text,
{
    let m0 = HlModel { out: Seq::empty(), stack: Seq::empty(), pos: 0 };
    lemma_source_chars_run(m0, evs, 0, text, names, theme);
    assert(text.subrange(0, text.len() as int) =~= text);
}

} // verus!

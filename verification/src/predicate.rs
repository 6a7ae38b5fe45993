//! The query predicate evaluator.
//!
//! Grammar queries attach declarative predicates to capture rules; a raw
//! capture match is kept only if every predicate accepts it. The closed
//! predicate vocabulary is `lua-match?` (Lua-style pattern match over each
//! bound node's text) and `contains?` (every listed literal occurs in each
//! bound node's text). Any other operator is an unimplemented-query
//! configuration error, never a silent degradation. A node's text may
//! arrive in several chunks; it is reconstructed by concatenation before
//! any test.

use vstd::prelude::*;
use crate::pattern::{Pattern, pattern_match, pattern_matches, chars_of};
use crate::highlight::HighlightEvent;
use crate::strutil::str_eq;

verus! {

/// One node bound to a capture name, its text possibly in several chunks.
pub struct NodeBinding {
    /// The capture index the node is bound to.
    pub capture: usize,
    /// The node's text, chunked as the text provider handed it out.
    pub chunks: Vec<String>,
}

/// One raw query match: the nodes its rule bound.
pub struct QueryMatch {
    /// All bound nodes of the match.
    pub nodes: Vec<NodeBinding>,
}

/// One predicate of the closed vocabulary.
pub enum Predicate {
    /// `lua-match?`: every node bound to the capture must match the
    /// pattern.
    LuaMatch { capture: usize, pattern: Pattern },
    /// `contains?`: every listed literal must occur in each bound node's
    /// text.
    Contains { capture: usize, literals: Vec<String> },
}

/// Why a query predicate could not be loaded.
pub enum QueryError {
    /// The operator is outside the implemented vocabulary (for instance a
    /// property-style predicate): the query asset needs unimplemented
    /// semantics, so configuration loading must abort.
    UnsupportedPredicate,
    /// The predicate carries no argument.
    MissingArgument,
    /// The `lua-match?` pattern text is not a well-formed pattern.
    MalformedPattern,
}

/// The reconstructed text of chunked content.
pub open spec fn concat_chunks(chunks: Seq<String>) -> Seq<char>
    decreases chunks.len(),
{
    if chunks.len() == 0 {
        Seq::empty()
    } else {
        concat_chunks(chunks.drop_last()) + chunks.last()@
    }
}

/// `needle` occurs somewhere in `hay`.
pub open spec fn is_substring(hay: Seq<char>, needle: Seq<char>) -> bool {
    exists|i: int|
        0 <= i && i + needle.len() <= hay.len() && #[trigger] hay.subrange(i, i + needle.len())
            == needle
}

/// Whether one predicate accepts a match.
pub open spec fn pred_ok(p: Predicate, m: QueryMatch) -> bool {
    match p {
        Predicate::LuaMatch { capture, pattern } => forall|k: int|
            0 <= k < m.nodes@.len() && m.nodes@[k].capture == capture ==> pattern_matches(
                pattern,
                #[trigger] concat_chunks(m.nodes@[k].chunks@),
            ),
        Predicate::Contains { capture, literals } => forall|k: int, l: int|
            0 <= k < m.nodes@.len() && m.nodes@[k].capture == capture && 0 <= l < literals@.len()
                ==> is_substring(
                #[trigger] concat_chunks(m.nodes@[k].chunks@),
                #[trigger] literals@[l]@,
            ),
    }
}

/// Whether every predicate of a rule accepts a match.
pub open spec fn accepts(preds: Seq<Predicate>, m: QueryMatch) -> bool {
    forall|j: int| 0 <= j < preds.len() ==> pred_ok(#[trigger] preds[j], m)
}

/// Reconstructs a node's text from its chunks.
pub fn node_text(chunks: &Vec<String>) -> (r: String)
    ensures
        r@ == concat_chunks(chunks@),
{
    let mut r = String::new();
    let mut i: usize = 0;
    proof {
        assert(concat_chunks(chunks@.take(0)) =~= Seq::<char>::empty());
    }
    while i < chunks.len()
        invariant
            i <= chunks@.len(),
            r@ == concat_chunks(chunks@.take(i as int)),
        decreases chunks@.len() - i,
    {
        r.append(chunks[i].as_str());
        proof {
            assert(chunks@.take(i + 1).drop_last() =~= chunks@.take(i as int));
            assert(chunks@.take(i + 1).last() == chunks@[i as int]);
        }
        i = i + 1;
    }
    proof {
        assert(chunks@.take(chunks@.len() as int) =~= chunks@);
    }
    r
}

/// Whether `needle` occurs in `hay`.
pub fn contains_str(hay: &str, needle: &str) -> (r: bool)
    ensures
        r == is_substring(hay@, needle@),
{
    let h = chars_of(hay);
    let nd = chars_of(needle);
    let n = h.len();
    let m = nd.len();
    if m > n {
        proof {
            assert(!is_substring(hay@, needle@));
        }
        return false;
    }
    let mut i: usize = 0;
    while i <= n - m
        invariant
            m <= n,
            i <= n - m + 1,
            n == hay@.len(),
            m == needle@.len(),
            h@ == hay@,
            nd@ == needle@,
            forall|x: int|
                0 <= x < i ==> #[trigger] hay@.subrange(x, x + needle@.len()) != needle@,
        decreases n + 1 - m - i,
    {
        let mut j: usize = 0;
        let mut hit = true;
        while j < m
            invariant
                j <= m,
                i + m <= n,
                n == hay@.len(),
                m == needle@.len(),
                h@ == hay@,
                nd@ == needle@,
                hit == (forall|y: int| 0 <= y < j ==> hay@[i + y] == #[trigger] needle@[y]),
            decreases m - j,
        {
            if h[i + j] != nd[j] {
                hit = false;
            }
            j = j + 1;
        }
        if hit {
            proof {
                assert(hay@.subrange(i as int, i + needle@.len()) =~= needle@);
            }
            return true;
        }
        proof {
            assert(hay@.subrange(i as int, i + needle@.len()) != needle@) by {
                if hay@.subrange(i as int, i + needle@.len()) == needle@ {
                    assert(forall|y: int|
                        0 <= y < m ==> #[trigger] hay@.subrange(i as int, i + needle@.len())[y]
                            == hay@[i + y]);
                }
            }
        }
        i = i + 1;
    }
    proof {
        assert forall|x: int|
            0 <= x && x + needle@.len() <= hay@.len() implies #[trigger] hay@.subrange(
            x,
            x + needle@.len(),
        ) != needle@ by {
            assert(x < i);
        }
    }
    false
}

/// Whether one predicate accepts a match.
#[verifier::loop_isolation(false)]
pub fn pred_holds(p: &Predicate, m: &QueryMatch) -> (r: bool)
    ensures
        r == pred_ok(*p, *m),
{
    match p {
        Predicate::LuaMatch { capture, pattern } => {
            let mut k: usize = 0;
            while k < m.nodes.len()
                invariant
                    k <= m.nodes@.len(),
                    forall|x: int|
                        0 <= x < k && m.nodes@[x].capture == *capture ==> pattern_matches(
                            *pattern,
                            #[trigger] concat_chunks(m.nodes@[x].chunks@),
                        ),
                decreases m.nodes@.len() - k,
            {
                if m.nodes[k].capture == *capture {
                    let text = node_text(&m.nodes[k].chunks);
                    if !pattern_match(pattern, text.as_str()) {
                        proof {
                            assert(*p == Predicate::LuaMatch {
                                capture: *capture,
                                pattern: *pattern,
                            });
                            assert(!pattern_matches(
                                *pattern,
                                concat_chunks(m.nodes@[k as int].chunks@),
                            ));
                            assert(!pred_ok(*p, *m));
                        }
                        return false;
                    }
                }
                k = k + 1;
            }
            true
        },
        Predicate::Contains { capture, literals } => {
            let mut k: usize = 0;
            while k < m.nodes.len()
                invariant
                    k <= m.nodes@.len(),
                    forall|x: int, l: int|
                        0 <= x < k && m.nodes@[x].capture == *capture && 0 <= l < literals@.len()
                            ==> is_substring(
                            #[trigger] concat_chunks(m.nodes@[x].chunks@),
                            #[trigger] literals@[l]@,
                        ),
                decreases m.nodes@.len() - k,
            {
                if m.nodes[k].capture == *capture {
                    let text = node_text(&m.nodes[k].chunks);
                    let mut l: usize = 0;
                    while l < literals.len()
                        invariant
                            l <= literals@.len(),
                            text@ == concat_chunks(m.nodes@[k as int].chunks@),
                            k < m.nodes@.len(),
                            forall|y: int|
                                0 <= y < l ==> is_substring(
                                    concat_chunks(m.nodes@[k as int].chunks@),
                                    #[trigger] literals@[y]@,
                                ),
                        decreases literals@.len() - l,
                    {
                        if !contains_str(text.as_str(), literals[l].as_str()) {
                            proof {
                                assert(*p == Predicate::Contains {
                                    capture: *capture,
                                    literals: *literals,
                                });
                                assert(!is_substring(
                                    concat_chunks(m.nodes@[k as int].chunks@),
                                    literals@[l as int]@,
                                ));
                                assert(!pred_ok(*p, *m));
                            }
                            return false;
                        }
                        l = l + 1;
                    }
                }
                k = k + 1;
            }
            true
        },
    }
}

/// The accept/reject gate: a raw capture match is kept only when every
/// predicate of its rule accepts it.
pub fn accept(predicates: &Vec<Predicate>, m: &QueryMatch) -> (r: bool)
    ensures
        r == accepts(predicates@, *m),
{
    let mut j: usize = 0;
    while j < predicates.len()
        invariant
            j <= predicates@.len(),
            forall|x: int| 0 <= x < j ==> pred_ok(#[trigger] predicates@[x], *m),
        decreases predicates@.len() - j,
    {
        if !pred_holds(&predicates[j], m) {
            return false;
        }
        j = j + 1;
    }
    true
}

/// Scans one bracketed set body from `j` (inside the brackets): the
/// members up to the closing bracket, and the position after it.
fn scan_set_exec(cs: &Vec<char>, j: usize, first: bool) -> (r: Option<(
    Vec<crate::pattern::SetItem>,
    usize,
)>)
    requires
        j <= cs@.len(),
    ensures
        match r {
            Option::Some(p) => crate::pattern::scan_set(cs@, j as int, first).ok && p.0@
                == crate::pattern::scan_set(cs@, j as int, first).items && p.1 as int
                == crate::pattern::scan_set(cs@, j as int, first).next && j < p.1 <= cs@.len(),
            Option::None => !crate::pattern::scan_set(cs@, j as int, first).ok,
        },
    decreases cs@.len() - j,
{
    if j >= cs.len() {
        return Option::None;
    }
    let d = cs[j];
    if d == ']' && !first {
        let v: Vec<crate::pattern::SetItem> = Vec::new();
        proof {
            assert(v@ =~= crate::pattern::scan_set(cs@, j as int, first).items);
        }
        return Option::Some((v, j + 1));
    }
    if d == '%' {
        if j + 1 >= cs.len() {
            return Option::None;
        }
        let d2 = cs[j + 1];
        if '0' <= d2 && d2 <= '9' {
            return Option::None;
        }
        match scan_set_exec(cs, j + 2, false) {
            Option::None => Option::None,
            Option::Some(p) => {
                let nxt = p.1;
                let mut rest = p.0;
                let mut v: Vec<crate::pattern::SetItem> = Vec::new();
                v.push(crate::pattern::SetItem::Class(d2));
                v.append(&mut rest);
                proof {
                    assert(v@ =~= crate::pattern::scan_set(cs@, j as int, first).items);
                }
                Option::Some((v, nxt))
            },
        }
    } else if cs.len() - j > 2 && cs[j + 1] == '-' && cs[j + 2] != ']' {
        let hi = cs[j + 2];
        match scan_set_exec(cs, j + 3, false) {
            Option::None => Option::None,
            Option::Some(p) => {
                let nxt = p.1;
                let mut rest = p.0;
                let mut v: Vec<crate::pattern::SetItem> = Vec::new();
                v.push(crate::pattern::SetItem::Range(d, hi));
                v.append(&mut rest);
                proof {
                    assert(v@ =~= crate::pattern::scan_set(cs@, j as int, first).items);
                }
                Option::Some((v, nxt))
            },
        }
    } else {
        match scan_set_exec(cs, j + 1, false) {
            Option::None => Option::None,
            Option::Some(p) => {
                let nxt = p.1;
                let mut rest = p.0;
                let mut v: Vec<crate::pattern::SetItem> = Vec::new();
                v.push(crate::pattern::SetItem::Ch(d));
                v.append(&mut rest);
                proof {
                    assert(v@ =~= crate::pattern::scan_set(cs@, j as int, first).items);
                }
                Option::Some((v, nxt))
            },
        }
    }
}

/// Scans one pattern item: a `%`-escape, a bracketed set, the wildcard,
/// or a literal, and the position after it.
fn scan_item_exec(cs: &Vec<char>, i: usize) -> (r: Option<(crate::pattern::PatItem, usize)>)
    requires
        i < cs@.len(),
    ensures
        match r {
            Option::Some(p) => crate::pattern::scan_item(cs@, i as int).ok
                && crate::pattern::item_view(p.0) == crate::pattern::scan_item(cs@, i as int).item
                && p.1 as int == crate::pattern::scan_item(cs@, i as int).next && i < p.1
                <= cs@.len(),
            Option::None => !crate::pattern::scan_item(cs@, i as int).ok,
        },
{
    let n = cs.len();
    let c = cs[i];
    if c == '%' {
        if i + 1 >= n {
            return Option::None;
        }
        let c2 = cs[i + 1];
        if '0' <= c2 && c2 <= '9' {
            return Option::None;
        }
        Option::Some((crate::pattern::PatItem::Class(c2), i + 2))
    } else if c == '[' {
        let mut j0 = i + 1;
        let mut negated = false;
        if j0 < n && cs[j0] == '^' {
            negated = true;
            j0 = j0 + 1;
        }
        match scan_set_exec(cs, j0, true) {
            Option::None => Option::None,
            Option::Some(p) => {
                let nxt = p.1;
                let items = p.0;
                proof {
                    assert(crate::pattern::item_view(
                        crate::pattern::PatItem::Bracket(
                            crate::pattern::PatSet { negated, items },
                        ),
                    ) == crate::pattern::scan_item(cs@, i as int).item);
                }
                Option::Some((
                    crate::pattern::PatItem::Bracket(crate::pattern::PatSet { negated, items }),
                    nxt,
                ))
            },
        }
    } else if c == '.' {
        Option::Some((crate::pattern::PatItem::Any, i + 1))
    } else {
        Option::Some((crate::pattern::PatItem::Lit(c), i + 1))
    }
}

/// Scans the pattern pieces from `i` to the end of the text, with the
/// end-anchor flag.
fn scan_items_exec(cs: &Vec<char>, i: usize) -> (r: Option<(Vec<crate::pattern::PatPiece>, bool)>)
    requires
        i <= cs@.len(),
    ensures
        match r {
            Option::Some(p) => crate::pattern::scan_items(cs@, i as int).ok
                && crate::pattern::pieces_view(p.0@) == crate::pattern::scan_items(
                cs@,
                i as int,
            ).pieces && p.1 == crate::pattern::scan_items(cs@, i as int).anchored_end,
            Option::None => !crate::pattern::scan_items(cs@, i as int).ok,
        },
    decreases cs@.len() - i,
{
    if i >= cs.len() {
        let v: Vec<crate::pattern::PatPiece> = Vec::new();
        proof {
            assert(crate::pattern::pieces_view(v@) =~= crate::pattern::scan_items(
                cs@,
                i as int,
            ).pieces);
        }
        return Option::Some((v, false));
    }
    let c = cs[i];
    if c == '$' && i + 1 == cs.len() {
        let v: Vec<crate::pattern::PatPiece> = Vec::new();
        proof {
            assert(crate::pattern::pieces_view(v@) =~= crate::pattern::scan_items(
                cs@,
                i as int,
            ).pieces);
        }
        return Option::Some((v, true));
    }
    if c == '(' || c == ')' {
        return scan_items_exec(cs, i + 1);
    }
    match scan_item_exec(cs, i) {
        Option::None => Option::None,
        Option::Some(it) => {
            let item = it.0;
            let mut j2 = it.1;
            let mut quant = crate::pattern::Quant::One;
            if j2 < cs.len() {
                let q = cs[j2];
                if q == '*' {
                    quant = crate::pattern::Quant::Star;
                    j2 = j2 + 1;
                } else if q == '+' {
                    quant = crate::pattern::Quant::Plus;
                    j2 = j2 + 1;
                } else if q == '-' {
                    quant = crate::pattern::Quant::Lazy;
                    j2 = j2 + 1;
                } else if q == '?' {
                    quant = crate::pattern::Quant::Opt;
                    j2 = j2 + 1;
                }
            }
            match scan_items_exec(cs, j2) {
                Option::None => Option::None,
                Option::Some(restp) => {
                    let ae = restp.1;
                    let mut rest = restp.0;
                    let ghost rest0 = rest@;
                    let mut v: Vec<crate::pattern::PatPiece> = Vec::new();
                    v.push(crate::pattern::PatPiece { item, quant });
                    v.append(&mut rest);
                    proof {
                        assert(crate::pattern::pieces_view(v@) =~= seq![
                            crate::pattern::piece_view(v@[0]),
                        ] + crate::pattern::pieces_view(rest0));
                        assert(crate::pattern::pieces_view(v@) =~= crate::pattern::scan_items(
                            cs@,
                            i as int,
                        ).pieces);
                    }
                    Option::Some((v, ae))
                },
            }
        },
    }
}

/// Parses one Lua-style pattern: anchors, `%`-classes and escapes,
/// bracketed sets with ranges and negation, the quantifiers `*`, `+`,
/// `-`, `?`, the wildcard `.`; capture parentheses are transparent.
/// Back-references (`%1`...) are not supported and fail the parse.
/// Exactly the well-formed texts of the pattern grammar parse, and the
/// result is the pattern the text denotes.
pub fn parse_pattern(pat: &str) -> (r: Option<Pattern>)
    ensures
        (r is Some) == crate::pattern::pattern_text_wf(pat@),
        r matches Some(p) ==> crate::pattern::pattern_view(p) == crate::pattern::pattern_of_text(
            pat@,
        ),
{
    let cs = chars_of(pat);
    let n = cs.len();
    let mut anchored_start = false;
    let mut start: usize = 0;
    if n > 0 && cs[0] == '^' {
        anchored_start = true;
        start = 1;
    }
    proof {
        assert(start as int == crate::pattern::pat_start(pat@));
    }
    match scan_items_exec(&cs, start) {
        Option::None => {
            proof {
                assert(!crate::pattern::pattern_text_wf(pat@));
            }
            Option::None
        },
        Option::Some(p) => {
            let anchored_end = p.1;
            let pieces = p.0;
            let r = Pattern { anchored_start, anchored_end, pieces };
            proof {
                assert(crate::pattern::pattern_view(r) == crate::pattern::pattern_of_text(pat@));
            }
            Option::Some(r)
        },
    }
}

/// Loads one query predicate from its operator name and arguments, as the
/// query engine exposes them. Exactly `lua-match?` and `contains?` are
/// implemented; any other operator aborts configuration loading. A
/// `lua-match?` predicate loads if and only if its first argument is a
/// well-formed pattern text, and then carries exactly the pattern that
/// text denotes.
pub fn parse_predicate(op: &str, capture: usize, args: &Vec<String>) -> (r: Result<
    Predicate,
    QueryError,
>)
    ensures
        match r {
            Result::Ok(p) => match p {
                Predicate::LuaMatch { capture: c, pattern } => op@ == "lua-match?"@ && c == capture
                    && args@.len() >= 1 && crate::pattern::pattern_text_wf(args@[0]@)
                    && crate::pattern::pattern_view(pattern) == crate::pattern::pattern_of_text(
                    args@[0]@,
                ),
                Predicate::Contains { capture: c, literals } => op@ == "contains?"@ && c == capture
                    && literals@.len() == args@.len() && (forall|l: int|
                    0 <= l < args@.len() ==> #[trigger] literals@[l]@ == args@[l]@),
            },
            Result::Err(e) => match e {
                QueryError::UnsupportedPredicate => op@ != "lua-match?"@ && op@ != "contains?"@,
                QueryError::MissingArgument => (op@ == "lua-match?"@ || op@ == "contains?"@)
                    && args@.len() == 0,
                QueryError::MalformedPattern => op@ == "lua-match?"@ && args@.len() >= 1
                    && !crate::pattern::pattern_text_wf(args@[0]@),
            },
        },
{
    if str_eq(op, "lua-match?") {
        if args.len() == 0 {
            return Result::Err(QueryError::MissingArgument);
        }
        match parse_pattern(args[0].as_str()) {
            Option::Some(pattern) => Result::Ok(Predicate::LuaMatch { capture, pattern }),
            Option::None => Result::Err(QueryError::MalformedPattern),
        }
    } else if str_eq(op, "contains?") {
        if args.len() == 0 {
            return Result::Err(QueryError::MissingArgument);
        }
        let mut literals: Vec<String> = Vec::new();
        let mut l: usize = 0;
        while l < args.len()
            invariant
                l <= args@.len(),
                literals@.len() == l,
                forall|y: int| 0 <= y < l ==> #[trigger] literals@[y]@ == args@[y]@,
            decreases args@.len() - l,
        {
            literals.push(args[l].clone());
            l = l + 1;
        }
        Result::Ok(Predicate::Contains { capture, literals })
    } else {
        Result::Err(QueryError::UnsupportedPredicate)
    }
}

/// One accepted capture: a category index and the char range it covers.
#[derive(Clone, Copy)]
pub struct Capture {
    pub category: usize,
    pub start: usize,
    pub end: usize,
}

/// One raw capture match: the capture it would produce, the rule's
/// predicates, and the nodes the rule bound.
pub struct CaptureMatch {
    pub capture: Capture,
    pub predicates: Vec<Predicate>,
    pub bindings: QueryMatch,
}

/// Whether a raw match passes its rule's predicate gate.
pub open spec fn match_accepted(cm: CaptureMatch) -> bool {
    accepts(cm.predicates@, cm.bindings)
}

/// The captures that survive the predicate gate, in order.
pub open spec fn kept_captures(ms: Seq<CaptureMatch>) -> Seq<Capture>
    decreases ms.len(),
{
    if ms.len() == 0 {
        Seq::empty()
    } else if match_accepted(ms.first()) {
        seq![ms.first().capture] + kept_captures(ms.drop_first())
    } else {
        kept_captures(ms.drop_first())
    }
}

/// Applies the predicate gate to a raw match list.
pub fn filter_matches(ms: &Vec<CaptureMatch>) -> (r: Vec<Capture>)
    ensures
        r@ == kept_captures(ms@),
{
    let mut r: Vec<Capture> = Vec::new();
    let mut i: usize = 0;
    proof {
        assert(ms@.skip(0) =~= ms@);
        assert(r@ + kept_captures(ms@.skip(0)) =~= kept_captures(ms@));
    }
    while i < ms.len()
        invariant
            i <= ms@.len(),
            kept_captures(ms@) == r@ + kept_captures(ms@.skip(i as int)),
        decreases ms@.len() - i,
    {
        proof {
            assert(ms@.skip(i as int).first() == ms@[i as int]);
            assert(ms@.skip(i as int).drop_first() =~= ms@.skip(i + 1));
        }
        let keep = accept(&ms[i].predicates, &ms[i].bindings);
        if keep {
            r.push(ms[i].capture);
            proof {
                assert(r@ + kept_captures(ms@.skip(i + 1)) =~= kept_captures(ms@));
            }
        } else {
            proof {
                assert(r@ + kept_captures(ms@.skip(i + 1)) =~= kept_captures(ms@));
            }
        }
        i = i + 1;
    }
    proof {
        assert(kept_captures(ms@.skip(ms@.len() as int)) =~= Seq::<Capture>::empty());
        assert(r@ =~= kept_captures(ms@));
    }
    r
}

/// The flat highlight event stream of an accepted capture list over a text
/// of `len` characters: a source gap before each capture, the styled
/// region, and the tail after the last one.
pub open spec fn capture_events(caps: Seq<Capture>, cursor: usize, len: usize) -> Seq<
    HighlightEvent,
>
    decreases caps.len(),
{
    if caps.len() == 0 {
        seq![HighlightEvent::Source { start: cursor, end: len }]
    } else {
        seq![
            HighlightEvent::Source { start: cursor, end: caps.first().start },
            HighlightEvent::HighlightStart(caps.first().category),
            HighlightEvent::Source { start: caps.first().start, end: caps.first().end },
            HighlightEvent::HighlightEnd,
        ] + capture_events(caps.drop_first(), caps.first().end, len)
    }
}

/// Turns an accepted capture list into the event stream the renderer
/// consumes.
pub fn events_of_captures(caps: &Vec<Capture>, len: usize) -> (r: Vec<HighlightEvent>)
    ensures
        r@ == capture_events(caps@, 0, len),
{
    let mut r: Vec<HighlightEvent> = Vec::new();
    let mut cursor: usize = 0;
    let mut i: usize = 0;
    proof {
        assert(caps@.skip(0) =~= caps@);
        assert(r@ + capture_events(caps@.skip(0), 0, len) =~= capture_events(caps@, 0, len));
    }
    while i < caps.len()
        invariant
            i <= caps@.len(),
            capture_events(caps@, 0, len) == r@ + capture_events(caps@.skip(i as int), cursor, len),
        decreases caps@.len() - i,
    {
        proof {
            assert(caps@.skip(i as int).first() == caps@[i as int]);
            assert(caps@.skip(i as int).drop_first() =~= caps@.skip(i + 1));
        }
        let c = caps[i];
        r.push(HighlightEvent::Source { start: cursor, end: c.start });
        r.push(HighlightEvent::HighlightStart(c.category));
        r.push(HighlightEvent::Source { start: c.start, end: c.end });
        r.push(HighlightEvent::HighlightEnd);
        cursor = c.end;
        proof {
            assert(r@ + capture_events(caps@.skip(i + 1), cursor, len) =~= capture_events(
                caps@,
                0,
                len,
            ));
        }
        i = i + 1;
    }
    r.push(HighlightEvent::Source { start: cursor, end: len });
    proof {
        assert(capture_events(caps@.skip(caps@.len() as int), cursor, len) =~= seq![
            HighlightEvent::Source { start: cursor, end: len },
        ]);
        assert(r@ =~= capture_events(caps@, 0, len));
    }
    r
}

/// A capture match that its rule's predicates reject contributes nothing:
/// the kept capture list — and with it every style span of the rendered
/// output — is the same as if the match were not there at all. The node's
/// text itself still renders, inside the surrounding source gap, unstyled.
pub proof fn lemma_rejected_match_no_spans(ms: Seq<CaptureMatch>, i: int)
    requires
        0 <= i < ms.len(),
        !match_accepted(ms[i]),
    ensures
        kept_captures(ms) == kept_captures(ms.remove(i)),
    decreases ms.len(),
{
    if i == 0 {
        assert(ms.remove(0) =~= ms.drop_first());
    } else {
        lemma_rejected_match_no_spans(ms.drop_first(), i - 1);
        assert(ms.remove(i).drop_first() =~= ms.drop_first().remove(i - 1));
        assert(ms.remove(i).first() == ms.first());
        if match_accepted(ms.first()) {
            assert(kept_captures(ms) =~= kept_captures(ms.remove(i)));
        }
    }
}


/// The whole code-block pipeline for one raw capture match list: the
/// predicate gate keeps the accepted captures, those become the flat
/// event stream, and the renderer styles it against the theme. An
/// unknown language still falls back to the text unchanged.
pub fn render_matches(
    renderer: &crate::highlight::Renderer,
    language: &str,
    text: &str,
    ms: &Vec<CaptureMatch>,
) -> (r: Result<String, crate::highlight::Error>)
    ensures
        ({
            let evs = capture_events(kept_captures(ms@), 0, text@.len() as usize);
            match r {
                Result::Ok(s) => crate::highlight::pipeline_spec(
                    *renderer.config,
                    language@,
                    text@,
                    evs,
                ) == Option::Some(s@),
                Result::Err(e) => crate::highlight::pipeline_spec(
                    *renderer.config,
                    language@,
                    text@,
                    evs,
                ) is None && e is InvalidStream,
            }
        }),
{
    let caps = filter_matches(ms);
    let n = text.unicode_len();
    let evs = events_of_captures(&caps, n);
    proof {
        assert(text@.len() as usize == n);
    }
    renderer.render(language, text, &evs)
}



} // verus!


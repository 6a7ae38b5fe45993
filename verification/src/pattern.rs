//! A small Lua-style pattern matcher.
//!
//! Query predicates test capture text against Lua patterns: character
//! classes (`%d`, `%a`, ...), sets (`[...]`, ranges, negation), anchors
//! (`^`, `$`), the quantifiers `*`, `+`, `-`, `?` and the wildcard `.`.
//! The matcher answers only whether the pattern matches, so the greedy and
//! lazy quantifiers coincide; captures in the pattern are transparent.

use vstd::prelude::*;

verus! {

/// The quantifier after one pattern item.
#[derive(Clone, Copy)]
pub enum Quant {
    /// Exactly one occurrence.
    One,
    /// Zero or more, greedy.
    Star,
    /// One or more.
    Plus,
    /// Zero or more, lazy; for a match test the same as greedy.
    Lazy,
    /// Zero or one.
    Opt,
}

/// One member of a character set.
#[derive(Clone, Copy)]
pub enum SetItem {
    /// A literal character.
    Ch(char),
    /// An inclusive character range.
    Range(char, char),
    /// A `%`-class named by its letter.
    Class(char),
}

/// A bracketed character set.
pub struct PatSet {
    /// True for a `[^...]` complement set.
    pub negated: bool,
    /// The set's members.
    pub items: Vec<SetItem>,
}

/// One matchable item of a pattern.
pub enum PatItem {
    /// A literal character.
    Lit(char),
    /// `.`: any character.
    Any,
    /// A `%`-class named by its letter.
    Class(char),
    /// A bracketed set.
    Bracket(PatSet),
}

/// One pattern piece: an item with its quantifier.
pub struct PatPiece {
    pub item: PatItem,
    pub quant: Quant,
}

/// A parsed pattern.
pub struct Pattern {
    /// `^` at the front: the match must start at the text's start.
    pub anchored_start: bool,
    /// `$` at the back: the match must end at the text's end.
    pub anchored_end: bool,
    /// The pattern's pieces, in order.
    pub pieces: Vec<PatPiece>,
}

/// ASCII letter.
pub open spec fn is_letter(c: char) -> bool {
    ('a' <= c && c <= 'z') || ('A' <= c && c <= 'Z')
}

/// ASCII digit.
pub open spec fn is_digit(c: char) -> bool {
    '0' <= c && c <= '9'
}

/// ASCII space characters, as Lua's `%s` counts them.
pub open spec fn is_space(c: char) -> bool {
    c == ' ' || c == '\t' || c == '\n' || c == '\r' || c == '\u{b}' || c == '\u{c}'
}

/// ASCII hexadecimal digit.
pub open spec fn is_hex(c: char) -> bool {
    is_digit(c) || ('a' <= c && c <= 'f') || ('A' <= c && c <= 'F')
}

/// ASCII punctuation.
pub open spec fn is_punct(c: char) -> bool {
    ('!' <= c && c <= '/') || (':' <= c && c <= '@') || ('[' <= c && c <= '`') || ('{' <= c && c
        <= '~')
}

/// ASCII control character.
pub open spec fn is_control(c: char) -> bool {
    c < ' ' || c == '\u{7f}'
}

/// What a `%`-class letter accepts: the lower-case letter names the class,
/// the upper-case letter its complement, and any other character only
/// itself (an escaped literal).
pub open spec fn class_match(cl: char, c: char) -> bool {
    if cl == 'a' {
        is_letter(c)
    } else if cl == 'A' {
        !is_letter(c)
    } else if cl == 'd' {
        is_digit(c)
    } else if cl == 'D' {
        !is_digit(c)
    } else if cl == 'l' {
        'a' <= c && c <= 'z'
    } else if cl == 'L' {
        !('a' <= c && c <= 'z')
    } else if cl == 'u' {
        'A' <= c && c <= 'Z'
    } else if cl == 'U' {
        !('A' <= c && c <= 'Z')
    } else if cl == 's' {
        is_space(c)
    } else if cl == 'S' {
        !is_space(c)
    } else if cl == 'w' {
        is_letter(c) || is_digit(c)
    } else if cl == 'W' {
        !(is_letter(c) || is_digit(c))
    } else if cl == 'x' {
        is_hex(c)
    } else if cl == 'X' {
        !is_hex(c)
    } else if cl == 'p' {
        is_punct(c)
    } else if cl == 'P' {
        !is_punct(c)
    } else if cl == 'c' {
        is_control(c)
    } else if cl == 'C' {
        !is_control(c)
    } else {
        cl == c
    }
}

/// Whether one set member accepts a character.
pub open spec fn set_item_match(it: SetItem, c: char) -> bool {
    match it {
        SetItem::Ch(l) => l == c,
        SetItem::Range(lo, hi) => lo <= c && c <= hi,
        SetItem::Class(cl) => class_match(cl, c),
    }
}

/// Whether a set accepts a character.
pub open spec fn set_match(negated: bool, items: Seq<SetItem>, c: char) -> bool {
    let any = exists|k: int| 0 <= k < items.len() && set_item_match(items[k], c);
    if negated {
        !any
    } else {
        any
    }
}

/// Whether one pattern item accepts a character.
pub open spec fn item_match(item: PatItem, c: char) -> bool {
    match item {
        PatItem::Lit(l) => l == c,
        PatItem::Any => true,
        PatItem::Class(cl) => class_match(cl, c),
        PatItem::Bracket(s) => set_match(s.negated, s.items@, c),
    }
}

/// A run of `k` characters from `si` on, all accepted by one item.
pub open spec fn run_match(s: Seq<char>, si: int, k: int, item: PatItem) -> bool {
    forall|j: int| 0 <= j < k ==> #[trigger] item_match(item, s[si + j])
}

/// Whether the pieces from `pi` on match the text from `si` on.
pub open spec fn matches_from(
    s: Seq<char>,
    si: int,
    ps: Seq<PatPiece>,
    pi: int,
    anchored_end: bool,
) -> bool
    decreases ps.len() - pi,
{
    if pi < 0 || pi >= ps.len() {
        if anchored_end {
            si == s.len()
        } else {
            true
        }
    } else {
        match ps[pi].quant {
            Quant::One => 0 <= si < s.len() && item_match(ps[pi].item, s[si]) && matches_from(
                s,
                si + 1,
                ps,
                pi + 1,
                anchored_end,
            ),
            Quant::Opt => (0 <= si < s.len() && item_match(ps[pi].item, s[si]) && matches_from(
                s,
                si + 1,
                ps,
                pi + 1,
                anchored_end,
            )) || matches_from(s, si, ps, pi + 1, anchored_end),
            Quant::Star => exists|k: int|
                0 <= k && si + k <= s.len() && run_match(s, si, k, ps[pi].item) && matches_from(
                    s,
                    si + k,
                    ps,
                    pi + 1,
                    anchored_end,
                ),
            Quant::Lazy => exists|k: int|
                0 <= k && si + k <= s.len() && run_match(s, si, k, ps[pi].item) && matches_from(
                    s,
                    si + k,
                    ps,
                    pi + 1,
                    anchored_end,
                ),
            Quant::Plus => exists|k: int|
                1 <= k && si + k <= s.len() && run_match(s, si, k, ps[pi].item) && matches_from(
                    s,
                    si + k,
                    ps,
                    pi + 1,
                    anchored_end,
                ),
        }
    }
}

/// Whether a pattern matches somewhere in a text, honoring its anchors.
pub open spec fn pattern_matches(p: Pattern, s: Seq<char>) -> bool {
    if p.anchored_start {
        matches_from(s, 0, p.pieces@, 0, p.anchored_end)
    } else {
        exists|start: int|
            0 <= start <= s.len() && matches_from(s, start, p.pieces@, 0, p.anchored_end)
    }
}

fn class_match_exec(cl: char, c: char) -> (r: bool)
    ensures
        r == class_match(cl, c),
{
    if cl == 'a' {
        ('a' <= c && c <= 'z') || ('A' <= c && c <= 'Z')
    } else if cl == 'A' {
        !(('a' <= c && c <= 'z') || ('A' <= c && c <= 'Z'))
    } else if cl == 'd' {
        '0' <= c && c <= '9'
    } else if cl == 'D' {
        !('0' <= c && c <= '9')
    } else if cl == 'l' {
        'a' <= c && c <= 'z'
    } else if cl == 'L' {
        !('a' <= c && c <= 'z')
    } else if cl == 'u' {
        'A' <= c && c <= 'Z'
    } else if cl == 'U' {
        !('A' <= c && c <= 'Z')
    } else if cl == 's' {
        c == ' ' || c == '\t' || c == '\n' || c == '\r' || c == '\u{b}' || c == '\u{c}'
    } else if cl == 'S' {
        !(c == ' ' || c == '\t' || c == '\n' || c == '\r' || c == '\u{b}' || c == '\u{c}')
    } else if cl == 'w' {
        ('a' <= c && c <= 'z') || ('A' <= c && c <= 'Z') || ('0' <= c && c <= '9')
    } else if cl == 'W' {
        !(('a' <= c && c <= 'z') || ('A' <= c && c <= 'Z') || ('0' <= c && c <= '9'))
    } else if cl == 'x' {
        ('0' <= c && c <= '9') || ('a' <= c && c <= 'f') || ('A' <= c && c <= 'F')
    } else if cl == 'X' {
        !(('0' <= c && c <= '9') || ('a' <= c && c <= 'f') || ('A' <= c && c <= 'F'))
    } else if cl == 'p' {
        ('!' <= c && c <= '/') || (':' <= c && c <= '@') || ('[' <= c && c <= '`') || ('{' <= c
            && c <= '~')
    } else if cl == 'P' {
        !(('!' <= c && c <= '/') || (':' <= c && c <= '@') || ('[' <= c && c <= '`') || ('{' <= c
            && c <= '~'))
    } else if cl == 'c' {
        c < ' ' || c == '\u{7f}'
    } else if cl == 'C' {
        !(c < ' ' || c == '\u{7f}')
    } else {
        cl == c
    }
}

fn item_match_exec(item: &PatItem, c: char) -> (r: bool)
    ensures
        r == item_match(*item, c),
{
    match item {
        PatItem::Lit(l) => *l == c,
        PatItem::Any => true,
        PatItem::Class(cl) => class_match_exec(*cl, c),
        PatItem::Bracket(s) => {
            let mut any = false;
            let mut k: usize = 0;
            while k < s.items.len()
                invariant
                    k <= s.items@.len(),
                    any == exists|j: int| 0 <= j < k && set_item_match(s.items@[j], c),
                decreases s.items@.len() - k,
            {
                let hit = match s.items[k] {
                    SetItem::Ch(l) => l == c,
                    SetItem::Range(lo, hi) => lo <= c && c <= hi,
                    SetItem::Class(cl) => class_match_exec(cl, c),
                };
                if hit {
                    any = true;
                }
                k = k + 1;
            }
            if s.negated {
                !any
            } else {
                any
            }
        },
    }
}

/// Whether the pieces from `pi` on match the text from `si` on.
fn match_from(s: &Vec<char>, si: usize, ps: &Vec<PatPiece>, pi: usize, ae: bool) -> (r: bool)
    requires
        si <= s@.len(),
        pi <= ps@.len(),
    ensures
        r == matches_from(s@, si as int, ps@, pi as int, ae),
    decreases ps@.len() - pi, 1int,
{
    if pi >= ps.len() {
        if ae {
            return si == s.len();
        }
        return true;
    }
    let quant = ps[pi].quant;
    match quant {
        Quant::One => {
            if si < s.len() && item_match_exec(&ps[pi].item, s[si]) {
                match_from(s, si + 1, ps, pi + 1, ae)
            } else {
                false
            }
        },
        Quant::Opt => {
            if si < s.len() && item_match_exec(&ps[pi].item, s[si]) {
                if match_from(s, si + 1, ps, pi + 1, ae) {
                    return true;
                }
            }
            match_from(s, si, ps, pi + 1, ae)
        },
        Quant::Star => star_from(s, si, ps, pi, ae, 0),
        Quant::Lazy => star_from(s, si, ps, pi, ae, 0),
        Quant::Plus => star_from(s, si, ps, pi, ae, 1),
    }
}

/// Whether some run of at least `kmin` item repetitions followed by the
/// rest of the pattern matches at `si`.
fn star_from(s: &Vec<char>, si: usize, ps: &Vec<PatPiece>, pi: usize, ae: bool, kmin: usize) -> (r:
    bool)
    requires
        si <= s@.len(),
        pi < ps@.len(),
        kmin <= 1,
    ensures
        r == exists|k: int|
            kmin <= k && si + k <= s@.len() && run_match(s@, si as int, k, ps@[pi as int].item)
                && matches_from(s@, si + k, ps@, pi + 1, ae),
    decreases ps@.len() - pi, 0int,
{
    let n = s.len();
    let mut kmax: usize = 0;
    loop
        invariant
            si + kmax <= n,
            n == s@.len(),
            pi < ps@.len(),
            si <= n,
            run_match(s@, si as int, kmax as int, ps@[pi as int].item),
        ensures
            si + kmax <= n,
            run_match(s@, si as int, kmax as int, ps@[pi as int].item),
            si + kmax == n || !item_match(ps@[pi as int].item, s@[si + kmax]),
        decreases n - si - kmax,
    {
        if si + kmax >= n {
            break;
        }
        if !item_match_exec(&ps[pi].item, s[si + kmax]) {
            break;
        }
        proof {
            assert forall|j: int| 0 <= j < kmax + 1 implies #[trigger] item_match(
                ps@[pi as int].item,
                s@[si + j],
            ) by {
                if j < kmax {
                    assert(item_match(ps@[pi as int].item, s@[si + j]));
                }
            }
        }
        kmax = kmax + 1;
    }
    if kmax < kmin {
        proof {
            assert forall|kk: int|
                kmin <= kk && si + kk <= s@.len() && run_match(
                    s@,
                    si as int,
                    kk,
                    ps@[pi as int].item,
                ) implies false by {
                assert(si + kmax < s@.len());
                assert(item_match(ps@[pi as int].item, s@[si + kmax]));
            }
        }
        return false;
    }
    let pn = ps.len();
    let mut k: usize = kmin;
    loop
        invariant_except_break
            kmin <= k <= kmax,
            si + kmax <= n,
            n == s@.len(),
            pn == ps@.len(),
            pi < pn,
            pi < ps@.len(),
            si <= n,
            kmin <= 1,
            run_match(s@, si as int, kmax as int, ps@[pi as int].item),
            si + kmax == n || !item_match(ps@[pi as int].item, s@[si + kmax]),
            forall|j: int|
                kmin <= j < k ==> !(#[trigger] matches_from(s@, si + j, ps@, pi + 1, ae)),
        ensures
            si + kmax <= n,
            run_match(s@, si as int, kmax as int, ps@[pi as int].item),
            si + kmax == n || !item_match(ps@[pi as int].item, s@[si + kmax]),
            forall|j: int|
                kmin <= j <= kmax ==> !(#[trigger] matches_from(s@, si + j, ps@, pi + 1, ae)),
        decreases kmax - k,
    {
        if match_from(s, si + k, ps, pi + 1, ae) {
            proof {
                assert forall|j: int| 0 <= j < k implies #[trigger] item_match(
                    ps@[pi as int].item,
                    s@[si + j],
                ) by {
                    assert(item_match(ps@[pi as int].item, s@[si + j]));
                }
                assert(kmin <= k as int && si + k <= s@.len() && run_match(
                    s@,
                    si as int,
                    k as int,
                    ps@[pi as int].item,
                ) && matches_from(s@, si + k, ps@, pi + 1, ae));
            }
            return true;
        }
        if k == kmax {
            break;
        }
        k = k + 1;
    }
    proof {
        assert forall|kk: int|
            kmin <= kk && si + kk <= s@.len() && run_match(s@, si as int, kk, ps@[pi as int].item)
                implies !matches_from(s@, si + kk, ps@, pi + 1, ae) by {
            if kk > kmax {
                assert(si + kmax < s@.len());
                assert(item_match(ps@[pi as int].item, s@[si + kmax]));
            }
        }
    }
    false
}

/// The characters of a string, as an indexable vector.
pub fn chars_of(s: &str) -> (r: Vec<char>)
    ensures
        r@ == s@,
{
    let n = s.unicode_len();
    let mut r: Vec<char> = Vec::new();
    let mut i: usize = 0;
    while i < n
        invariant
            i <= n,
            n == s@.len(),
            r@ == s@.take(i as int),
        decreases n - i,
    {
        r.push(s.get_char(i));
        proof {
            assert(r@ =~= s@.take(i + 1));
        }
        i = i + 1;
    }
    proof {
        assert(s@.take(n as int) =~= s@);
    }
    r
}

/// Whether a parsed pattern matches a text, honoring its anchors.
pub fn pattern_match(p: &Pattern, text: &str) -> (r: bool)
    ensures
        r == pattern_matches(*p, text@),
{
    let cs = chars_of(text);
    if p.anchored_start {
        match_from(&cs, 0, &p.pieces, 0, p.anchored_end)
    } else {
        let n = cs.len();
        let mut start: usize = 0;
        loop
            invariant_except_break
                start <= n,
                n == text@.len(),
                cs@ == text@,
                !p.anchored_start,
                forall|j: int|
                    0 <= j < start ==> !(#[trigger] matches_from(
                        text@,
                        j,
                        p.pieces@,
                        0,
                        p.anchored_end,
                    )),
            ensures
                forall|j: int|
                    0 <= j <= n ==> !(#[trigger] matches_from(
                        text@,
                        j,
                        p.pieces@,
                        0,
                        p.anchored_end,
                    )),
            decreases n - start,
        {
            if match_from(&cs, start, &p.pieces, 0, p.anchored_end) {
                proof {
                    let ghost pp = *p;
                    assert(matches_from(text@, start as int, pp.pieces@, 0, pp.anchored_end));
                    assert(exists|st: int|
                        0 <= st <= text@.len() && matches_from(
                            text@,
                            st,
                            pp.pieces@,
                            0,
                            pp.anchored_end,
                        ));
                    assert(pattern_matches(pp, text@));
                }
                return true;
            }
            if start == n {
                break;
            }
            start = start + 1;
        }
        false
    }
}


/// Ghost mirror of one pattern item, with the set body as a sequence.
pub ghost enum ItemModel {
    Lit(char),
    Any,
    Class(char),
    Bracket { negated: bool, items: Seq<SetItem> },
}

/// Ghost mirror of one pattern piece.
pub ghost struct PieceModel {
    pub item: ItemModel,
    pub quant: Quant,
}

/// Ghost mirror of a whole pattern.
pub ghost struct PatModel {
    pub anchored_start: bool,
    pub anchored_end: bool,
    pub pieces: Seq<PieceModel>,
}

/// The model of an item value.
pub open spec fn item_view(it: PatItem) -> ItemModel {
    match it {
        PatItem::Lit(c) => ItemModel::Lit(c),
        PatItem::Any => ItemModel::Any,
        PatItem::Class(c) => ItemModel::Class(c),
        PatItem::Bracket(s) => ItemModel::Bracket { negated: s.negated, items: s.items@ },
    }
}

/// The model of a piece value.
pub open spec fn piece_view(p: PatPiece) -> PieceModel {
    PieceModel { item: item_view(p.item), quant: p.quant }
}

/// The models of a piece list.
pub open spec fn pieces_view(ps: Seq<PatPiece>) -> Seq<PieceModel> {
    ps.map_values(|p: PatPiece| piece_view(p))
}

/// The model of a pattern value.
pub open spec fn pattern_view(p: Pattern) -> PatModel {
    PatModel {
        anchored_start: p.anchored_start,
        anchored_end: p.anchored_end,
        pieces: pieces_view(p.pieces@),
    }
}

/// The four quantifier characters.
pub open spec fn is_quant_char(c: char) -> bool {
    c == '*' || c == '+' || c == '-' || c == '?'
}

/// The quantifier a quantifier character denotes.
pub open spec fn quant_of(c: char) -> Quant {
    if c == '*' {
        Quant::Star
    } else if c == '+' {
        Quant::Plus
    } else if c == '-' {
        Quant::Lazy
    } else {
        Quant::Opt
    }
}

/// The scan of one bracketed set body: whether it closes properly, its
/// members, and the position after the closing bracket.
pub ghost struct SetScan {
    pub ok: bool,
    pub items: Seq<SetItem>,
    pub next: int,
}

/// Scans a set body from `j`: members until the closing bracket, which
/// counts as a literal right after the opening (`first`). A `%`-escape
/// needs a following non-digit character; `a-b` is a range unless the
/// dash or the closing bracket would end it.
pub open spec fn scan_set(s: Seq<char>, j: int, first: bool) -> SetScan
    decreases s.len() - j,
{
    if j < 0 || j >= s.len() {
        SetScan { ok: false, items: Seq::empty(), next: j }
    } else {
        let d = s[j];
        if d == ']' && !first {
            SetScan { ok: true, items: Seq::empty(), next: j + 1 }
        } else if d == '%' {
            if j + 1 >= s.len() || ('0' <= s[j + 1] && s[j + 1] <= '9') {
                SetScan { ok: false, items: Seq::empty(), next: j }
            } else {
                let rest = scan_set(s, j + 2, false);
                SetScan {
                    ok: rest.ok,
                    items: seq![SetItem::Class(s[j + 1])] + rest.items,
                    next: rest.next,
                }
            }
        } else if s.len() - j > 2 && s[j + 1] == '-' && s[j + 2] != ']' {
            let rest = scan_set(s, j + 3, false);
            SetScan {
                ok: rest.ok,
                items: seq![SetItem::Range(d, s[j + 2])] + rest.items,
                next: rest.next,
            }
        } else {
            let rest = scan_set(s, j + 1, false);
            SetScan { ok: rest.ok, items: seq![SetItem::Ch(d)] + rest.items, next: rest.next }
        }
    }
}

/// A successful set scan ends past where it started, within the text.
pub proof fn lemma_scan_set_next(s: Seq<char>, j: int, first: bool)
    requires
        0 <= j <= s.len(),
    ensures
        scan_set(s, j, first).ok ==> j + 1 <= scan_set(s, j, first).next <= s.len(),
    decreases s.len() - j,
{
    if j < s.len() {
        let d = s[j];
        if d == ']' && !first {
        } else if d == '%' {
            if !(j + 1 >= s.len() || ('0' <= s[j + 1] && s[j + 1] <= '9')) {
                lemma_scan_set_next(s, j + 2, false);
            }
        } else if s.len() - j > 2 && s[j + 1] == '-' && s[j + 2] != ']' {
            lemma_scan_set_next(s, j + 3, false);
        } else {
            lemma_scan_set_next(s, j + 1, false);
        }
    }
}

/// The scan of one item at a position: whether it is well-formed, its
/// model, and the position after it.
pub ghost struct ItemScan {
    pub ok: bool,
    pub item: ItemModel,
    pub next: int,
}

/// Scans one item at `i`: a `%`-escape (no digit, not at the end), a
/// bracketed set, the wildcard, or a literal.
pub open spec fn scan_item(s: Seq<char>, i: int) -> ItemScan {
    let c = s[i];
    if c == '%' {
        if i + 1 >= s.len() || ('0' <= s[i + 1] && s[i + 1] <= '9') {
            ItemScan { ok: false, item: ItemModel::Any, next: i }
        } else {
            ItemScan { ok: true, item: ItemModel::Class(s[i + 1]), next: i + 2 }
        }
    } else if c == '[' {
        let negated = i + 1 < s.len() && s[i + 1] == '^';
        let j0 = if negated {
            i + 2
        } else {
            i + 1
        };
        let sc = scan_set(s, j0, true);
        if sc.ok {
            ItemScan { ok: true, item: ItemModel::Bracket { negated, items: sc.items }, next: sc.next }
        } else {
            ItemScan { ok: false, item: ItemModel::Any, next: i }
        }
    } else if c == '.' {
        ItemScan { ok: true, item: ItemModel::Any, next: i + 1 }
    } else {
        ItemScan { ok: true, item: ItemModel::Lit(c), next: i + 1 }
    }
}

/// A successful item scan ends past where it started, within the text.
pub proof fn lemma_scan_item_next(s: Seq<char>, i: int)
    requires
        0 <= i < s.len(),
    ensures
        scan_item(s, i).ok ==> i + 1 <= scan_item(s, i).next <= s.len(),
{
    let c = s[i];
    if c == '[' {
        let negated = i + 1 < s.len() && s[i + 1] == '^';
        let j0 = if negated {
            i + 2
        } else {
            i + 1
        };
        lemma_scan_set_next(s, j0, true);
    }
}

/// The scan of a pattern tail: whether it is well-formed, its pieces,
/// and whether it ends in the end anchor.
pub ghost struct ItemsScan {
    pub ok: bool,
    pub pieces: Seq<PieceModel>,
    pub anchored_end: bool,
}

/// Scans pattern pieces from `i` to the end: `$` only as the last
/// character anchors the end, capture parentheses are transparent, and
/// every other item may carry one quantifier.
pub open spec fn scan_items(s: Seq<char>, i: int) -> ItemsScan
    decreases s.len() - i,
    via scan_items_dec
{
    if i < 0 || i >= s.len() {
        ItemsScan { ok: true, pieces: Seq::empty(), anchored_end: false }
    } else {
        let c = s[i];
        if c == '$' && i + 1 == s.len() {
            ItemsScan { ok: true, pieces: Seq::empty(), anchored_end: true }
        } else if c == '(' || c == ')' {
            scan_items(s, i + 1)
        } else {
            let it = scan_item(s, i);
            if !it.ok {
                ItemsScan { ok: false, pieces: Seq::empty(), anchored_end: false }
            } else {
                let with_q = it.next < s.len() && is_quant_char(s[it.next]);
                let quant = if with_q {
                    quant_of(s[it.next])
                } else {
                    Quant::One
                };
                let j2 = if with_q {
                    it.next + 1
                } else {
                    it.next
                };
                let rest = scan_items(s, j2);
                ItemsScan {
                    ok: rest.ok,
                    pieces: seq![PieceModel { item: it.item, quant }] + rest.pieces,
                    anchored_end: rest.anchored_end,
                }
            }
        }
    }
}

#[via_fn]
proof fn scan_items_dec(s: Seq<char>, i: int) {
    if 0 <= i < s.len() {
        let c = s[i];
        if !(c == '$' && i + 1 == s.len()) && !(c == '(' || c == ')') {
            lemma_scan_item_next(s, i);
        }
    }
}

/// Where the pieces of a pattern text begin: after a start anchor.
pub open spec fn pat_start(s: Seq<char>) -> int {
    if s.len() > 0 && s[0] == '^' {
        1
    } else {
        0
    }
}

/// A well-formed pattern text: its pieces all scan. Back-references and
/// dangling escapes or sets do not.
pub open spec fn pattern_text_wf(s: Seq<char>) -> bool {
    scan_items(s, pat_start(s)).ok
}

/// The pattern a well-formed text denotes.
pub open spec fn pattern_of_text(s: Seq<char>) -> PatModel {
    PatModel {
        anchored_start: s.len() > 0 && s[0] == '^',
        anchored_end: scan_items(s, pat_start(s)).anchored_end,
        pieces: scan_items(s, pat_start(s)).pieces,
    }
}


proof fn lemma_item_match_by_view(i1: PatItem, i2: PatItem, c: char)
    requires
        item_view(i1) == item_view(i2),
    ensures
        item_match(i1, c) == item_match(i2, c),
{
    match i1 {
        PatItem::Lit(_) => {},
        PatItem::Any => {},
        PatItem::Class(_) => {},
        PatItem::Bracket(s1) => {
            match i2 {
                PatItem::Bracket(s2) => {
                    assert(s1.negated == s2.negated && s1.items@ == s2.items@);
                },
                _ => {},
            }
        },
    }
}

proof fn lemma_matches_from_by_view(
    s: Seq<char>,
    ps1: Seq<PatPiece>,
    ps2: Seq<PatPiece>,
    pi: int,
    ae: bool,
)
    requires
        pieces_view(ps1) == pieces_view(ps2),
    ensures
        forall|si: int|
            matches_from(s, si, ps1, pi, ae) == #[trigger] matches_from(s, si, ps2, pi, ae),
    decreases ps1.len() - pi,
{
    assert(ps1.len() == ps2.len()) by {
        assert(pieces_view(ps1).len() == ps1.len());
        assert(pieces_view(ps2).len() == ps2.len());
    }
    if 0 <= pi < ps1.len() {
        lemma_matches_from_by_view(s, ps1, ps2, pi + 1, ae);
        assert(piece_view(ps1[pi]) == piece_view(ps2[pi])) by {
            assert(pieces_view(ps1)[pi] == piece_view(ps1[pi]));
            assert(pieces_view(ps2)[pi] == piece_view(ps2[pi]));
        }
        assert(ps1[pi].quant == ps2[pi].quant);
        assert forall|c: char|
            item_match(ps1[pi].item, c) == #[trigger] item_match(ps2[pi].item, c) by {
            lemma_item_match_by_view(ps1[pi].item, ps2[pi].item, c);
        }
        assert forall|si: int|
            matches_from(s, si, ps1, pi, ae) == #[trigger] matches_from(s, si, ps2, pi, ae) by {
            match ps1[pi].quant {
                Quant::One => {
                    assert(item_match(ps1[pi].item, s[si]) == item_match(ps2[pi].item, s[si]));
                    assert(matches_from(s, si + 1, ps1, pi + 1, ae) == matches_from(
                        s,
                        si + 1,
                        ps2,
                        pi + 1,
                        ae,
                    ));
                },
                Quant::Opt => {
                    assert(item_match(ps1[pi].item, s[si]) == item_match(ps2[pi].item, s[si]));
                    assert(matches_from(s, si + 1, ps1, pi + 1, ae) == matches_from(
                        s,
                        si + 1,
                        ps2,
                        pi + 1,
                        ae,
                    ));
                    assert(matches_from(s, si, ps1, pi + 1, ae) == matches_from(
                        s,
                        si,
                        ps2,
                        pi + 1,
                        ae,
                    ));
                },
                _ => {
                    let lo: int = if ps1[pi].quant is Plus {
                        1
                    } else {
                        0
                    };
                    if matches_from(s, si, ps1, pi, ae) {
                        let k = choose|k: int|
                            lo <= k && si + k <= s.len() && run_match(s, si, k, ps1[pi].item)
                                && matches_from(s, si + k, ps1, pi + 1, ae);
                        assert(run_match(s, si, k, ps2[pi].item)) by {
                            assert(forall|j: int|
                                0 <= j < k ==> #[trigger] item_match(ps2[pi].item, s[si + j])
                                    == item_match(ps1[pi].item, s[si + j]));
                        }
                        assert(matches_from(s, si + k, ps2, pi + 1, ae));
                        assert(matches_from(s, si, ps2, pi, ae));
                    }
                    if matches_from(s, si, ps2, pi, ae) {
                        let k = choose|k: int|
                            lo <= k && si + k <= s.len() && run_match(s, si, k, ps2[pi].item)
                                && matches_from(s, si + k, ps2, pi + 1, ae);
                        assert(run_match(s, si, k, ps1[pi].item)) by {
                            assert(forall|j: int|
                                0 <= j < k ==> #[trigger] item_match(ps1[pi].item, s[si + j])
                                    == item_match(ps2[pi].item, s[si + j]));
                        }
                        assert(matches_from(s, si + k, ps1, pi + 1, ae));
                        assert(matches_from(s, si, ps1, pi, ae));
                    }
                },
            }
        }
    }
}

/// Matching sees only the pattern's model: two patterns with the same
/// model accept exactly the same texts. Together with the parser's
/// contract, a well-formed pattern text fully determines the matching
/// behavior of the pattern it loads.
pub proof fn lemma_pattern_matches_by_view(p1: Pattern, p2: Pattern, s: Seq<char>)
    requires
        pattern_view(p1) == pattern_view(p2),
    ensures
        pattern_matches(p1, s) == pattern_matches(p2, s),
{
    assert(pieces_view(p1.pieces@) == pieces_view(p2.pieces@));
    assert(p1.anchored_start == p2.anchored_start && p1.anchored_end == p2.anchored_end);
    lemma_matches_from_by_view(s, p1.pieces@, p2.pieces@, 0, p1.anchored_end);
    if !p1.anchored_start {
        if pattern_matches(p1, s) {
            let st = choose|st: int|
                0 <= st <= s.len() && matches_from(s, st, p1.pieces@, 0, p1.anchored_end);
            assert(matches_from(s, st, p2.pieces@, 0, p2.anchored_end));
            assert(pattern_matches(p2, s));
        }
        if pattern_matches(p2, s) {
            let st = choose|st: int|
                0 <= st <= s.len() && matches_from(s, st, p2.pieces@, 0, p2.anchored_end);
            assert(matches_from(s, st, p1.pieces@, 0, p1.anchored_end));
            assert(pattern_matches(p1, s));
        }
    }
}

} // verus!

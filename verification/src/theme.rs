//! Theme resolution: from a graph of named groups — each a concrete style, an
//! alias to another group, or explicitly unstyled — to a flat table mapping
//! highlight category names to style attribute text.

use vstd::prelude::*;
use crate::strutil::str_eq;

verus! {

/// One named group of the theme graph.
pub enum Group {
    /// An alias: the group renders like the named group.
    Link(String),
    /// A concrete color value.
    Color(String),
    /// Explicitly unstyled.
    NoStyle,
}

/// Ghost mirror of a group value.
pub ghost enum GroupModel {
    Link(Seq<char>),
    Color(Seq<char>),
    NoStyle,
}

/// The model of a group value.
pub open spec fn group_view(g: Group) -> GroupModel {
    match g {
        Group::Link(l) => GroupModel::Link(l@),
        Group::Color(c) => GroupModel::Color(c@),
        Group::NoStyle => GroupModel::NoStyle,
    }
}

/// The model of a whole theme graph.
pub open spec fn graph_view(gs: Seq<(String, Group)>) -> Seq<(Seq<char>, GroupModel)> {
    gs.map_values(|p: (String, Group)| (p.0@, group_view(p.1)))
}

/// The outcome of resolving one group name, as an exec value.
pub enum Resolution {
    /// The chain ends in a concrete style.
    Style(String),
    /// The chain ends in an explicitly unstyled group.
    Unstyled,
    /// The name (or a link on its chain) is not in the graph.
    Undefined,
    /// The chain did not reach a fixed point within the graph's size: the
    /// alias graph is cyclic, which is a build-time defect of the theme.
    TooDeep,
}

/// Ghost mirror of `Resolution`.
pub ghost enum ResolveModel {
    Style(Seq<char>),
    Unstyled,
    Undefined,
    TooDeep,
}

/// The model of an exec resolution.
pub open spec fn res_view(r: Resolution) -> ResolveModel {
    match r {
        Resolution::Style(s) => ResolveModel::Style(s@),
        Resolution::Unstyled => ResolveModel::Unstyled,
        Resolution::Undefined => ResolveModel::Undefined,
        Resolution::TooDeep => ResolveModel::TooDeep,
    }
}

/// First group bound to `name` in the graph, if any.
pub open spec fn lookup_group(gs: Seq<(Seq<char>, GroupModel)>, name: Seq<char>) -> Option<
    GroupModel,
>
    decreases gs.len(),
{
    if gs.len() == 0 {
        Option::None
    } else if gs.first().0 == name {
        Option::Some(gs.first().1)
    } else {
        lookup_group(gs.drop_first(), name)
    }
}

/// Resolution of `name` by following alias links, with bounded fuel.
pub open spec fn resolve_spec(
    gs: Seq<(Seq<char>, GroupModel)>,
    name: Seq<char>,
    fuel: nat,
) -> ResolveModel
    decreases fuel,
{
    if fuel == 0 {
        ResolveModel::TooDeep
    } else {
        match lookup_group(gs, name) {
            Option::None => ResolveModel::Undefined,
            Option::Some(g) => match g {
                GroupModel::Color(s) => ResolveModel::Style(s),
                GroupModel::NoStyle => ResolveModel::Unstyled,
                GroupModel::Link(l) => resolve_spec(gs, l, (fuel - 1) as nat),
            },
        }
    }
}

fn lookup_group_idx(groups: &Vec<(String, Group)>, name: &str) -> (r: Option<usize>)
    ensures
        match r {
            Option::Some(i) => i < groups@.len() && groups@[i as int].0@ == name@ && lookup_group(
                graph_view(groups@),
                name@,
            ) == Option::Some(group_view(groups@[i as int].1)),
            Option::None => lookup_group(graph_view(groups@), name@) is None,
        },
{
    let ghost gv = graph_view(groups@);
    let n = groups.len();
    let mut i: usize = 0;
    proof {
        assert(gv.skip(0) =~= gv);
    }
    while i < n
        invariant
            i <= n,
            n == groups@.len(),
            gv == graph_view(groups@),
            lookup_group(gv.skip(i as int), name@) == lookup_group(gv, name@),
        decreases n - i,
    {
        proof {
            assert(gv[i as int] == (groups@[i as int].0@, group_view(groups@[i as int].1)));
        }
        if str_eq(groups[i].0.as_str(), name) {
            proof {
                assert(gv.skip(i as int).first() == gv[i as int]);
            }
            return Option::Some(i);
        }
        proof {
            assert(gv.skip(i as int).first() == gv[i as int]);
            assert(gv.skip(i as int).drop_first() =~= gv.skip(i + 1));
        }
        i = i + 1;
    }
    proof {
        assert(gv.skip(n as int).len() == 0);
    }
    Option::None
}

/// Follows alias links from `group` to a fixed point. The fuel equals the
/// graph size plus one, so a chain that does not resolve within it is
/// reported as `TooDeep` — only a cyclic graph can reach that.
pub fn resolve_group(groups: &Vec<(String, Group)>, group: &str) -> (r: Resolution)
    ensures
        res_view(r) == resolve_spec(graph_view(groups@), group@, (groups@.len() + 1) as nat),
{
    let ghost gv = graph_view(groups@);
    let n = groups.len();
    let mut cur = String::from_str(group);
    let mut steps: usize = 0;
    loop
        invariant
            steps <= n,
            n == groups@.len(),
            gv == graph_view(groups@),
            resolve_spec(gv, cur@, (n + 1 - steps) as nat) == resolve_spec(
                gv,
                group@,
                (n + 1) as nat,
            ),
        decreases n - steps,
    {
        match lookup_group_idx(groups, cur.as_str()) {
            Option::None => {
                return Resolution::Undefined;
            },
            Option::Some(i) => {
                match &groups[i].1 {
                    Group::Color(s) => {
                        proof {
                            assert(lookup_group(gv, cur@) == Option::Some(
                                GroupModel::Color(s@),
                            ));
                        }
                        return Resolution::Style(s.clone());
                    },
                    Group::NoStyle => {
                        proof {
                            assert(lookup_group(gv, cur@) == Option::Some(GroupModel::NoStyle));
                        }
                        return Resolution::Unstyled;
                    },
                    Group::Link(l) => {
                        proof {
                            assert(lookup_group(gv, cur@) == Option::Some(
                                GroupModel::Link(l@),
                            ));
                        }
                        if steps >= n {
                            proof {
                                assert(resolve_spec(gv, cur@, 1nat) == resolve_spec(
                                    gv,
                                    l@,
                                    0nat,
                                ));
                            }
                            return Resolution::TooDeep;
                        }
                        cur = l.clone();
                        steps = steps + 1;
                    },
                }
            },
        }
    }
}

/// The resolved table: highlight category name to style attribute text.
pub struct Theme(pub Vec<(String, String)>);

/// A flat set of concrete colors per category name.
pub struct Color(pub Vec<(String, String)>);

/// The style attribute text for a color value.
pub open spec fn style_of(v: Seq<char>) -> Seq<char> {
    "style=\"color: "@ + v + "\""@
}

/// First style bound to `name` in the theme, if any.
pub open spec fn theme_lookup(es: Seq<(String, String)>, name: Seq<char>) -> Option<Seq<char>>
    decreases es.len(),
{
    if es.len() == 0 {
        Option::None
    } else if es.first().0@ == name {
        Option::Some(es.first().1@)
    } else {
        theme_lookup(es.drop_first(), name)
    }
}

impl Theme {
    /// Looks a category name up in the resolved table.
    pub fn get(&self, name: &str) -> (r: Option<String>)
        ensures
            match r {
                Option::Some(s) => theme_lookup(self.0@, name@) == Option::Some(s@),
                Option::None => theme_lookup(self.0@, name@) is None,
            },
    {
        let n = self.0.len();
        let mut i: usize = 0;
        proof {
            assert(self.0@.skip(0) =~= self.0@);
        }
        while i < n
            invariant
                i <= n,
                n == self.0@.len(),
                theme_lookup(self.0@.skip(i as int), name@) == theme_lookup(self.0@, name@),
            decreases n - i,
        {
            if str_eq(self.0[i].0.as_str(), name) {
                proof {
                    assert(self.0@.skip(i as int).first() == self.0@[i as int]);
                }
                return Option::Some(self.0[i].1.clone());
            }
            proof {
                assert(self.0@.skip(i as int).first() == self.0@[i as int]);
                assert(self.0@.skip(i as int).drop_first() =~= self.0@.skip(i + 1));
            }
            i = i + 1;
        }
        proof {
            assert(self.0@.skip(n as int).len() == 0);
        }
        Option::None
    }

    /// Builds the table from flat colors: each value becomes the attribute
    /// text `style="color: value"`.
    pub fn from_colors(colors: &Color) -> (r: Theme)
        ensures
            r.0@.len() == colors.0@.len(),
            forall|i: int|
                0 <= i < colors.0@.len() ==> #[trigger] r.0@[i].0@ == colors.0@[i].0@ && r.0@[i].1@
                    == style_of(colors.0@[i].1@),
    {
        let n = colors.0.len();
        let mut entries: Vec<(String, String)> = Vec::new();
        let mut i: usize = 0;
        while i < n
            invariant
                i <= n,
                n == colors.0@.len(),
                entries@.len() == i,
                forall|j: int|
                    0 <= j < i ==> #[trigger] entries@[j].0@ == colors.0@[j].0@ && entries@[j].1@
                        == style_of(colors.0@[j].1@),
            decreases n - i,
        {
            let mut s = String::from_str("style=\"color: ");
            s.append(colors.0[i].1.as_str());
            s.append("\"");
            entries.push((colors.0[i].0.clone(), s));
            i = i + 1;
        }
        Theme(entries)
    }
}


/// The outcome of resolving a whole theme graph.
pub struct ThemeBuild {
    /// Concrete colors per category name, in graph order.
    pub colors: Color,
    /// Categories whose chain ends explicitly unstyled.
    pub unstyled: Vec<String>,
    /// Categories whose chain leaves the graph or does not terminate.
    pub unresolved: Vec<String>,
}

/// Whether a graph key names a category: it starts with `@`.
pub open spec fn is_category_key(k: Seq<char>) -> bool {
    k.len() > 0 && k[0] == '@'
}

/// The category colors a graph resolves to, in graph order: one entry per
/// `@`-key whose alias chain ends in a concrete style, under the stripped
/// name.
pub open spec fn resolved_colors(
    all: Seq<(Seq<char>, GroupModel)>,
    gs: Seq<(Seq<char>, GroupModel)>,
) -> Seq<(Seq<char>, Seq<char>)>
    decreases gs.len(),
{
    if gs.len() == 0 {
        Seq::empty()
    } else {
        let rest = resolved_colors(all, gs.drop_first());
        if is_category_key(gs.first().0) {
            match resolve_spec(all, gs.first().0, (all.len() + 1) as nat) {
                ResolveModel::Style(st) => seq![(gs.first().0.skip(1), st)] + rest,
                _ => rest,
            }
        } else {
            rest
        }
    }
}

/// The categories a graph leaves explicitly unstyled, in graph order.
pub open spec fn resolved_unstyled(
    all: Seq<(Seq<char>, GroupModel)>,
    gs: Seq<(Seq<char>, GroupModel)>,
) -> Seq<Seq<char>>
    decreases gs.len(),
{
    if gs.len() == 0 {
        Seq::empty()
    } else {
        let rest = resolved_unstyled(all, gs.drop_first());
        if is_category_key(gs.first().0) && resolve_spec(
            all,
            gs.first().0,
            (all.len() + 1) as nat,
        ) is Unstyled {
            seq![gs.first().0.skip(1)] + rest
        } else {
            rest
        }
    }
}

/// The categories whose chains fail, in graph order.
pub open spec fn resolved_failures(
    all: Seq<(Seq<char>, GroupModel)>,
    gs: Seq<(Seq<char>, GroupModel)>,
) -> Seq<Seq<char>>
    decreases gs.len(),
{
    if gs.len() == 0 {
        Seq::empty()
    } else {
        let rest = resolved_failures(all, gs.drop_first());
        if is_category_key(gs.first().0) && (resolve_spec(
            all,
            gs.first().0,
            (all.len() + 1) as nat,
        ) is Undefined || resolve_spec(all, gs.first().0, (all.len() + 1) as nat) is TooDeep) {
            seq![gs.first().0.skip(1)] + rest
        } else {
            rest
        }
    }
}

/// The views of a name/value pair list.
pub open spec fn pairs_view(ps: Seq<(String, String)>) -> Seq<(Seq<char>, Seq<char>)> {
    ps.map_values(|p: (String, String)| (p.0@, p.1@))
}

/// A pair list with every value turned into its style attribute text.
pub open spec fn styled_pairs(ps: Seq<(Seq<char>, Seq<char>)>) -> Seq<(Seq<char>, Seq<char>)> {
    ps.map_values(|p: (Seq<char>, Seq<char>)| (p.0, style_of(p.1)))
}

/// The views of a name list.
pub open spec fn names_view(ns: Seq<String>) -> Seq<Seq<char>> {
    ns.map_values(|n: String| n@)
}

/// Resolves every `@`-keyed group of a theme graph to its fixed point,
/// sorting each category into styled, explicitly unstyled, or failed.
pub fn resolve_theme(groups: &Vec<(String, Group)>) -> (r: ThemeBuild)
    ensures
        pairs_view(r.colors.0@) == resolved_colors(graph_view(groups@), graph_view(groups@)),
        names_view(r.unstyled@) == resolved_unstyled(graph_view(groups@), graph_view(groups@)),
        names_view(r.unresolved@) == resolved_failures(graph_view(groups@), graph_view(groups@)),
{
    let ghost gv = graph_view(groups@);
    let mut colors: Vec<(String, String)> = Vec::new();
    let mut unstyled: Vec<String> = Vec::new();
    let mut unresolved: Vec<String> = Vec::new();
    let n = groups.len();
    let mut i: usize = 0;
    proof {
        assert(gv.skip(0) =~= gv);
        assert(pairs_view(colors@) + resolved_colors(gv, gv) =~= resolved_colors(gv, gv));
        assert(names_view(unstyled@) + resolved_unstyled(gv, gv) =~= resolved_unstyled(gv, gv));
        assert(names_view(unresolved@) + resolved_failures(gv, gv) =~= resolved_failures(gv, gv));
    }
    while i < n
        invariant
            i <= n,
            n == groups@.len(),
            gv == graph_view(groups@),
            resolved_colors(gv, gv) == pairs_view(colors@) + resolved_colors(
                gv,
                gv.skip(i as int),
            ),
            resolved_unstyled(gv, gv) == names_view(unstyled@) + resolved_unstyled(
                gv,
                gv.skip(i as int),
            ),
            resolved_failures(gv, gv) == names_view(unresolved@) + resolved_failures(
                gv,
                gv.skip(i as int),
            ),
        decreases n - i,
    {
        proof {
            assert(gv[i as int] == (groups@[i as int].0@, group_view(groups@[i as int].1)));
            assert(gv.skip(i as int).first() == gv[i as int]);
            assert(gv.skip(i as int).drop_first() =~= gv.skip(i + 1));
        }
        let key = &groups[i].0;
        let klen = key.as_str().unicode_len();
        if klen > 0 && key.as_str().get_char(0) == '@' {
            proof {
                assert(is_category_key(gv[i as int].0));
            }
            let name = String::from_str(key.as_str().substring_char(1, klen));
            proof {
                assert(name@ =~= gv[i as int].0.skip(1));
            }
            match resolve_group(groups, key.as_str()) {
                Resolution::Style(st) => {
                    let ghost c0 = colors@;
                    colors.push((name, st));
                    proof {
                        assert(pairs_view(colors@) =~= pairs_view(c0).push(
                            (colors@.last().0@, colors@.last().1@),
                        ));
                        assert(pairs_view(colors@) + resolved_colors(gv, gv.skip(i + 1))
                            =~= resolved_colors(gv, gv));
                        assert(names_view(unstyled@) + resolved_unstyled(gv, gv.skip(i + 1))
                            =~= resolved_unstyled(gv, gv));
                        assert(names_view(unresolved@) + resolved_failures(gv, gv.skip(i + 1))
                            =~= resolved_failures(gv, gv));
                    }
                },
                Resolution::Unstyled => {
                    let ghost u0 = unstyled@;
                    unstyled.push(name);
                    proof {
                        assert(names_view(unstyled@) =~= names_view(u0).push(
                            unstyled@.last()@,
                        ));
                        assert(pairs_view(colors@) + resolved_colors(gv, gv.skip(i + 1))
                            =~= resolved_colors(gv, gv));
                        assert(names_view(unstyled@) + resolved_unstyled(gv, gv.skip(i + 1))
                            =~= resolved_unstyled(gv, gv));
                        assert(names_view(unresolved@) + resolved_failures(gv, gv.skip(i + 1))
                            =~= resolved_failures(gv, gv));
                    }
                },
                Resolution::Undefined => {
                    let ghost u0 = unresolved@;
                    unresolved.push(name);
                    proof {
                        assert(names_view(unresolved@) =~= names_view(u0).push(
                            unresolved@.last()@,
                        ));
                        assert(pairs_view(colors@) + resolved_colors(gv, gv.skip(i + 1))
                            =~= resolved_colors(gv, gv));
                        assert(names_view(unstyled@) + resolved_unstyled(gv, gv.skip(i + 1))
                            =~= resolved_unstyled(gv, gv));
                        assert(names_view(unresolved@) + resolved_failures(gv, gv.skip(i + 1))
                            =~= resolved_failures(gv, gv));
                    }
                },
                Resolution::TooDeep => {
                    let ghost u0 = unresolved@;
                    unresolved.push(name);
                    proof {
                        assert(names_view(unresolved@) =~= names_view(u0).push(
                            unresolved@.last()@,
                        ));
                        assert(pairs_view(colors@) + resolved_colors(gv, gv.skip(i + 1))
                            =~= resolved_colors(gv, gv));
                        assert(names_view(unstyled@) + resolved_unstyled(gv, gv.skip(i + 1))
                            =~= resolved_unstyled(gv, gv));
                        assert(names_view(unresolved@) + resolved_failures(gv, gv.skip(i + 1))
                            =~= resolved_failures(gv, gv));
                    }
                },
            }
        } else {
            proof {
                assert(!is_category_key(gv[i as int].0));
                assert(pairs_view(colors@) + resolved_colors(gv, gv.skip(i + 1))
                    =~= resolved_colors(gv, gv));
                assert(names_view(unstyled@) + resolved_unstyled(gv, gv.skip(i + 1))
                    =~= resolved_unstyled(gv, gv));
                assert(names_view(unresolved@) + resolved_failures(gv, gv.skip(i + 1))
                    =~= resolved_failures(gv, gv));
            }
        }
        i = i + 1;
    }
    proof {
        assert(resolved_colors(gv, gv.skip(n as int)) =~= Seq::<(Seq<char>, Seq<char>)>::empty());
        assert(resolved_unstyled(gv, gv.skip(n as int)) =~= Seq::<Seq<char>>::empty());
        assert(resolved_failures(gv, gv.skip(n as int)) =~= Seq::<Seq<char>>::empty());
        assert(pairs_view(colors@) =~= resolved_colors(gv, gv));
        assert(names_view(unstyled@) =~= resolved_unstyled(gv, gv));
        assert(names_view(unresolved@) =~= resolved_failures(gv, gv));
    }
    ThemeBuild { colors: Color(colors), unstyled, unresolved }
}

/// Whether a name occurs in a name list.
pub open spec fn name_listed(ns: Seq<String>, name: Seq<char>) -> bool {
    exists|i: int| 0 <= i < ns.len() && ns[i]@ == name
}

/// Whether a name is styled by a color table.
pub open spec fn name_styled(cs: Seq<(String, String)>, name: Seq<char>) -> bool {
    exists|i: int| 0 <= i < cs.len() && cs[i].0@ == name
}

/// The vocabulary entries a theme forgot: neither styled nor explicitly
/// ignored.
pub open spec fn missing_names(
    cs: Seq<(String, String)>,
    ignore: Seq<String>,
    names: Seq<String>,
) -> Seq<Seq<char>>
    decreases names.len(),
{
    if names.len() == 0 {
        Seq::empty()
    } else {
        let rest = missing_names(cs, ignore, names.drop_first());
        if !name_styled(cs, names.first()@) && !name_listed(ignore, names.first()@) {
            seq![names.first()@] + rest
        } else {
            rest
        }
    }
}

/// The build-time lint of a theme: every category of the fixed vocabulary
/// must either resolve to a style or be listed as intentionally unstyled;
/// the rest come back as warnings, never as a failure.
pub fn theme_coverage_warnings(colors: &Color, ignore: &Vec<String>, names: &Vec<String>) -> (r:
    Vec<String>)
    ensures
        names_view(r@) == missing_names(colors.0@, ignore@, names@),
{
    let mut r: Vec<String> = Vec::new();
    let n = names.len();
    let mut i: usize = 0;
    proof {
        assert(names@.skip(0) =~= names@);
        assert(names_view(r@) + missing_names(colors.0@, ignore@, names@.skip(0)) =~= missing_names(
            colors.0@,
            ignore@,
            names@,
        ));
    }
    while i < n
        invariant
            i <= n,
            n == names@.len(),
            missing_names(colors.0@, ignore@, names@) == names_view(r@) + missing_names(
                colors.0@,
                ignore@,
                names@.skip(i as int),
            ),
        decreases n - i,
    {
        proof {
            assert(names@.skip(i as int).first() == names@[i as int]);
            assert(names@.skip(i as int).drop_first() =~= names@.skip(i + 1));
        }
        let mut styled = false;
        let mut j: usize = 0;
        while j < colors.0.len()
            invariant
                j <= colors.0@.len(),
                i < names@.len(),
                styled == exists|x: int| 0 <= x < j && colors.0@[x].0@ == names@[i as int]@,
            decreases colors.0@.len() - j,
        {
            if crate::strutil::str_eq(colors.0[j].0.as_str(), names[i].as_str()) {
                styled = true;
            }
            j = j + 1;
        }
        let mut listed = false;
        let mut k: usize = 0;
        while k < ignore.len()
            invariant
                k <= ignore@.len(),
                i < names@.len(),
                listed == exists|x: int| 0 <= x < k && ignore@[x]@ == names@[i as int]@,
            decreases ignore@.len() - k,
        {
            if crate::strutil::str_eq(ignore[k].as_str(), names[i].as_str()) {
                listed = true;
            }
            k = k + 1;
        }
        if !styled && !listed {
            let ghost r0 = r@;
            r.push(names[i].clone());
            proof {
                assert(names_view(r@) =~= names_view(r0).push(r@.last()@));
                assert(!name_styled(colors.0@, names@[i as int]@));
                assert(!name_listed(ignore@, names@[i as int]@));
                assert(names_view(r@) + missing_names(colors.0@, ignore@, names@.skip(i + 1))
                    =~= missing_names(colors.0@, ignore@, names@));
            }
        } else {
            proof {
                if styled {
                    assert(name_styled(colors.0@, names@[i as int]@));
                }
                if listed {
                    assert(name_listed(ignore@, names@[i as int]@));
                }
                assert(names_view(r@) + missing_names(colors.0@, ignore@, names@.skip(i + 1))
                    =~= missing_names(colors.0@, ignore@, names@));
            }
        }
        i = i + 1;
    }
    proof {
        assert(missing_names(colors.0@, ignore@, names@.skip(n as int)) =~= Seq::<Seq<char>>::empty());
        assert(names_view(r@) =~= missing_names(colors.0@, ignore@, names@));
    }
    r
}


/// The graph binds `from` to an alias for `to`.
pub open spec fn links_to(gs: Seq<(Seq<char>, GroupModel)>, from: Seq<char>, to: Seq<char>) -> bool {
    match lookup_group(gs, from) {
        Option::Some(g) => match g {
            GroupModel::Link(l) => l == to,
            _ => false,
        },
        Option::None => false,
    }
}

/// The graph binds `name` to the concrete color `style`.
pub open spec fn ends_color(
    gs: Seq<(Seq<char>, GroupModel)>,
    name: Seq<char>,
    style: Seq<char>,
) -> bool {
    match lookup_group(gs, name) {
        Option::Some(g) => match g {
            GroupModel::Color(st) => st == style,
            _ => false,
        },
        Option::None => false,
    }
}

/// A proper alias chain: each name links to the next, and the last name
/// holds a concrete color.
pub open spec fn alias_chain(
    gs: Seq<(Seq<char>, GroupModel)>,
    c: Seq<Seq<char>>,
    style: Seq<char>,
) -> bool {
    &&& c.len() >= 1
    &&& (forall|k: int, k2: int|
        0 <= k && k2 == k + 1 && k2 < c.len() ==> #[trigger] links_to(gs, c[k], c[k2]))
    &&& ends_color(gs, c.last(), style)
}

/// An alias chain resolves to the concrete style at its end, for any fuel
/// at least the chain's length: following links reaches the fixed point.
pub proof fn lemma_alias_chain(
    gs: Seq<(Seq<char>, GroupModel)>,
    c: Seq<Seq<char>>,
    style: Seq<char>,
    fuel: nat,
)
    requires
        alias_chain(gs, c, style),
        fuel >= c.len(),
    ensures
        resolve_spec(gs, c[0], fuel) == ResolveModel::Style(style),
    decreases c.len(),
{
    if c.len() == 1 {
        assert(c[0] == c.last());
    } else {
        assert(links_to(gs, c[0], c[1]));
        let c2 = c.drop_first();
        assert forall|k: int, k2: int|
            0 <= k && k2 == k + 1 && k2 < c2.len() implies #[trigger] links_to(
            gs,
            c2[k],
            c2[k2],
        ) by {
            assert(links_to(gs, c[k + 1], c[k + 2]));
        }
        assert(c2.last() == c.last());
        lemma_alias_chain(gs, c2, style, (fuel - 1) as nat);
        assert(c2[0] == c[1]);
    }
}

} // verus!

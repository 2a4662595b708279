use vstd::prelude::*;

use crate::data::{ToolCategoryItem, ToolData, ToolIndexItem};
use crate::schema::{tool_eq, Category, CategoryGroup, CategoryTab, Tile, TileAction, Tool, ToolGroup};
use crate::strmap::{lemma_unique_key_at, map_contains_key, map_keys, map_value_of, unique_keys, StrMap};

verus! {

/// A fatal configuration error found while resolving the catalog, carrying
/// the offending identifier.
#[derive(Debug)]
pub enum ResolveError {
    /// A category name is declared twice.
    DuplicateCategory(String),
    /// A `category`-action tile declares a category but has no title.
    MissingTileTitle(String),
    /// Two groups carrying a cross notice share one name.
    DuplicateCrossGroup(String),
    /// The group at this position has no name and is not single.
    MissingGroupName(usize),
    /// The indexed group at this position has no title and is not single.
    MissingGroupTitle(usize),
    /// Two tools share one search key.
    DuplicateSearchKey(String),
    /// Two tools share one name.
    DuplicateTool(String),
    /// One tool declares two cross notices for one group.
    DuplicateCrossNotice(String),
    /// Two indexed groups share one effective name.
    DuplicateGroup(String),
    /// A tool's cross notice names a group that declared none.
    UndeclaredCrossGroup(String),
    /// A tool declares membership in a category nobody declared.
    UndeclaredCategory(String),
    /// A tool's cross listing names a group that has no index entry.
    UndeclaredIndexGroup(String),
}

/// The views of a string list.
pub open spec fn strs(v: Seq<String>) -> Seq<Seq<char>> {
    Seq::new(v.len(), |i: int| v[i]@)
}

pub open spec fn has_str(v: Seq<String>, x: Seq<char>) -> bool {
    exists|i: int| 0 <= i < v.len() && v[i]@ == x
}

pub open spec fn unique_strs(s: Seq<Seq<char>>) -> bool {
    forall|i: int, j: int| 0 <= i < j < s.len() ==> s[i] != s[j]
}

pub open spec fn opt_str_view(o: Option<String>) -> Seq<char> {
    match o {
        Some(s) => s@,
        None => Seq::empty(),
    }
}

pub open spec fn opt_strs(o: Option<Vec<String>>) -> Seq<String> {
    match o {
        Some(v) => v@,
        None => Seq::empty(),
    }
}

/// A tool as the catalog stores it: its own icon switch, or the group's.
pub open spec fn merged_tool(t: Tool, group_no_icon: Option<bool>) -> Tool {
    Tool { no_icon: if t.no_icon is Some { t.no_icon } else { group_no_icon }, ..t }
}

pub open spec fn group_tools(g: ToolGroup) -> Seq<Tool> {
    Seq::new(g.list@.len(), |i: int| merged_tool(g.list@[i], g.no_icon))
}

/// Every tool of every group, in declaration order, icon switch merged.
pub open spec fn all_tools(groups: Seq<ToolGroup>) -> Seq<Tool>
    decreases groups.len(),
{
    if groups.len() == 0 {
        Seq::empty()
    } else {
        all_tools(groups.drop_last()) + group_tools(groups.last())
    }
}

pub open spec fn tool_names(ts: Seq<Tool>) -> Seq<Seq<char>> {
    Seq::new(ts.len(), |i: int| ts[i].name@)
}

/// The composite search key of one tool: its title, then its keywords.
pub open spec fn search_key(t: Tool) -> Seq<char> {
    t.title@ + opt_str_view(t.keywords)
}

pub open spec fn search_keys(ts: Seq<Tool>) -> Seq<Seq<char>> {
    Seq::new(ts.len(), |i: int| search_key(ts[i]))
}

/// A group of one unnamed tool stands alone: it takes that tool's name and
/// title and is exempt from group headings.
pub open spec fn group_is_single(g: ToolGroup) -> bool {
    g.list@.len() == 1 && g.name is None
}

pub open spec fn group_has_name(g: ToolGroup) -> bool {
    g.name is Some || group_is_single(g)
}

pub open spec fn group_name_of(g: ToolGroup) -> Seq<char> {
    match g.name {
        Some(n) => n@,
        None => g.list@[0].name@,
    }
}

pub open spec fn group_has_title(g: ToolGroup) -> bool {
    g.title is Some || group_is_single(g)
}

pub open spec fn group_title_of(g: ToolGroup) -> Seq<char> {
    match g.title {
        Some(t) => t@,
        None => g.list@[0].title@,
    }
}

/// The sentinel name that keeps a group out of the visible index.
pub open spec fn group_indexed(g: ToolGroup) -> bool {
    !(g.name is Some && g.name->0@ == "non-index"@)
}

pub open spec fn indexed_groups(groups: Seq<ToolGroup>) -> Seq<ToolGroup>
    decreases groups.len(),
{
    if groups.len() == 0 {
        Seq::empty()
    } else {
        indexed_groups(groups.drop_last()) + if group_indexed(groups.last()) {
            seq![groups.last()]
        } else {
            Seq::empty()
        }
    }
}

pub open spec fn index_names(groups: Seq<ToolGroup>) -> Seq<Seq<char>> {
    Seq::new(indexed_groups(groups).len(), |i: int| group_name_of(indexed_groups(groups)[i]))
}

/// A group that both has a name and carries a cross notice.
pub open spec fn is_cross_group(g: ToolGroup) -> bool {
    g.name is Some && g.cross_notice is Some
}

pub open spec fn cross_groups(groups: Seq<ToolGroup>) -> Seq<ToolGroup>
    decreases groups.len(),
{
    if groups.len() == 0 {
        Seq::empty()
    } else {
        cross_groups(groups.drop_last()) + if is_cross_group(groups.last()) {
            seq![groups.last()]
        } else {
            Seq::empty()
        }
    }
}

pub open spec fn cross_group_names(groups: Seq<ToolGroup>) -> Seq<Seq<char>> {
    Seq::new(cross_groups(groups).len(), |i: int| cross_groups(groups)[i].name->0@)
}

/// The `category`-action tiles of a tile list, in order.
pub open spec fn decls_of_tiles(tiles: Seq<Tile>) -> Seq<Tile>
    decreases tiles.len(),
{
    if tiles.len() == 0 {
        Seq::empty()
    } else {
        decls_of_tiles(tiles.drop_last()) + if tiles.last().action == TileAction::Category {
            seq![tiles.last()]
        } else {
            Seq::empty()
        }
    }
}

pub open spec fn decls_of_groups(gs: Seq<CategoryGroup>) -> Seq<Tile>
    decreases gs.len(),
{
    if gs.len() == 0 {
        Seq::empty()
    } else {
        decls_of_groups(gs.drop_last()) + decls_of_tiles(gs.last().content@)
    }
}

/// Every category declaration of both tabs, in walk order.
pub open spec fn category_decls(c: Category) -> Seq<Tile> {
    decls_of_groups(c.tool.content@) + decls_of_groups(c.link.content@)
}

pub open spec fn decl_names(c: Category) -> Seq<Seq<char>> {
    Seq::new(category_decls(c).len(), |i: int| category_decls(c)[i].name@)
}

/// One name per occurrence of `x` in `list`.
pub open spec fn hits(name: Seq<char>, list: Seq<String>, x: Seq<char>) -> Seq<Seq<char>>
    decreases list.len(),
{
    if list.len() == 0 {
        Seq::empty()
    } else {
        hits(name, list.drop_last(), x) + if list.last()@ == x {
            seq![name]
        } else {
            Seq::empty()
        }
    }
}

/// The names of the tools that declare membership in category `x`, in order,
/// once per declaration.
pub open spec fn category_members(ts: Seq<Tool>, x: Seq<char>) -> Seq<Seq<char>>
    decreases ts.len(),
{
    if ts.len() == 0 {
        Seq::empty()
    } else {
        category_members(ts.drop_last(), x) + hits(
            ts.last().name@,
            opt_strs(ts.last().category),
            x,
        )
    }
}

/// The names of the tools cross-listed under group `g`, in order.
pub open spec fn cross_members(ts: Seq<Tool>, g: Seq<char>) -> Seq<Seq<char>>
    decreases ts.len(),
{
    if ts.len() == 0 {
        Seq::empty()
    } else {
        cross_members(ts.drop_last(), g) + hits(ts.last().name@, opt_strs(ts.last().cross), g)
    }
}

/// The names of the tools cross-listed at the top under group `g`, in order.
pub open spec fn cross_top_members(ts: Seq<Tool>, g: Seq<char>) -> Seq<Seq<char>>
    decreases ts.len(),
{
    if ts.len() == 0 {
        Seq::empty()
    } else {
        cross_top_members(ts.drop_last(), g) + hits(
            ts.last().name@,
            opt_strs(ts.last().cross_top),
            g,
        )
    }
}

pub open spec fn notice_pairs(t: Tool) -> Seq<(String, String)> {
    match t.cross_notice {
        Some(v) => v@,
        None => Seq::empty(),
    }
}

pub open spec fn notice_contrib(name: Seq<char>, pairs: Seq<(String, String)>, g: Seq<char>) -> Seq<
    (Seq<char>, Seq<char>),
>
    decreases pairs.len(),
{
    if pairs.len() == 0 {
        Seq::empty()
    } else {
        notice_contrib(name, pairs.drop_last(), g) + if pairs.last().0@ == g {
            seq![(name, pairs.last().1@)]
        } else {
            Seq::empty()
        }
    }
}

/// The (tool name, notice text) pairs filed under cross group `g`, in order.
pub open spec fn cross_notice_entries(ts: Seq<Tool>, g: Seq<char>) -> Seq<(Seq<char>, Seq<char>)>
    decreases ts.len(),
{
    if ts.len() == 0 {
        Seq::empty()
    } else {
        cross_notice_entries(ts.drop_last(), g) + notice_contrib(
            ts.last().name@,
            notice_pairs(ts.last()),
            g,
        )
    }
}

/// The rendered cross notice: the group's notice title in bold, a break, then
/// the tool's own notice text.
pub open spec fn notice_text(group_title: Seq<char>, notice: Seq<char>) -> Seq<char> {
    "<b>"@ + group_title + "</b><br>"@ + notice
}

/// The group names one tool files cross notices under, in order.
pub open spec fn notice_keys(t: Tool) -> Seq<Seq<char>> {
    Seq::new(notice_pairs(t).len(), |j: int| notice_pairs(t)[j].0@)
}

/// `n` occurs at two positions of `s`.
pub open spec fn dup_at(s: Seq<Seq<char>>, n: Seq<char>) -> bool {
    exists|i: int, j: int| 0 <= i < j < s.len() && #[trigger] s[i] == n && #[trigger] s[j] == n
}

pub open spec fn tile_names(ts: Seq<Tile>) -> Seq<Seq<char>> {
    Seq::new(ts.len(), |i: int| ts[i].name@)
}

/// No configuration error anywhere: every declaration well-formed and unique,
/// every reference declared. Exactly these inputs resolve.
pub open spec fn resolvable(groups: Seq<ToolGroup>, c: Category) -> bool {
    let decls = category_decls(c);
    let ts = all_tools(groups);
    &&& forall|i: int| 0 <= i < decls.len() ==> (#[trigger] decls[i]).title is Some
    &&& unique_strs(decl_names(c))
    &&& unique_strs(cross_group_names(groups))
    &&& forall|i: int| 0 <= i < groups.len() ==> group_has_name(#[trigger] groups[i])
    &&& forall|i: int|
        0 <= i < groups.len() && group_indexed(#[trigger] groups[i]) ==> group_has_title(groups[i])
    &&& unique_strs(tool_names(ts))
    &&& unique_strs(search_keys(ts))
    &&& unique_strs(index_names(groups))
    &&& forall|i: int, j: int|
        0 <= i < ts.len() && 0 <= j < notice_pairs(#[trigger] ts[i]).len()
            ==> cross_group_names(groups).contains((#[trigger] notice_pairs(ts[i])[j]).0@)
    &&& forall|i: int| 0 <= i < ts.len() ==> unique_strs(notice_keys(#[trigger] ts[i]))
    &&& forall|i: int, j: int|
        0 <= i < ts.len() && 0 <= j < opt_strs((#[trigger] ts[i]).category).len() ==> decl_names(
            c,
        ).contains((#[trigger] opt_strs(ts[i].category)[j])@)
    &&& forall|i: int, j: int|
        0 <= i < ts.len() && 0 <= j < opt_strs((#[trigger] ts[i]).cross).len() ==> index_names(
            groups,
        ).contains((#[trigger] opt_strs(ts[i].cross)[j])@)
    &&& forall|i: int, j: int|
        0 <= i < ts.len() && 0 <= j < opt_strs((#[trigger] ts[i]).cross_top).len() ==> index_names(
            groups,
        ).contains((#[trigger] opt_strs(ts[i].cross_top)[j])@)
}

/// What each error value reports about the input.
pub open spec fn violation(e: ResolveError, groups: Seq<ToolGroup>, c: Category) -> bool {
    let decls = category_decls(c);
    let ts = all_tools(groups);
    match e {
        ResolveError::DuplicateCategory(n) => dup_at(decl_names(c), n@),
        ResolveError::MissingTileTitle(n) => exists|i: int|
            0 <= i < decls.len() && (#[trigger] decls[i]).title is None && decls[i].name@ == n@,
        ResolveError::DuplicateCrossGroup(n) => dup_at(cross_group_names(groups), n@),
        ResolveError::MissingGroupName(gi) => 0 <= gi < groups.len() && !group_has_name(
            groups[gi as int],
        ),
        ResolveError::MissingGroupTitle(gi) => 0 <= gi < groups.len() && group_indexed(
            groups[gi as int],
        ) && !group_has_title(groups[gi as int]),
        ResolveError::DuplicateSearchKey(n) => dup_at(search_keys(ts), n@),
        ResolveError::DuplicateTool(n) => dup_at(tool_names(ts), n@),
        ResolveError::DuplicateCrossNotice(n) => exists|i: int|
            0 <= i < ts.len() && #[trigger] ts[i].name@ == n@ && !unique_strs(notice_keys(ts[i])),
        ResolveError::DuplicateGroup(n) => dup_at(index_names(groups), n@),
        ResolveError::UndeclaredCrossGroup(n) => (exists|i: int, j: int|
            0 <= i < ts.len() && 0 <= j < notice_pairs(#[trigger] ts[i]).len() && (
            #[trigger] notice_pairs(ts[i])[j]).0@ == n@) && !cross_group_names(groups).contains(n@),
        ResolveError::UndeclaredCategory(n) => (exists|i: int, j: int|
            0 <= i < ts.len() && 0 <= j < opt_strs((#[trigger] ts[i]).category).len() && (
            #[trigger] opt_strs(ts[i].category)[j])@ == n@) && !decl_names(c).contains(n@),
        ResolveError::UndeclaredIndexGroup(n) => (exists|i: int|
            0 <= i < ts.len() && (has_str(opt_strs((#[trigger] ts[i]).cross), n@) || has_str(
                opt_strs(ts[i].cross_top),
                n@,
            ))) && !index_names(groups).contains(n@),
    }
}

pub proof fn lemma_decls_tiles_concat(a: Seq<Tile>, b: Seq<Tile>)
    ensures
        decls_of_tiles(a + b) == decls_of_tiles(a) + decls_of_tiles(b),
    decreases b.len(),
{
    if b.len() == 0 {
        assert(a + b =~= a);
        assert(decls_of_tiles(a) + decls_of_tiles(b) =~= decls_of_tiles(a));
    } else {
        assert((a + b).drop_last() =~= a + b.drop_last());
        assert((a + b).last() == b.last());
        lemma_decls_tiles_concat(a, b.drop_last());
        assert(decls_of_tiles(a + b) =~= decls_of_tiles(a) + decls_of_tiles(b));
    }
}

pub proof fn lemma_decls_groups_concat(a: Seq<CategoryGroup>, b: Seq<CategoryGroup>)
    ensures
        decls_of_groups(a + b) == decls_of_groups(a) + decls_of_groups(b),
    decreases b.len(),
{
    if b.len() == 0 {
        assert(a + b =~= a);
        assert(decls_of_groups(a) + decls_of_groups(b) =~= decls_of_groups(a));
    } else {
        assert((a + b).drop_last() =~= a + b.drop_last());
        assert((a + b).last() == b.last());
        lemma_decls_groups_concat(a, b.drop_last());
        assert(decls_of_groups(a + b) =~= decls_of_groups(a) + decls_of_groups(b));
    }
}

pub proof fn lemma_all_tools_concat(a: Seq<ToolGroup>, b: Seq<ToolGroup>)
    ensures
        all_tools(a + b) == all_tools(a) + all_tools(b),
    decreases b.len(),
{
    if b.len() == 0 {
        assert(a + b =~= a);
        assert(all_tools(a) + all_tools(b) =~= all_tools(a));
    } else {
        assert((a + b).drop_last() =~= a + b.drop_last());
        assert((a + b).last() == b.last());
        lemma_all_tools_concat(a, b.drop_last());
        assert(all_tools(a + b) =~= all_tools(a) + all_tools(b));
    }
}

/// Walks one tab's groups and registers every `category`-action tile as a
/// fresh category with an empty membership list.
fn register_tab(cat: &mut StrMap<ToolCategoryItem>, tab: &CategoryTab) -> (r: Result<
    (),
    ResolveError,
>)
    requires
        unique_keys(old(cat)@),
    ensures
        unique_keys(final(cat)@),
        match r {
            Ok(()) => {
                let decls = decls_of_groups(tab.content@);
                &&& final(cat)@.len() == old(cat)@.len() + decls.len()
                &&& forall|i: int| 0 <= i < old(cat)@.len() ==> final(cat)@[i] == old(cat)@[i]
                &&& forall|i: int|
                    0 <= i < decls.len() ==> {
                        &&& (#[trigger] decls[i]).title is Some
                        &&& final(cat)@[old(cat)@.len() + i].0 == decls[i].name@
                        &&& final(cat)@[old(cat)@.len() + i].1.title@ == decls[i].title->0@
                        &&& final(cat)@[old(cat)@.len() + i].1.list@.len() == 0
                    }
            },
            Err(e) => match e {
                ResolveError::DuplicateCategory(n) => dup_at(
                    map_keys(old(cat)@) + tile_names(decls_of_groups(tab.content@)),
                    n@,
                ),
                ResolveError::MissingTileTitle(n) => exists|i: int|
                    0 <= i < decls_of_groups(tab.content@).len() && (#[trigger] decls_of_groups(
                        tab.content@,
                    )[i]).title is None && decls_of_groups(tab.content@)[i].name@ == n@,
                _ => false,
            },
        },
{
    let ghost old_cat = old(cat)@;
    let ghost full = decls_of_groups(tab.content@);
    let mut gi: usize = 0;
    while gi < tab.content.len()
        invariant
            unique_keys(old_cat) ==> unique_keys(cat@),
            unique_keys(old_cat),
            old_cat == old(cat)@,
            full == decls_of_groups(tab.content@),
            gi <= tab.content@.len(),
            ({
                let p = decls_of_groups(tab.content@.take(gi as int));
                &&& cat@.len() == old_cat.len() + p.len()
                &&& (forall|i: int| 0 <= i < old_cat.len() ==> cat@[i] == old_cat[i])
                &&& (forall|i: int|
                    0 <= i < p.len() ==> {
                        &&& (#[trigger] p[i]).title is Some
                        &&& cat@[old_cat.len() + i].0 == p[i].name@
                        &&& cat@[old_cat.len() + i].1.title@ == p[i].title->0@
                        &&& cat@[old_cat.len() + i].1.list@.len() == 0
                    })
                &&& p.is_prefix_of(full)
            }),
        decreases tab.content@.len() - gi,
    {
        let group = &tab.content[gi];
        let ghost p0 = decls_of_groups(tab.content@.take(gi as int));
        let mut ti: usize = 0;
        while ti < group.content.len()
            invariant
                unique_keys(old_cat) ==> unique_keys(cat@),
                unique_keys(old_cat),
                old_cat == old(cat)@,
                full == decls_of_groups(tab.content@),
                gi < tab.content@.len(),
                *group == tab.content@[gi as int],
                p0 == decls_of_groups(tab.content@.take(gi as int)),
                p0.is_prefix_of(full),
                ti <= group.content@.len(),
                ({
                    let p = p0 + decls_of_tiles(group.content@.take(ti as int));
                    &&& cat@.len() == old_cat.len() + p.len()
                    &&& (forall|i: int| 0 <= i < old_cat.len() ==> cat@[i] == old_cat[i])
                    &&& (forall|i: int|
                        0 <= i < p.len() ==> {
                            &&& (#[trigger] p[i]).title is Some
                            &&& cat@[old_cat.len() + i].0 == p[i].name@
                            &&& cat@[old_cat.len() + i].1.title@ == p[i].title->0@
                            &&& cat@[old_cat.len() + i].1.list@.len() == 0
                        })
                    &&& p.is_prefix_of(full)
                }),
            decreases group.content@.len() - ti,
        {
            let tile = &group.content[ti];
            let ghost p = p0 + decls_of_tiles(group.content@.take(ti as int));
            proof {
                assert(group.content@.take(ti + 1 as int).drop_last() =~= group.content@.take(
                    ti as int,
                ));
                assert(group.content@.take(ti + 1 as int).last() == group.content@[ti as int]);
            }
            if tile_is_category(tile) {
                // This tile is the next declaration: it stands right after `p` in `full`.
                proof {
                    assert(decls_of_tiles(group.content@.take(ti + 1 as int)) =~= decls_of_tiles(
                        group.content@.take(ti as int),
                    ) + seq![*tile]);
                    lemma_decl_position(tab.content@, gi as int, ti as int);
                    let pnext = p0 + decls_of_tiles(group.content@.take(ti + 1 as int));
                    assert(pnext =~= p.push(*tile));
                    assert(pnext.is_prefix_of(full));
                    assert(pnext =~= full.subrange(0, pnext.len() as int));
                    assert(full[p.len() as int] == pnext[p.len() as int]);
                    assert(p.push(*tile).is_prefix_of(full));
                    assert(full[p.len() as int] == *tile);
                }
                let title = match &tile.title {
                    Some(t) => t.clone(),
                    None => {
                        proof {
                            assert(full[p.len() as int].title is None);
                        }
                        return Err(ResolveError::MissingTileTitle(tile.name.clone()));
                    },
                };
                let item = ToolCategoryItem { title, list: Vec::new() };
                let ok = cat.first_insert(tile.name.clone(), item);
                if !ok {
                    proof {
                        let whole = map_keys(old_cat) + tile_names(full);
                        assert(map_contains_key(cat@, tile.name@));
                        let h = choose|h: int| 0 <= h < cat@.len() && cat@[h].0 == tile.name@;
                        let jj = old_cat.len() + p.len() as int;
                        assert(tile_names(full)[p.len() as int] == full[p.len() as int].name@);
                        assert(whole[jj] == tile.name@);
                        if h < old_cat.len() {
                            assert(cat@[h] == old_cat[h]);
                            assert(whole[h] == tile.name@);
                        } else {
                            let k = h - old_cat.len();
                            assert(cat@[h].0 == p[k].name@);
                            assert(p =~= full.subrange(0, p.len() as int));
                            assert(tile_names(full)[k] == full[k].name@);
                            assert(whole[h] == tile.name@);
                        }
                        assert(dup_at(whole, tile.name@));
                    }
                    return Err(ResolveError::DuplicateCategory(tile.name.clone()));
                }
                proof {
                    let pnew = p0 + decls_of_tiles(group.content@.take(ti + 1 as int));
                    assert(pnew =~= p.push(*tile));
                }
            } else {
                proof {
                    assert(decls_of_tiles(group.content@.take(ti + 1 as int)) =~= decls_of_tiles(
                        group.content@.take(ti as int),
                    ));
                    assert(p0 + decls_of_tiles(group.content@.take(ti + 1 as int)) =~= p);
                }
            }
            ti += 1;
        }
        proof {
            assert(group.content@.take(group.content@.len() as int) =~= group.content@);
            assert(tab.content@.take(gi + 1 as int).drop_last() =~= tab.content@.take(gi as int));
            assert(tab.content@.take(gi + 1 as int).last() == tab.content@[gi as int]);
            assert(decls_of_groups(tab.content@.take(gi + 1 as int)) =~= p0 + decls_of_tiles(
                group.content@,
            ));
        }
        gi += 1;
    }
    proof {
        assert(tab.content@.take(tab.content@.len() as int) =~= tab.content@);
    }
    Ok(())
}

/// The declarations seen up to tile `ti` of group `gi` form a prefix of the
/// tab's declarations, and a `category` tile at that spot is the next one.
proof fn lemma_decl_position(gs: Seq<CategoryGroup>, gi: int, ti: int)
    requires
        0 <= gi < gs.len(),
        0 <= ti < gs[gi].content@.len(),
    ensures
        (decls_of_groups(gs.take(gi)) + decls_of_tiles(gs[gi].content@.take(ti + 1))).is_prefix_of(
            decls_of_groups(gs),
        ),
{
    let tiles = gs[gi].content@;
    assert(tiles =~= tiles.take(ti + 1) + tiles.skip(ti + 1));
    lemma_decls_tiles_concat(tiles.take(ti + 1), tiles.skip(ti + 1));
    assert(gs.take(gi + 1).drop_last() =~= gs.take(gi));
    assert(gs.take(gi + 1).last() == gs[gi]);
    assert(decls_of_groups(gs.take(gi + 1)) == decls_of_groups(gs.take(gi)) + decls_of_tiles(
        tiles,
    ));
    assert(gs =~= gs.take(gi + 1) + gs.skip(gi + 1));
    lemma_decls_groups_concat(gs.take(gi + 1), gs.skip(gi + 1));
    assert(decls_of_groups(gs) =~= decls_of_groups(gs.take(gi)) + decls_of_tiles(tiles.take(ti + 1))
        + decls_of_tiles(tiles.skip(ti + 1)) + decls_of_groups(gs.skip(gi + 1)));
    assert((decls_of_groups(gs.take(gi)) + decls_of_tiles(tiles.take(ti + 1))).is_prefix_of(
        decls_of_groups(gs),
    ));
}

pub proof fn lemma_cross_groups_concat(a: Seq<ToolGroup>, b: Seq<ToolGroup>)
    ensures
        cross_groups(a + b) == cross_groups(a) + cross_groups(b),
    decreases b.len(),
{
    if b.len() == 0 {
        assert(a + b =~= a);
        assert(cross_groups(a) + cross_groups(b) =~= cross_groups(a));
    } else {
        assert((a + b).drop_last() =~= a + b.drop_last());
        assert((a + b).last() == b.last());
        lemma_cross_groups_concat(a, b.drop_last());
        assert(cross_groups(a + b) =~= cross_groups(a) + cross_groups(b));
    }
}

/// Registers every cross-notice-bearing group: its notice title, and an empty
/// per-tool notice map.
fn register_cross_groups(
    cross: &mut StrMap<StrMap<String>>,
    titles: &mut StrMap<String>,
    groups: &Vec<ToolGroup>,
) -> (r: Result<(), ResolveError>)
    requires
        old(cross)@.len() == 0,
        old(titles)@.len() == 0,
    ensures
        unique_keys(final(cross)@),
        unique_keys(final(titles)@),
        match r {
            Ok(()) => {
                let cg = cross_groups(groups@);
                &&& final(cross)@.len() == cg.len()
                &&& final(titles)@.len() == cg.len()
                &&& (forall|i: int|
                    0 <= i < cg.len() ==> {
                        &&& final(cross)@[i].0 == (#[trigger] cg[i]).name->0@
                        &&& final(cross)@[i].1@.len() == 0
                        &&& final(titles)@[i].0 == cg[i].name->0@
                        &&& final(titles)@[i].1@ == cg[i].cross_notice->0@
                    })
            },
            Err(e) => match e {
                ResolveError::DuplicateCrossGroup(n) => dup_at(cross_group_names(groups@), n@),
                _ => false,
            },
        },
{
    let mut gi: usize = 0;
    while gi < groups.len()
        invariant
            old(cross)@.len() == 0,
            old(titles)@.len() == 0,
            gi <= groups@.len(),
            unique_keys(cross@),
            unique_keys(titles@),
            ({
                let cg = cross_groups(groups@.take(gi as int));
                &&& cross@.len() == cg.len()
                &&& titles@.len() == cg.len()
                &&& (forall|i: int|
                    0 <= i < cg.len() ==> {
                        &&& cross@[i].0 == (#[trigger] cg[i]).name->0@
                        &&& cross@[i].1@.len() == 0
                        &&& titles@[i].0 == cg[i].name->0@
                        &&& titles@[i].1@ == cg[i].cross_notice->0@
                    })
            }),
        decreases groups@.len() - gi,
    {
        let group = &groups[gi];
        proof {
            assert(groups@.take(gi + 1 as int).drop_last() =~= groups@.take(gi as int));
            assert(groups@.take(gi + 1 as int).last() == groups@[gi as int]);
        }
        if let (Some(name), Some(notice)) = (&group.name, &group.cross_notice) {
            proof {
                let cgp = cross_groups(groups@.take(gi as int));
                assert(is_cross_group(groups@[gi as int]));
                assert(cross_groups(groups@.take(gi + 1 as int)) =~= cgp.push(groups@[gi as int]));
                assert(groups@ =~= groups@.take(gi + 1 as int) + groups@.skip(gi + 1 as int));
                lemma_cross_groups_concat(groups@.take(gi + 1 as int), groups@.skip(gi + 1 as int));
                assert(cgp.push(groups@[gi as int]).is_prefix_of(cross_groups(groups@)));
            }
            if titles.contains_key(name.as_str()) {
                proof {
                    let cg = cross_groups(groups@);
                    let cgp = cross_groups(groups@.take(gi as int));
                    let names = cross_group_names(groups@);
                    assert(cgp =~= cg.subrange(0, cgp.len() as int));
                    let jj = cgp.len() as int;
                    assert(cg[jj] == groups@[gi as int]);
                    assert(names[jj] == name@);
                    let h = choose|h: int| 0 <= h < titles@.len() && titles@[h].0 == name@;
                    assert(names[h] == name@);
                    assert(dup_at(names, name@));
                }
                return Err(ResolveError::DuplicateCrossGroup(name.clone()));
            }
            let ghost t0 = titles@;
            let ok = titles.first_insert(name.clone(), notice.clone());
            let ok2 = cross.first_insert(name.clone(), StrMap::new());
            proof {
                assert(ok);
                if !ok2 {
                    let h = choose|h: int| 0 <= h < cross@.len() && cross@[h].0 == name@;
                    let cgp = cross_groups(groups@.take(gi as int));
                    assert(cross@[h].0 == cgp[h].name->0@);
                    assert(t0[h].0 == cgp[h].name->0@);
                    assert(false);
                }
            }
        } else {
            proof {
                assert(!is_cross_group(groups@[gi as int]));
                assert(cross_groups(groups@.take(gi + 1 as int)) =~= cross_groups(
                    groups@.take(gi as int),
                ));
            }
        }
        gi += 1;
    }
    proof {
        assert(groups@.take(groups@.len() as int) =~= groups@);
    }
    Ok(())
}

/// Registers one tool: its name in the group's list, its search key, the tool
/// itself, its cross notices, and its category memberships.
#[verifier::loop_isolation(false)]
#[verifier::rlimit(100)]
fn register_tool(
    mt: &Tool,
    list: &mut Vec<String>,
    all: &mut StrMap<String>,
    tools: &mut StrMap<Tool>,
    cross: &mut StrMap<StrMap<String>>,
    titles: &StrMap<String>,
    cat: &mut StrMap<ToolCategoryItem>,
) -> (r: Result<(), ResolveError>)
    requires
        unique_keys(old(all)@),
        unique_keys(old(tools)@),
        unique_keys(old(cat)@),
        unique_keys(old(cross)@),
        titles@.len() == old(cross)@.len(),
        forall|i: int| 0 <= i < old(cross)@.len() ==> (#[trigger] old(cross)@[i]).0 == titles@[i].0,
        forall|i: int| 0 <= i < old(cross)@.len() ==> unique_keys((#[trigger] old(cross)@[i]).1@),
    ensures
        match r {
            Ok(()) => {
                &&& final(list)@ == old(list)@.push(mt.name)
                &&& final(all)@.len() == old(all)@.len() + 1
                &&& (forall|i: int| 0 <= i < old(all)@.len() ==> final(all)@[i] == old(all)@[i])
                &&& final(all)@.last().0 == search_key(*mt)
                &&& final(all)@.last().1 == mt.name
                &&& unique_keys(final(all)@)
                &&& final(tools)@.len() == old(tools)@.len() + 1
                &&& (forall|i: int| 0 <= i < old(tools)@.len() ==> final(tools)@[i] == old(tools)@[i])
                &&& final(tools)@.last().0 == mt.name@
                &&& tool_eq(final(tools)@.last().1, *mt)
                &&& unique_keys(final(tools)@)
                &&& final(cat)@.len() == old(cat)@.len()
                &&& (forall|i: int|
                    0 <= i < old(cat)@.len() ==> {
                        &&& (#[trigger] final(cat)@[i]).0 == old(cat)@[i].0
                        &&& final(cat)@[i].1.title == old(cat)@[i].1.title
                        &&& strs(final(cat)@[i].1.list@) == strs(old(cat)@[i].1.list@) + hits(
                            mt.name@,
                            opt_strs(mt.category),
                            old(cat)@[i].0,
                        )
                    })
                &&& unique_keys(final(cat)@)
                &&& final(cross)@.len() == old(cross)@.len()
                &&& (forall|i: int|
                    0 <= i < old(cross)@.len() ==> {
                        let inner0 = old(cross)@[i].1@;
                        let inner1 = final(cross)@[i].1@;
                        let nc = notice_contrib(mt.name@, notice_pairs(*mt), old(cross)@[i].0);
                        &&& (#[trigger] final(cross)@[i]).0 == old(cross)@[i].0
                        &&& inner1.len() == inner0.len() + nc.len()
                        &&& (forall|j: int| 0 <= j < inner0.len() ==> inner1[j] == inner0[j])
                        &&& (forall|j: int|
                            0 <= j < nc.len() ==> (#[trigger] inner1[inner0.len() + j]).0 == nc[j].0
                                && inner1[inner0.len() + j].1@ == notice_text(
                                titles@[i].1@,
                                nc[j].1,
                            ))
                        &&& unique_keys(inner1)
                    })
                &&& unique_keys(final(cross)@)
            },
            Err(e) => match e {
                ResolveError::DuplicateSearchKey(n) => n@ == search_key(*mt) && map_contains_key(
                    old(all)@,
                    search_key(*mt),
                ),
                ResolveError::DuplicateTool(n) => n@ == mt.name@ && map_contains_key(
                    old(tools)@,
                    mt.name@,
                ),
                ResolveError::UndeclaredCrossGroup(n) => notice_keys(*mt).contains(n@)
                    && !map_contains_key(old(cross)@, n@),
                ResolveError::DuplicateCrossNotice(n) => n@ == mt.name@ && !map_contains_key(
                    old(tools)@,
                    mt.name@,
                ) && exists|g: Seq<char>|
                    #[trigger] notice_keys(*mt).contains(g) && (dup_at(notice_keys(*mt), g) || (
                    map_contains_key(old(cross)@, g) && map_contains_key(
                        map_value_of(old(cross)@, g)@,
                        mt.name@,
                    ))),
                ResolveError::UndeclaredCategory(n) => has_str(opt_strs(mt.category), n@)
                    && !map_contains_key(old(cat)@, n@),
                _ => false,
            },
        },
{
    list.push(mt.name.clone());
    let skey = {
        let mut s = mt.title.clone();
        match &mt.keywords {
            Some(k) => s.append(k.as_str()),
            None => (),
        }
        s
    };
    proof {
        assert(skey@ == search_key(*mt));
    }
    let ok = all.first_insert(skey, mt.name.clone());
    if !ok {
        let n = {
            let mut s = mt.title.clone();
            match &mt.keywords {
                Some(k) => s.append(k.as_str()),
                None => (),
            }
            s
        };
        return Err(ResolveError::DuplicateSearchKey(n));
    }
    let ok = tools.first_insert(mt.name.clone(), mt.clone());
    if !ok {
        return Err(ResolveError::DuplicateTool(mt.name.clone()));
    }
    if let Some(pairs) = &mt.cross_notice {
        let ghost pv = pairs@;
        let mut j: usize = 0;
        while j < pairs.len()
            invariant
                j <= pv.len(),
                cross@.len() == old(cross)@.len(),
                forall|i: int|
                    0 <= i < old(cross)@.len() ==> {
                        let inner0 = old(cross)@[i].1@;
                        let inner1 = cross@[i].1@;
                        let nc = notice_contrib(mt.name@, pv.take(j as int), old(cross)@[i].0);
                        &&& (#[trigger] cross@[i]).0 == old(cross)@[i].0
                        &&& inner1.len() == inner0.len() + nc.len()
                        &&& (forall|jj: int| 0 <= jj < inner0.len() ==> inner1[jj] == inner0[jj])
                        &&& (forall|jj: int|
                            0 <= jj < nc.len() ==> (#[trigger] inner1[inner0.len() + jj]).0
                                == nc[jj].0 && inner1[inner0.len() + jj].1@ == notice_text(
                                titles@[i].1@,
                                nc[jj].1,
                            ))
                        &&& unique_keys(inner1)
                    },
                unique_keys(cross@),
            decreases pv.len() - j,
        {
            let g = &pairs[j].0;
            let notice = &pairs[j].1;
            proof {
                assert(pv.take(j + 1 as int).drop_last() =~= pv.take(j as int));
                assert(pv.take(j + 1 as int).last() == pv[j as int]);
            }
            let idx = match cross.index_of(g.as_str()) {
                Some(i) => i,
                None => {
                    proof {
                        assert(notice_keys(*mt)[j as int] == g@);
                        assert(notice_keys(*mt).contains(g@));
                        assert forall|h: int| 0 <= h < old(cross)@.len() implies (
                        #[trigger] old(cross)@[h]).0 != g@ by {
                            assert(cross@[h].0 == old(cross)@[h].0);
                        }
                        assert(!map_contains_key(old(cross)@, g@));
                    }
                    return Err(ResolveError::UndeclaredCrossGroup(g.clone()));
                },
            };
            let text = {
                let mut s = String::new();
                s.append("<b>");
                s.append(titles.value_at(idx).as_str());
                s.append("</b><br>");
                s.append(notice.as_str());
                s
            };
            let ghost prev = cross@;
            let ghost inner0 = old(cross)@[idx as int].1@;
            let ghost nc_old = notice_contrib(mt.name@, pv.take(j as int), old(cross)@[idx as int].0);
            let (k, mut inner) = cross.remove_at(idx);
            let ghost inner_before = inner@;
            let ok = inner.first_insert(mt.name.clone(), text);
            if !ok {
                proof {
                    assert(map_contains_key(inner_before, mt.name@));
                    let h = choose|h: int|
                        0 <= h < inner_before.len() && inner_before[h].0 == mt.name@;
                    let g_ = prev[idx as int].0;
                    assert(g_ == g@);
                    assert(notice_keys(*mt)[j as int] == g@);
                    assert(notice_keys(*mt).contains(g@));
                    if h < inner0.len() {
                        assert(inner_before[h] == inner0[h]);
                        assert(map_contains_key(inner0, mt.name@));
                        lemma_unique_key_at(old(cross)@, idx as int);
                        assert(map_value_of(old(cross)@, g@) == old(cross)@[idx as int].1);
                    } else {
                        assert(nc_old.len() > 0);
                        lemma_notice_contrib_nonempty(mt.name@, pv.take(j as int), g@);
                        let h2 = choose|h2: int|
                            0 <= h2 < pv.take(j as int).len() && pv.take(j as int)[h2].0@ == g@;
                        assert(notice_keys(*mt)[h2] == g@);
                        assert(dup_at(notice_keys(*mt), g@));
                    }
                }
                return Err(ResolveError::DuplicateCrossNotice(mt.name.clone()));
            }
            cross.insert_at(idx, k, inner);
            proof {
                assert(cross@ =~= prev.update(idx as int, (prev[idx as int].0, inner)));
                assert(inner@ =~= inner_before.push((mt.name@, text)));
                assert(text@ == notice_text(titles@[idx as int].1@, pv[j as int].1@));
                assert forall|i: int| 0 <= i < old(cross)@.len() implies {
                    let in0 = old(cross)@[i].1@;
                    let in1 = cross@[i].1@;
                    let nc = notice_contrib(mt.name@, pv.take(j + 1 as int), old(cross)@[i].0);
                    &&& (#[trigger] cross@[i]).0 == old(cross)@[i].0
                    &&& in1.len() == in0.len() + nc.len()
                    &&& (forall|jj: int| 0 <= jj < in0.len() ==> in1[jj] == in0[jj])
                    &&& (forall|jj: int|
                        0 <= jj < nc.len() ==> (#[trigger] in1[in0.len() + jj]).0 == nc[jj].0 && in1[
                            in0.len() + jj
                        ].1@ == notice_text(titles@[i].1@, nc[jj].1))
                    &&& unique_keys(in1)
                } by {
                    let in0 = old(cross)@[i].1@;
                    let nc0 = notice_contrib(mt.name@, pv.take(j as int), old(cross)@[i].0);
                    let nc = notice_contrib(mt.name@, pv.take(j + 1 as int), old(cross)@[i].0);
                    if i == idx as int {
                        assert(nc =~= nc0.push((mt.name@, pv[j as int].1@)));
                        assert(cross@[i].1@ =~= prev[i].1@.push((mt.name@, text)));
                    } else {
                        assert(prev[i].0 != prev[idx as int].0);
                        assert(old(cross)@[i].0 != g@);
                        assert(nc =~= nc0);
                        assert(cross@[i] == prev[i]);
                    }
                }
            }
            j += 1;
        }
        proof {
            assert(pv.take(pv.len() as int) =~= pv);
            assert(notice_pairs(*mt) == pv);
        }
    } else {
        proof {
            assert(notice_pairs(*mt) =~= Seq::<(String, String)>::empty());
            assert(forall|i: int|
                0 <= i < old(cross)@.len() ==> notice_contrib(
                    mt.name@,
                    notice_pairs(*mt),
                    (#[trigger] old(cross)@[i]).0,
                ) =~= Seq::<(Seq<char>, Seq<char>)>::empty());
        }
    }
    if let Some(kinds) = &mt.category {
        let ghost kv = kinds@;
        let mut j: usize = 0;
        while j < kinds.len()
            invariant
                j <= kv.len(),
                cat@.len() == old(cat)@.len(),
                forall|i: int|
                    0 <= i < old(cat)@.len() ==> {
                        &&& (#[trigger] cat@[i]).0 == old(cat)@[i].0
                        &&& cat@[i].1.title == old(cat)@[i].1.title
                        &&& strs(cat@[i].1.list@) == strs(old(cat)@[i].1.list@) + hits(
                            mt.name@,
                            kv.take(j as int),
                            old(cat)@[i].0,
                        )
                    },
                unique_keys(cat@),
            decreases kv.len() - j,
        {
            let kind = &kinds[j];
            proof {
                assert(kv.take(j + 1 as int).drop_last() =~= kv.take(j as int));
                assert(kv.take(j + 1 as int).last() == kv[j as int]);
            }
            let idx = match cat.index_of(kind.as_str()) {
                Some(i) => i,
                None => {
                    proof {
                        assert(opt_strs(mt.category)[j as int]@ == kind@);
                        assert(has_str(opt_strs(mt.category), kind@));
                        assert forall|h: int| 0 <= h < old(cat)@.len() implies (
                        #[trigger] old(cat)@[h]).0 != kind@ by {
                            assert(cat@[h].0 == old(cat)@[h].0);
                        }
                        assert(!map_contains_key(old(cat)@, kind@));
                    }
                    return Err(ResolveError::UndeclaredCategory(kind.clone()));
                },
            };
            let ghost prev = cat@;
            let (k, mut item) = cat.remove_at(idx);
            let ghost list_before = item.list@;
            item.list.push(mt.name.clone());
            cat.insert_at(idx, k, item);
            proof {
                assert(cat@ =~= prev.update(idx as int, (prev[idx as int].0, item)));
                assert(item.list@ =~= list_before.push(mt.name));
                assert forall|i: int| 0 <= i < old(cat)@.len() implies {
                    &&& (#[trigger] cat@[i]).0 == old(cat)@[i].0
                    &&& cat@[i].1.title == old(cat)@[i].1.title
                    &&& strs(cat@[i].1.list@) == strs(old(cat)@[i].1.list@) + hits(
                        mt.name@,
                        kv.take(j + 1 as int),
                        old(cat)@[i].0,
                    )
                } by {
                    let h0 = hits(mt.name@, kv.take(j as int), old(cat)@[i].0);
                    let h1 = hits(mt.name@, kv.take(j + 1 as int), old(cat)@[i].0);
                    if i == idx as int {
                        assert(h1 =~= h0.push(mt.name@));
                        assert(strs(item.list@) =~= strs(list_before).push(mt.name@));
                        assert(strs(cat@[i].1.list@) =~= strs(old(cat)@[i].1.list@) + h1);
                    } else {
                        assert(prev[i].0 != prev[idx as int].0);
                        assert(old(cat)@[i].0 != kind@);
                        assert(h1 =~= h0);
                        assert(cat@[i] == prev[i]);
                    }
                }
            }
            j += 1;
        }
        proof {
            assert(kv.take(kv.len() as int) =~= kv);
            assert(opt_strs(mt.category) == kv);
        }
    } else {
        proof {
            assert(opt_strs(mt.category) =~= Seq::<String>::empty());
            assert(forall|i: int|
                0 <= i < old(cat)@.len() ==> hits(
                    mt.name@,
                    opt_strs(mt.category),
                    (#[trigger] old(cat)@[i]).0,
                ) =~= Seq::<Seq<char>>::empty());
            assert(forall|i: int|
                0 <= i < old(cat)@.len() ==> strs((#[trigger] cat@[i]).1.list@) == strs(
                    old(cat)@[i].1.list@,
                ) + hits(mt.name@, opt_strs(mt.category), old(cat)@[i].0));
        }
    }
    Ok(())
}

proof fn lemma_notice_contrib_nonempty(name: Seq<char>, pairs: Seq<(String, String)>, g: Seq<char>)
    requires
        notice_contrib(name, pairs, g).len() > 0,
    ensures
        exists|j: int| 0 <= j < pairs.len() && pairs[j].0@ == g,
    decreases pairs.len(),
{
    if pairs.len() > 0 {
        if pairs.last().0@ == g {
            assert(pairs[pairs.len() - 1].0@ == g);
        } else {
            lemma_notice_contrib_nonempty(name, pairs.drop_last(), g);
            let j = choose|j: int| 0 <= j < pairs.drop_last().len() && pairs.drop_last()[j].0@ == g;
            assert(pairs[j].0@ == g);
        }
    }
}

/// The tools before position `ti` of group `gi` form a prefix of the flat
/// tool sequence, and the tool at that spot is the next one.
pub proof fn lemma_tool_position(groups: Seq<ToolGroup>, gi: int, ti: int)
    requires
        0 <= gi < groups.len(),
        0 <= ti < groups[gi].list@.len(),
    ensures
        all_tools(groups.take(gi)).len() + ti < all_tools(groups).len(),
        all_tools(groups)[all_tools(groups.take(gi)).len() + ti] == merged_tool(
            groups[gi].list@[ti],
            groups[gi].no_icon,
        ),
        (all_tools(groups.take(gi)) + group_tools(groups[gi]).take(ti)).is_prefix_of(
            all_tools(groups),
        ),
        all_tools(groups.take(gi)).len() + ti == (all_tools(groups.take(gi)) + group_tools(
            groups[gi],
        ).take(ti)).len(),
{
    assert(groups =~= groups.take(gi + 1) + groups.skip(gi + 1));
    lemma_all_tools_concat(groups.take(gi + 1), groups.skip(gi + 1));
    assert(groups.take(gi + 1).drop_last() =~= groups.take(gi));
    assert(groups.take(gi + 1).last() == groups[gi]);
    let a = all_tools(groups.take(gi));
    let g = group_tools(groups[gi]);
    assert(all_tools(groups.take(gi + 1)) == a + g);
    assert(all_tools(groups) == (a + g) + all_tools(groups.skip(gi + 1)));
    assert(g[ti] == merged_tool(groups[gi].list@[ti], groups[gi].no_icon));
    assert(all_tools(groups)[a.len() + ti] == g[ti]);
    assert(a + g.take(ti) =~= all_tools(groups).subrange(0, a.len() + ti));
    assert((a + g.take(ti)).is_prefix_of(all_tools(groups)));
}

/// The group at `gi` stands at a known spot among the indexed groups.
proof fn lemma_indexed_position(groups: Seq<ToolGroup>, gi: int)
    requires
        0 <= gi < groups.len(),
        group_indexed(groups[gi]),
    ensures
        indexed_groups(groups.take(gi)).len() < indexed_groups(groups).len(),
        indexed_groups(groups)[indexed_groups(groups.take(gi)).len() as int] == groups[gi],
        indexed_groups(groups.take(gi)).is_prefix_of(indexed_groups(groups)),
{
    assert(groups =~= groups.take(gi + 1) + groups.skip(gi + 1));
    lemma_indexed_groups_concat(groups.take(gi + 1), groups.skip(gi + 1));
    assert(groups.take(gi + 1).drop_last() =~= groups.take(gi));
    assert(groups.take(gi + 1).last() == groups[gi]);
    let a = indexed_groups(groups.take(gi));
    assert(indexed_groups(groups.take(gi + 1)) == a + seq![groups[gi]]);
    assert(indexed_groups(groups) == (a + seq![groups[gi]]) + indexed_groups(groups.skip(gi + 1)));
    assert(indexed_groups(groups)[a.len() as int] == groups[gi]);
    assert(a =~= indexed_groups(groups).subrange(0, a.len() as int));
}

pub proof fn lemma_indexed_groups_concat(a: Seq<ToolGroup>, b: Seq<ToolGroup>)
    ensures
        indexed_groups(a + b) == indexed_groups(a) + indexed_groups(b),
    decreases b.len(),
{
    if b.len() == 0 {
        assert(a + b =~= a);
        assert(indexed_groups(a) + indexed_groups(b) =~= indexed_groups(a));
    } else {
        assert((a + b).drop_last() =~= a + b.drop_last());
        assert((a + b).last() == b.last());
        lemma_indexed_groups_concat(a, b.drop_last());
        assert(indexed_groups(a + b) =~= indexed_groups(a) + indexed_groups(b));
    }
}

/// Equal tools agree on everything the resolver reads.
proof fn lemma_tool_eq_specs(a: Tool, b: Tool)
    requires
        tool_eq(a, b),
    ensures
        a.name == b.name,
        a.name@ == b.name@,
        search_key(a) == search_key(b),
        opt_strs(a.category) == opt_strs(b.category),
        opt_strs(a.cross) == opt_strs(b.cross),
        opt_strs(a.cross_top) == opt_strs(b.cross_top),
        notice_pairs(a) == notice_pairs(b),
        notice_keys(a) == notice_keys(b),
{
    assert(opt_strs(a.category) =~= opt_strs(b.category));
    assert(opt_strs(a.cross) =~= opt_strs(b.cross));
    assert(opt_strs(a.cross_top) =~= opt_strs(b.cross_top));
    assert(notice_pairs(a) =~= notice_pairs(b));
    assert(notice_keys(a) =~= notice_keys(b));
}

proof fn lemma_tool_eq_trans(a: Tool, b: Tool, c: Tool)
    requires
        tool_eq(a, b),
        tool_eq(b, c),
    ensures
        tool_eq(a, c),
{
}

/// Appends `name` to the cross listing (or top cross listing) of every group
/// in `refs`.
#[verifier::loop_isolation(false)]
fn push_refs(
    index: &mut StrMap<ToolIndexItem>,
    name: &String,
    refs: &Vec<String>,
    top: bool,
) -> (r: Result<(), ResolveError>)
    requires
        unique_keys(old(index)@),
    ensures
        unique_keys(final(index)@),
        match r {
            Ok(()) => {
                &&& final(index)@.len() == old(index)@.len()
                &&& (forall|i: int|
                    0 <= i < old(index)@.len() ==> {
                        let it0 = old(index)@[i].1;
                        let it1 = final(index)@[i].1;
                        &&& (#[trigger] final(index)@[i]).0 == old(index)@[i].0
                        &&& it1.single == it0.single
                        &&& it1.title == it0.title
                        &&& it1.list@ == it0.list@
                        &&& (!top ==> strs(it1.cross_list@) == strs(it0.cross_list@) + hits(
                            name@,
                            refs@,
                            old(index)@[i].0,
                        ) && it1.cross_top_list@ == it0.cross_top_list@)
                        &&& (top ==> strs(it1.cross_top_list@) == strs(it0.cross_top_list@) + hits(
                            name@,
                            refs@,
                            old(index)@[i].0,
                        ) && it1.cross_list@ == it0.cross_list@)
                    })
            },
            Err(e) => match e {
                ResolveError::UndeclaredIndexGroup(n) => has_str(refs@, n@) && !map_contains_key(
                    old(index)@,
                    n@,
                ),
                _ => false,
            },
        },
{
    let ghost rv = refs@;
    let mut j: usize = 0;
    while j < refs.len()
        invariant
            j <= rv.len(),
            unique_keys(index@),
            index@.len() == old(index)@.len(),
            forall|i: int|
                0 <= i < old(index)@.len() ==> {
                    let it0 = old(index)@[i].1;
                    let it1 = index@[i].1;
                    &&& (#[trigger] index@[i]).0 == old(index)@[i].0
                    &&& it1.single == it0.single
                    &&& it1.title == it0.title
                    &&& it1.list@ == it0.list@
                    &&& (!top ==> strs(it1.cross_list@) == strs(it0.cross_list@) + hits(
                        name@,
                        rv.take(j as int),
                        old(index)@[i].0,
                    ) && it1.cross_top_list@ == it0.cross_top_list@)
                    &&& (top ==> strs(it1.cross_top_list@) == strs(it0.cross_top_list@) + hits(
                        name@,
                        rv.take(j as int),
                        old(index)@[i].0,
                    ) && it1.cross_list@ == it0.cross_list@)
                },
        decreases rv.len() - j,
    {
        let gname = &refs[j];
        proof {
            assert(rv.take(j + 1 as int).drop_last() =~= rv.take(j as int));
            assert(rv.take(j + 1 as int).last() == rv[j as int]);
        }
        let idx = match index.index_of(gname.as_str()) {
            Some(i) => i,
            None => {
                proof {
                    assert(rv[j as int]@ == gname@);
                    assert(has_str(rv, gname@));
                    assert forall|h: int| 0 <= h < old(index)@.len() implies (
                    #[trigger] old(index)@[h]).0 != gname@ by {
                        assert(index@[h].0 == old(index)@[h].0);
                    }
                    assert(!map_contains_key(old(index)@, gname@));
                }
                return Err(ResolveError::UndeclaredIndexGroup(gname.clone()));
            },
        };
        let ghost prev = index@;
        let (k, mut item) = index.remove_at(idx);
        let ghost cl_before = item.cross_list@;
        let ghost ctl_before = item.cross_top_list@;
        if top {
            item.cross_top_list.push(name.clone());
        } else {
            item.cross_list.push(name.clone());
        }
        index.insert_at(idx, k, item);
        proof {
            assert(index@ =~= prev.update(idx as int, (prev[idx as int].0, item)));
            assert forall|i: int| 0 <= i < old(index)@.len() implies {
                let it0 = old(index)@[i].1;
                let it1 = index@[i].1;
                &&& (#[trigger] index@[i]).0 == old(index)@[i].0
                &&& it1.single == it0.single
                &&& it1.title == it0.title
                &&& it1.list@ == it0.list@
                &&& (!top ==> strs(it1.cross_list@) == strs(it0.cross_list@) + hits(
                    name@,
                    rv.take(j + 1 as int),
                    old(index)@[i].0,
                ) && it1.cross_top_list@ == it0.cross_top_list@)
                &&& (top ==> strs(it1.cross_top_list@) == strs(it0.cross_top_list@) + hits(
                    name@,
                    rv.take(j + 1 as int),
                    old(index)@[i].0,
                ) && it1.cross_list@ == it0.cross_list@)
            } by {
                let h0 = hits(name@, rv.take(j as int), old(index)@[i].0);
                let h1 = hits(name@, rv.take(j + 1 as int), old(index)@[i].0);
                if i == idx as int {
                    assert(h1 =~= h0.push(name@));
                    if top {
                        assert(item.cross_top_list@ =~= ctl_before.push(*name));
                        assert(strs(item.cross_top_list@) =~= strs(ctl_before).push(name@));
                        assert(strs(index@[i].1.cross_top_list@) =~= strs(
                            old(index)@[i].1.cross_top_list@,
                        ) + h1);
                    } else {
                        assert(item.cross_list@ =~= cl_before.push(*name));
                        assert(strs(item.cross_list@) =~= strs(cl_before).push(name@));
                        assert(strs(index@[i].1.cross_list@) =~= strs(
                            old(index)@[i].1.cross_list@,
                        ) + h1);
                    }
                } else {
                    assert(prev[i].0 != prev[idx as int].0);
                    assert(old(index)@[i].0 != gname@);
                    assert(h1 =~= h0);
                    assert(index@[i] == prev[i]);
                }
            }
        }
        j += 1;
    }
    proof {
        assert(rv.take(rv.len() as int) =~= rv);
    }
    Ok(())
}

/// What a successfully resolved catalog holds, entry by entry: every index in
/// insertion order, every list in declaration order, every key bound once.
pub open spec fn resolved(
    tools_m: StrMap<Tool>,
    data: ToolData,
    groups: Seq<ToolGroup>,
    c: Category,
) -> bool {
    let ts = all_tools(groups);
    let decls = category_decls(c);
    let cgs = cross_groups(groups);
    let igs = indexed_groups(groups);
    &&& unique_keys(tools_m@)
    &&& tools_m@.len() == ts.len()
    &&& (forall|i: int|
        0 <= i < ts.len() ==> (#[trigger] tools_m@[i]).0 == ts[i].name@ && tool_eq(
            tools_m@[i].1,
            ts[i],
        ))
    &&& unique_keys(data.all@)
    &&& data.all@.len() == ts.len()
    &&& (forall|i: int|
        0 <= i < ts.len() ==> (#[trigger] data.all@[i]).0 == search_key(ts[i])
            && data.all@[i].1@ == ts[i].name@)
    &&& unique_keys(data.category@)
    &&& data.category@.len() == decls.len()
    &&& (forall|i: int|
        0 <= i < decls.len() ==> {
            &&& (#[trigger] data.category@[i]).0 == decls[i].name@
            &&& data.category@[i].1.title@ == decls[i].title->0@
            &&& strs(data.category@[i].1.list@) == category_members(ts, decls[i].name@)
        })
    &&& unique_keys(data.cross@)
    &&& data.cross@.len() == cgs.len()
    &&& (forall|i: int|
        0 <= i < cgs.len() ==> {
            let g = (#[trigger] cgs[i]).name->0@;
            let ents = cross_notice_entries(ts, g);
            &&& data.cross@[i].0 == g
            &&& unique_keys(data.cross@[i].1@)
            &&& data.cross@[i].1@.len() == ents.len()
            &&& (forall|j: int|
                0 <= j < ents.len() ==> (#[trigger] data.cross@[i].1@[j]).0 == ents[j].0
                    && data.cross@[i].1@[j].1@ == notice_text(cgs[i].cross_notice->0@, ents[j].1))
        })
    &&& unique_keys(data.index@)
    &&& data.index@.len() == igs.len()
    &&& (forall|i: int|
        0 <= i < igs.len() ==> {
            let g = #[trigger] igs[i];
            let item = data.index@[i].1;
            &&& data.index@[i].0 == group_name_of(g)
            &&& item.single == group_is_single(g)
            &&& item.title@ == group_title_of(g)
            &&& strs(item.list@) == tool_names(group_tools(g))
            &&& strs(item.cross_list@) == cross_members(ts, group_name_of(g))
            &&& strs(item.cross_top_list@) == cross_top_members(ts, group_name_of(g))
        })
}

/// Builds the whole catalog from the tool groups and the category tree, in
/// three phases: declarations first, then every tool, then the cross
/// listings. Any duplicate name or undeclared reference is a fatal
/// configuration error; exactly the `resolvable` inputs succeed.
#[verifier::loop_isolation(false)]
#[verifier::rlimit(100)]
pub fn tool_groups(groups: &Vec<ToolGroup>, major_category: &Category) -> (r: Result<
    (StrMap<Tool>, ToolData),
    ResolveError,
>)
    ensures
        match r {
            Ok(p) => resolved(p.0, p.1, groups@, *major_category),
            Err(e) => violation(e, groups@, *major_category),
        },
        resolvable(groups@, *major_category) ==> r is Ok,
{
    let ghost ts = all_tools(groups@);
    let ghost decls = category_decls(*major_category);
    let ghost cgs = cross_groups(groups@);
    let ghost igs = indexed_groups(groups@);

    let mut category: StrMap<ToolCategoryItem> = StrMap::new();
    let ghost empty_cat = category@;
    match register_tab(&mut category, &major_category.tool) {
        Ok(()) => (),
        Err(e) => {
            proof {
                let a = tile_names(decls_of_groups(major_category.tool.content@));
                assert(map_keys(empty_cat) + a =~= Seq::<Seq<char>>::empty() + a);
                lemma_err_tab(e, groups@, *major_category, Seq::empty(), false);
            }
            return Err(e);
        },
    }
    let ghost cat_after_tool = category@;
    match register_tab(&mut category, &major_category.link) {
        Ok(()) => (),
        Err(e) => {
            proof {
                let a = tile_names(decls_of_groups(major_category.tool.content@));
                let b = tile_names(decls_of_groups(major_category.link.content@));
                assert(map_keys(cat_after_tool) =~= a);
                assert(map_keys(cat_after_tool) + b =~= a + b);
                lemma_err_tab(e, groups@, *major_category, a, true);
            }
            return Err(e);
        },
    }
    proof {
        assert(category@.len() == decls.len());
        assert forall|i: int| 0 <= i < decls.len() implies {
            &&& (#[trigger] decls[i]).title is Some
            &&& category@[i].0 == decls[i].name@
            &&& category@[i].1.title@ == decls[i].title->0@
            &&& category@[i].1.list@.len() == 0
        } by {
            let a = decls_of_groups(major_category.tool.content@);
            if i < a.len() {
                assert(decls[i] == a[i]);
            } else {
                assert(decls[i] == decls_of_groups(major_category.link.content@)[i - a.len()]);
            }
        }
    }

    let mut cross: StrMap<StrMap<String>> = StrMap::new();
    let mut titles: StrMap<String> = StrMap::new();
    match register_cross_groups(&mut cross, &mut titles, groups) {
        Ok(()) => (),
        Err(e) => {
            return Err(e);
        },
    }

    let mut tools: StrMap<Tool> = StrMap::new();
    let mut all: StrMap<String> = StrMap::new();
    let mut index: StrMap<ToolIndexItem> = StrMap::new();

    let mut gi: usize = 0;
    while gi < groups.len()
        invariant
            gi <= groups@.len(),
            ({
                let done = all_tools(groups@.take(gi as int));
                &&& unique_keys(tools@)
                &&& tools@.len() == done.len()
                &&& (forall|i: int|
                    0 <= i < done.len() ==> (#[trigger] tools@[i]).0 == done[i].name@ && tool_eq(
                        tools@[i].1,
                        done[i],
                    ))
                &&& unique_keys(all@)
                &&& all@.len() == done.len()
                &&& (forall|i: int|
                    0 <= i < done.len() ==> (#[trigger] all@[i]).0 == search_key(done[i])
                        && all@[i].1@ == done[i].name@)
                &&& unique_keys(category@)
                &&& category@.len() == decls.len()
                &&& (forall|i: int|
                    0 <= i < decls.len() ==> {
                        &&& (#[trigger] category@[i]).0 == decls[i].name@
                        &&& category@[i].1.title@ == decls[i].title->0@
                        &&& strs(category@[i].1.list@) == category_members(done, decls[i].name@)
                    })
                &&& unique_keys(cross@)
                &&& cross@.len() == cgs.len()
                &&& (forall|i: int|
                    0 <= i < cgs.len() ==> {
                        let g = (#[trigger] cgs[i]).name->0@;
                        let ents = cross_notice_entries(done, g);
                        &&& cross@[i].0 == g
                        &&& unique_keys(cross@[i].1@)
                        &&& cross@[i].1@.len() == ents.len()
                        &&& (forall|j: int|
                            0 <= j < ents.len() ==> (#[trigger] cross@[i].1@[j]).0 == ents[j].0
                                && cross@[i].1@[j].1@ == notice_text(
                                cgs[i].cross_notice->0@,
                                ents[j].1,
                            ))
                    })
                &&& unique_keys(index@)
                &&& index@.len() == indexed_groups(groups@.take(gi as int)).len()
                &&& (forall|i: int|
                    0 <= i < indexed_groups(groups@.take(gi as int)).len() ==> {
                        let g = #[trigger] indexed_groups(groups@.take(gi as int))[i];
                        let item = index@[i].1;
                        &&& index@[i].0 == group_name_of(g)
                        &&& item.single == group_is_single(g)
                        &&& item.title@ == group_title_of(g)
                        &&& strs(item.list@) == tool_names(group_tools(g))
                        &&& item.cross_list@.len() == 0
                        &&& item.cross_top_list@.len() == 0
                    })
            }),
        decreases groups@.len() - gi,
    {
        let group = &groups[gi];
        let ghost done0 = all_tools(groups@.take(gi as int));
        let single = group.list.len() == 1 && group.name.is_none();
        proof {
            assert(single == group_is_single(groups@[gi as int]));
        }
        let group_name = match &group.name {
            Some(n) => n.clone(),
            None => {
                if single {
                    group.list[0].name.clone()
                } else {
                    proof {
                        assert(!group_has_name(groups@[gi as int]));
                    }
                    return Err(ResolveError::MissingGroupName(gi));
                }
            },
        };
        proof {
            assert(group_name@ == group_name_of(groups@[gi as int]));
        }
        let mut list: Vec<String> = Vec::new();
        let mut ti: usize = 0;
        while ti < group.list.len()
            invariant
                gi < groups@.len(),
                *group == groups@[gi as int],
                ti <= group.list@.len(),
                list@.len() == ti,
                forall|k: int| 0 <= k < ti ==> (#[trigger] list@[k])@ == group.list@[k].name@,
                ({
                    let done = done0 + group_tools(groups@[gi as int]).take(ti as int);
                    &&& unique_keys(tools@)
                    &&& tools@.len() == done.len()
                    &&& (forall|i: int|
                        0 <= i < done.len() ==> (#[trigger] tools@[i]).0 == done[i].name@
                            && tool_eq(tools@[i].1, done[i]))
                    &&& unique_keys(all@)
                    &&& all@.len() == done.len()
                    &&& (forall|i: int|
                        0 <= i < done.len() ==> (#[trigger] all@[i]).0 == search_key(done[i])
                            && all@[i].1@ == done[i].name@)
                    &&& unique_keys(category@)
                    &&& category@.len() == decls.len()
                    &&& (forall|i: int|
                        0 <= i < decls.len() ==> {
                            &&& (#[trigger] category@[i]).0 == decls[i].name@
                            &&& category@[i].1.title@ == decls[i].title->0@
                            &&& strs(category@[i].1.list@) == category_members(
                                done,
                                decls[i].name@,
                            )
                        })
                    &&& unique_keys(cross@)
                    &&& cross@.len() == cgs.len()
                    &&& (forall|i: int|
                        0 <= i < cgs.len() ==> {
                            let g = (#[trigger] cgs[i]).name->0@;
                            let ents = cross_notice_entries(done, g);
                            &&& cross@[i].0 == g
                            &&& unique_keys(cross@[i].1@)
                            &&& cross@[i].1@.len() == ents.len()
                            &&& (forall|j: int|
                                0 <= j < ents.len() ==> (#[trigger] cross@[i].1@[j]).0 == ents[j].0
                                    && cross@[i].1@[j].1@ == notice_text(
                                    cgs[i].cross_notice->0@,
                                    ents[j].1,
                                ))
                        })
                }),
            decreases group.list@.len() - ti,
        {
            let ghost done = done0 + group_tools(groups@[gi as int]).take(ti as int);
            let ghost k = done.len() as int;
            proof {
                lemma_tool_position(groups@, gi as int, ti as int);
                assert(ts[k] == merged_tool(
                    groups@[gi as int].list@[ti as int],
                    groups@[gi as int].no_icon,
                ));
            }
            let mut mtool = group.list[ti].clone();
            if mtool.no_icon.is_none() {
                mtool.no_icon = group.no_icon;
            }
            proof {
                assert(tool_eq(mtool, ts[k]));
                lemma_tool_eq_specs(mtool, ts[k]);
                assert(done.is_prefix_of(ts));
                assert(done =~= ts.subrange(0, k));
            }
            let ghost pre_all = all@;
            let ghost pre_tools = tools@;
            let ghost pre_cross = cross@;
            let ghost pre_cat = category@;
            proof {
                assert forall|i: int| 0 <= i < cross@.len() implies (#[trigger] cross@[i]).0
                    == titles@[i].0 && unique_keys(cross@[i].1@) by {
                    assert(cross@[i].0 == cgs[i].name->0@);
                    assert(titles@[i].0 == cgs[i].name->0@);
                    assert(unique_keys(cross@[i].1@));
                }
            }
            match register_tool(
                &mtool,
                &mut list,
                &mut all,
                &mut tools,
                &mut cross,
                &titles,
                &mut category,
            ) {
                Ok(()) => (),
                Err(e) => {
                    proof {
                        match &e {
                            ResolveError::DuplicateSearchKey(_) => {
                                let h = choose|h: int|
                                    0 <= h < pre_all.len() && pre_all[h].0 == search_key(mtool);
                                assert(pre_all[h].0 == search_key(done[h]));
                                assert(done[h] == ts[h]);
                                assert(search_key(ts[h]) == search_key(mtool));
                            },
                            ResolveError::DuplicateTool(_) => {
                                let h = choose|h: int|
                                    0 <= h < pre_tools.len() && pre_tools[h].0 == mtool.name@;
                                assert(pre_tools[h].0 == done[h].name@);
                                assert(done[h] == ts[h]);
                                assert(ts[h].name@ == mtool.name@);
                            },
                            ResolveError::UndeclaredCrossGroup(n) => {
                                assert forall|h: int|
                                    0 <= h < cross_group_names(groups@).len() implies #[trigger] cross_group_names(
                                    groups@,
                                )[h] != n@ by {
                                    assert(pre_cross[h].0 == cgs[h].name->0@);
                                }
                                assert(!cross_group_names(groups@).contains(n@));
                            },
                            ResolveError::DuplicateCrossNotice(_) => {
                                let g = choose|g: Seq<char>|
                                    #[trigger] notice_keys(mtool).contains(g) && (dup_at(
                                        notice_keys(mtool),
                                        g,
                                    ) || (map_contains_key(pre_cross, g) && map_contains_key(
                                        map_value_of(pre_cross, g)@,
                                        mtool.name@,
                                    )));
                                if !dup_at(notice_keys(mtool), g) {
                                    let hidx = choose|h: int|
                                        0 <= h < pre_cross.len() && pre_cross[h].0 == g;
                                    lemma_unique_key_at(pre_cross, hidx);
                                    let inner = pre_cross[hidx].1@;
                                    assert(map_value_of(pre_cross, g)@ == inner);
                                    let jn = choose|j: int|
                                        0 <= j < inner.len() && inner[j].0 == mtool.name@;
                                    assert(pre_cross[hidx].0 == cgs[hidx].name->0@);
                                    assert(inner[jn].0 == cross_notice_entries(
                                        done,
                                        cgs[hidx].name->0@,
                                    )[jn].0);
                                    lemma_notice_entry_keys(done, cgs[hidx].name->0@, jn);
                                    let hh = choose|hh: int|
                                        0 <= hh < done.len() && (#[trigger] done[hh]).name@
                                            == cross_notice_entries(done, cgs[hidx].name->0@)[jn].0;
                                    assert(pre_tools[hh].0 == done[hh].name@);
                                    assert(map_contains_key(pre_tools, mtool.name@));
                                    assert(false);
                                }
                            },
                            ResolveError::UndeclaredCategory(n) => {
                                assert forall|h: int|
                                    0 <= h < decl_names(*major_category).len() implies #[trigger] decl_names(
                                    *major_category,
                                )[h] != n@ by {
                                    assert(pre_cat[h].0 == decls[h].name@);
                                }
                                assert(!decl_names(*major_category).contains(n@));
                            },
                            _ => {},
                        }
                        lemma_err_tool(e, groups@, *major_category, k, mtool);
                    }
                    return Err(e);
                },
            }
            proof {
                let done1 = done0 + group_tools(groups@[gi as int]).take(ti + 1 as int);
                assert(done1 =~= done.push(ts[k]));
                lemma_step_members(done, ts[k]);
                lemma_tool_eq_trans(tools@[done.len() as int].1, mtool, ts[k]);
                assert forall|i: int| 0 <= i < done1.len() implies (#[trigger] tools@[i]).0
                    == done1[i].name@ && tool_eq(tools@[i].1, done1[i]) by {
                    if i < done.len() {
                        assert(tools@[i] == pre_tools[i]);
                        assert(done1[i] == done[i]);
                    } else {
                        assert(done1[i] == ts[k]);
                        assert(tools@[i] == tools@.last());
                    }
                }
                assert forall|i: int| 0 <= i < done1.len() implies (#[trigger] all@[i]).0
                    == search_key(done1[i]) && all@[i].1@ == done1[i].name@ by {
                    if i < done.len() {
                        assert(all@[i] == pre_all[i]);
                        assert(done1[i] == done[i]);
                    } else {
                        assert(done1[i] == ts[k]);
                        assert(all@[i] == all@.last());
                    }
                }
                assert forall|i: int| 0 <= i < decls.len() implies {
                    &&& (#[trigger] category@[i]).0 == decls[i].name@
                    &&& category@[i].1.title@ == decls[i].title->0@
                    &&& strs(category@[i].1.list@) == category_members(done1, decls[i].name@)
                } by {
                    assert(pre_cat[i].0 == decls[i].name@);
                    assert(category_members(done1, decls[i].name@) == category_members(
                        done,
                        decls[i].name@,
                    ) + hits(ts[k].name@, opt_strs(ts[k].category), decls[i].name@));
                    assert(hits(mtool.name@, opt_strs(mtool.category), decls[i].name@) == hits(
                        ts[k].name@,
                        opt_strs(ts[k].category),
                        decls[i].name@,
                    ));
                }
                assert forall|i: int| 0 <= i < cgs.len() implies {
                    let g = (#[trigger] cgs[i]).name->0@;
                    let ents = cross_notice_entries(done1, g);
                    &&& cross@[i].0 == g
                    &&& unique_keys(cross@[i].1@)
                    &&& cross@[i].1@.len() == ents.len()
                    &&& (forall|j: int|
                        0 <= j < ents.len() ==> (#[trigger] cross@[i].1@[j]).0 == ents[j].0 && cross@[
                            i
                        ].1@[j].1@ == notice_text(cgs[i].cross_notice->0@, ents[j].1))
                } by {
                    let g = cgs[i].name->0@;
                    let e0 = cross_notice_entries(done, g);
                    let e1 = cross_notice_entries(done1, g);
                    let nc = notice_contrib(ts[k].name@, notice_pairs(ts[k]), g);
                    assert(pre_cross[i].0 == g);
                    assert(e1 == e0 + nc);
                    assert(notice_contrib(mtool.name@, notice_pairs(mtool), g) == nc);
                    assert(cross@[i].1@.len() == e0.len() + nc.len());
                    assert forall|j: int| 0 <= j < e1.len() implies (#[trigger] cross@[i].1@[j]).0
                        == e1[j].0 && cross@[i].1@[j].1@ == notice_text(
                        cgs[i].cross_notice->0@,
                        e1[j].1,
                    ) by {
                        if j < e0.len() {
                            assert(cross@[i].1@[j] == pre_cross[i].1@[j]);
                            assert(e1[j] == e0[j]);
                        } else {
                            let jj = j - e0.len();
                            assert(pre_cross[i].1@.len() == e0.len());
                            assert(cross@[i].1@[j] == cross@[i].1@[pre_cross[i].1@.len() + jj]);
                            assert(e1[j] == nc[jj]);
                        }
                    }
                }
            }
            ti += 1;
        }
        proof {
            assert(group_tools(groups@[gi as int]).take(group.list@.len() as int) =~= group_tools(
                groups@[gi as int],
            ));
            assert(groups@.take(gi + 1 as int).drop_last() =~= groups@.take(gi as int));
            assert(groups@.take(gi + 1 as int).last() == groups@[gi as int]);
            assert(all_tools(groups@.take(gi + 1 as int)) =~= done0 + group_tools(
                groups@[gi as int],
            ));
        }
        let skip_index = match &group.name {
            Some(n) => crate::text::str_eq(n.as_str(), "non-index"),
            None => false,
        };
        proof {
            reveal_strlit("non-index");
            assert(skip_index == !group_indexed(groups@[gi as int]));
        }
        if !skip_index {
            let title = match &group.title {
                Some(t) => t.clone(),
                None => {
                    if single {
                        group.list[0].title.clone()
                    } else {
                        proof {
                            assert(!group_has_title(groups@[gi as int]));
                        }
                        return Err(ResolveError::MissingGroupTitle(gi));
                    }
                },
            };
            proof {
                assert(title@ == group_title_of(groups@[gi as int]));
            }
            let item = ToolIndexItem {
                single,
                title,
                list,
                cross_list: Vec::new(),
                cross_top_list: Vec::new(),
            };
            proof {
                assert(strs(item.list@) =~= tool_names(group_tools(groups@[gi as int])));
                lemma_indexed_position(groups@, gi as int);
            }
            let ok = index.first_insert(group_name.clone(), item);
            if !ok {
                proof {
                    let igp = indexed_groups(groups@.take(gi as int));
                    let names = index_names(groups@);
                    assert(igp =~= igs.subrange(0, igp.len() as int));
                    let jj = igp.len() as int;
                    assert(igs[jj] == groups@[gi as int]);
                    assert(names[jj] == group_name_of(groups@[gi as int]));
                    let h = choose|h: int|
                        0 <= h < index@.len() && index@[h].0 == group_name_of(groups@[gi as int]);
                    assert(index@[h].0 == group_name_of(igp[h]));
                    assert(igp[h] == igs[h]);
                    assert(names[h] == index@[h].0);
                    assert(dup_at(names, group_name_of(groups@[gi as int])));
                }
                return Err(ResolveError::DuplicateGroup(group_name));
            }
            proof {
                let igp = indexed_groups(groups@.take(gi as int));
                assert(indexed_groups(groups@.take(gi + 1 as int)) =~= igp.push(
                    groups@[gi as int],
                ));
            }
        } else {
            proof {
                assert(indexed_groups(groups@.take(gi + 1 as int)) =~= indexed_groups(
                    groups@.take(gi as int),
                ));
            }
        }
        gi += 1;
    }
    proof {
        assert(groups@.take(groups@.len() as int) =~= groups@);
    }

    // Second pass: the cross listings, known only once every group is indexed.
    let mut gi: usize = 0;
    while gi < groups.len()
        invariant
            gi <= groups@.len(),
            unique_keys(index@),
            index@.len() == igs.len(),
            forall|i: int|
                0 <= i < igs.len() ==> {
                    let g = #[trigger] igs[i];
                    let item = index@[i].1;
                    &&& index@[i].0 == group_name_of(g)
                    &&& item.single == group_is_single(g)
                    &&& item.title@ == group_title_of(g)
                    &&& strs(item.list@) == tool_names(group_tools(g))
                    &&& strs(item.cross_list@) == cross_members(
                        all_tools(groups@.take(gi as int)),
                        group_name_of(g),
                    )
                    &&& strs(item.cross_top_list@) == cross_top_members(
                        all_tools(groups@.take(gi as int)),
                        group_name_of(g),
                    )
                },
        decreases groups@.len() - gi,
    {
        let group = &groups[gi];
        let ghost done0 = all_tools(groups@.take(gi as int));
        let mut ti: usize = 0;
        while ti < group.list.len()
            invariant
                gi < groups@.len(),
                *group == groups@[gi as int],
                ti <= group.list@.len(),
                unique_keys(index@),
                index@.len() == igs.len(),
                forall|i: int|
                    0 <= i < igs.len() ==> {
                        let g = #[trigger] igs[i];
                        let item = index@[i].1;
                        let done = done0 + group_tools(groups@[gi as int]).take(ti as int);
                        &&& index@[i].0 == group_name_of(g)
                        &&& item.single == group_is_single(g)
                        &&& item.title@ == group_title_of(g)
                        &&& strs(item.list@) == tool_names(group_tools(g))
                        &&& strs(item.cross_list@) == cross_members(done, group_name_of(g))
                        &&& strs(item.cross_top_list@) == cross_top_members(done, group_name_of(g))
                    },
            decreases group.list@.len() - ti,
        {
            let ghost done = done0 + group_tools(groups@[gi as int]).take(ti as int);
            let ghost k = done.len() as int;
            proof {
                lemma_tool_position(groups@, gi as int, ti as int);
            }
            let tool = &group.list[ti];
            proof {
                assert(ts[k].name@ == tool.name@);
                assert(ts[k].cross == tool.cross);
                assert(ts[k].cross_top == tool.cross_top);
            }
            let ghost pre_index = index@;
            if let Some(refs) = &tool.cross {
                match push_refs(&mut index, &tool.name, refs, false) {
                    Ok(()) => (),
                    Err(e) => {
                        proof {
                            if let ResolveError::UndeclaredIndexGroup(n) = &e {
                                assert forall|h: int|
                                    0 <= h < index_names(groups@).len() implies #[trigger] index_names(
                                    groups@,
                                )[h] != n@ by {
                                    assert(pre_index[h].0 == group_name_of(igs[h]));
                                }
                                assert(!index_names(groups@).contains(n@));
                                assert(refs@ == opt_strs(ts[k].cross));
                            }
                            lemma_err_refs(e, groups@, *major_category, k, refs@, false);
                        }
                        return Err(e);
                    },
                }
            }
            let ghost mid_index = index@;
            if let Some(refs) = &tool.cross_top {
                match push_refs(&mut index, &tool.name, refs, true) {
                    Ok(()) => (),
                    Err(e) => {
                        proof {
                            if let ResolveError::UndeclaredIndexGroup(n) = &e {
                                assert forall|h: int|
                                    0 <= h < index_names(groups@).len() implies #[trigger] index_names(
                                    groups@,
                                )[h] != n@ by {
                                    assert(mid_index[h].0 == pre_index[h].0);
                                    assert(pre_index[h].0 == group_name_of(igs[h]));
                                }
                                assert(!index_names(groups@).contains(n@));
                                assert(refs@ == opt_strs(ts[k].cross_top));
                            }
                            lemma_err_refs(e, groups@, *major_category, k, refs@, true);
                        }
                        return Err(e);
                    },
                }
            }
            proof {
                let done1 = done0 + group_tools(groups@[gi as int]).take(ti + 1 as int);
                assert(done1 =~= done.push(ts[k]));
                lemma_step_cross(done, ts[k]);
                assert forall|i: int| 0 <= i < igs.len() implies {
                    let g = #[trigger] igs[i];
                    let item = index@[i].1;
                    &&& index@[i].0 == group_name_of(g)
                    &&& item.single == group_is_single(g)
                    &&& item.title@ == group_title_of(g)
                    &&& strs(item.list@) == tool_names(group_tools(g))
                    &&& strs(item.cross_list@) == cross_members(done1, group_name_of(g))
                    &&& strs(item.cross_top_list@) == cross_top_members(done1, group_name_of(g))
                } by {
                    let g = igs[i];
                    let nm = group_name_of(g);
                    assert(cross_members(done1, nm) == cross_members(done, nm) + hits(
                        ts[k].name@,
                        opt_strs(ts[k].cross),
                        nm,
                    ));
                    assert(cross_top_members(done1, nm) == cross_top_members(done, nm) + hits(
                        ts[k].name@,
                        opt_strs(ts[k].cross_top),
                        nm,
                    ));
                    assert(hits(tool.name@, opt_strs(tool.cross), nm) == hits(
                        ts[k].name@,
                        opt_strs(ts[k].cross),
                        nm,
                    ));
                    assert(hits(tool.name@, opt_strs(tool.cross_top), nm) == hits(
                        ts[k].name@,
                        opt_strs(ts[k].cross_top),
                        nm,
                    ));
                    if tool.cross is None {
                        assert(hits(ts[k].name@, opt_strs(ts[k].cross), nm) =~= Seq::<
                            Seq<char>,
                        >::empty());
                    }
                    if tool.cross_top is None {
                        assert(hits(ts[k].name@, opt_strs(ts[k].cross_top), nm) =~= Seq::<
                            Seq<char>,
                        >::empty());
                    }
                }
            }
            ti += 1;
        }
        proof {
            assert(group_tools(groups@[gi as int]).take(group.list@.len() as int) =~= group_tools(
                groups@[gi as int],
            ));
            assert(groups@.take(gi + 1 as int).drop_last() =~= groups@.take(gi as int));
            assert(groups@.take(gi + 1 as int).last() == groups@[gi as int]);
            assert(all_tools(groups@.take(gi + 1 as int)) =~= done0 + group_tools(
                groups@[gi as int],
            ));
        }
        gi += 1;
    }
    proof {
        assert(groups@.take(groups@.len() as int) =~= groups@);
    }

    Ok((tools, ToolData { index, all, category, cross }))
}

/// A fault found while registering one tab's declarations is a fault of the
/// whole category tree.
proof fn lemma_err_tab(
    e: ResolveError,
    groups: Seq<ToolGroup>,
    c: Category,
    prior: Seq<Seq<char>>,
    link: bool,
)
    requires
        link ==> prior == tile_names(decls_of_groups(c.tool.content@)),
        !link ==> prior.len() == 0,
        !link ==> match e {
            ResolveError::DuplicateCategory(n) => dup_at(
                prior + tile_names(decls_of_groups(c.tool.content@)),
                n@,
            ),
            ResolveError::MissingTileTitle(n) => exists|i: int|
                0 <= i < decls_of_groups(c.tool.content@).len() && (#[trigger] decls_of_groups(
                    c.tool.content@,
                )[i]).title is None && decls_of_groups(c.tool.content@)[i].name@ == n@,
            _ => false,
        },
        link ==> match e {
            ResolveError::DuplicateCategory(n) => dup_at(
                prior + tile_names(decls_of_groups(c.link.content@)),
                n@,
            ),
            ResolveError::MissingTileTitle(n) => exists|i: int|
                0 <= i < decls_of_groups(c.link.content@).len() && (#[trigger] decls_of_groups(
                    c.link.content@,
                )[i]).title is None && decls_of_groups(c.link.content@)[i].name@ == n@,
            _ => false,
        },
    ensures
        violation(e, groups, c),
        !resolvable(groups, c),
{
    let a = decls_of_groups(c.tool.content@);
    let b = decls_of_groups(c.link.content@);
    let d = category_decls(c);
    assert(d == a + b);
    match e {
        ResolveError::DuplicateCategory(n) => {
            if link {
                let whole = prior + tile_names(b);
                assert forall|i: int| 0 <= i < whole.len() implies #[trigger] whole[i] == decl_names(
                    c,
                )[i] by {
                    if i < a.len() {
                        assert(whole[i] == a[i].name@);
                        assert(d[i] == a[i]);
                    } else {
                        assert(whole[i] == b[i - a.len()].name@);
                        assert(d[i] == b[i - a.len()]);
                    }
                }
                let (i, j) = choose|i: int, j: int|
                    0 <= i < j < whole.len() && #[trigger] whole[i] == n@ && #[trigger] whole[j]
                        == n@;
                assert(decl_names(c)[i] == n@);
                assert(decl_names(c)[j] == n@);
                assert(dup_at(decl_names(c), n@));
            } else {
                let whole = prior + tile_names(a);
                let (i, j) = choose|i: int, j: int|
                    0 <= i < j < whole.len() && #[trigger] whole[i] == n@ && #[trigger] whole[j]
                        == n@;
                assert(whole[i] == a[i].name@);
                assert(whole[j] == a[j].name@);
                assert(d[i] == a[i]);
                assert(d[j] == a[j]);
                assert(decl_names(c)[i] == n@);
                assert(decl_names(c)[j] == n@);
                assert(dup_at(decl_names(c), n@));
            }
        },
        ResolveError::MissingTileTitle(n) => {
            if link {
                let i = choose|i: int|
                    0 <= i < b.len() && (#[trigger] b[i]).title is None && b[i].name@ == n@;
                assert(d[a.len() + i] == b[i]);
                assert((d[a.len() + i]).title is None && d[a.len() + i].name@ == n@);
            } else {
                let i = choose|i: int|
                    0 <= i < a.len() && (#[trigger] a[i]).title is None && a[i].name@ == n@;
                assert(d[i] == a[i]);
                assert((d[i]).title is None && d[i].name@ == n@);
            }
        },
        _ => {},
    }
}

/// Every key of the cross-notice entries is the name of one of the tools.
proof fn lemma_notice_entry_keys(ts: Seq<Tool>, g: Seq<char>, j: int)
    requires
        0 <= j < cross_notice_entries(ts, g).len(),
    ensures
        exists|h: int|
            0 <= h < ts.len() && (#[trigger] ts[h]).name@ == cross_notice_entries(ts, g)[j].0,
    decreases ts.len(),
{
    if ts.len() > 0 {
        let pre = cross_notice_entries(ts.drop_last(), g);
        if j < pre.len() {
            lemma_notice_entry_keys(ts.drop_last(), g, j);
            let h = choose|h: int|
                0 <= h < ts.drop_last().len() && (#[trigger] ts.drop_last()[h]).name@ == pre[j].0;
            assert(ts[h].name@ == cross_notice_entries(ts, g)[j].0);
        } else {
            lemma_notice_contrib_keys(
                ts.last().name@,
                notice_pairs(ts.last()),
                g,
                j - pre.len() as int,
            );
            assert(ts[ts.len() - 1].name@ == cross_notice_entries(ts, g)[j].0);
        }
    }
}

proof fn lemma_notice_contrib_keys(
    name: Seq<char>,
    pairs: Seq<(String, String)>,
    g: Seq<char>,
    j: int,
)
    requires
        0 <= j < notice_contrib(name, pairs, g).len(),
    ensures
        notice_contrib(name, pairs, g)[j].0 == name,
    decreases pairs.len(),
{
    if pairs.len() > 0 {
        let pre = notice_contrib(name, pairs.drop_last(), g);
        if j < pre.len() {
            lemma_notice_contrib_keys(name, pairs.drop_last(), g, j);
        }
    }
}

/// A fault found while registering one tool is a fault of the whole input.
proof fn lemma_err_tool(
    e: ResolveError,
    groups: Seq<ToolGroup>,
    c: Category,
    k: int,
    mtool: Tool,
)
    requires
        0 <= k < all_tools(groups).len(),
        tool_eq(mtool, all_tools(groups)[k]),
        match e {
            ResolveError::DuplicateSearchKey(n) => n@ == search_key(mtool) && exists|h: int|
                0 <= h < k && search_key(#[trigger] all_tools(groups)[h]) == search_key(mtool),
            ResolveError::DuplicateTool(n) => n@ == mtool.name@ && exists|h: int|
                0 <= h < k && (#[trigger] all_tools(groups)[h]).name@ == mtool.name@,
            ResolveError::UndeclaredCrossGroup(n) => notice_keys(mtool).contains(n@)
                && !cross_group_names(groups).contains(n@),
            ResolveError::DuplicateCrossNotice(n) => n@ == mtool.name@ && !unique_strs(
                notice_keys(mtool),
            ),
            ResolveError::UndeclaredCategory(n) => has_str(opt_strs(mtool.category), n@)
                && !decl_names(c).contains(n@),
            _ => false,
        },
    ensures
        violation(e, groups, c),
        !resolvable(groups, c),
{
    let ts = all_tools(groups);
    lemma_tool_eq_specs(mtool, ts[k]);
    match e {
        ResolveError::DuplicateSearchKey(n) => {
            let h = choose|h: int|
                0 <= h < k && search_key(#[trigger] all_tools(groups)[h]) == search_key(mtool);
            assert(search_keys(ts)[h] == n@);
            assert(search_keys(ts)[k] == n@);
            assert(dup_at(search_keys(ts), n@));
        },
        ResolveError::DuplicateTool(n) => {
            let h = choose|h: int|
                0 <= h < k && (#[trigger] all_tools(groups)[h]).name@ == mtool.name@;
            assert(tool_names(ts)[h] == n@);
            assert(tool_names(ts)[k] == n@);
            assert(dup_at(tool_names(ts), n@));
        },
        ResolveError::UndeclaredCrossGroup(n) => {
            let j = choose|j: int| 0 <= j < notice_keys(mtool).len() && notice_keys(mtool)[j] == n@;
            assert(notice_pairs(ts[k])[j].0@ == n@);
        },
        ResolveError::DuplicateCrossNotice(n) => {
            assert(ts[k].name@ == n@);
            assert(!unique_strs(notice_keys(ts[k])));
        },
        ResolveError::UndeclaredCategory(n) => {
            let j = choose|j: int|
                0 <= j < opt_strs(mtool.category).len() && opt_strs(mtool.category)[j]@ == n@;
            assert(opt_strs(ts[k].category)[j]@ == n@);
        },
        _ => {},
    }
}

/// A missing index entry found in the cross pass is a fault of the whole
/// input.
proof fn lemma_err_refs(
    e: ResolveError,
    groups: Seq<ToolGroup>,
    c: Category,
    k: int,
    refs: Seq<String>,
    top: bool,
)
    requires
        0 <= k < all_tools(groups).len(),
        top ==> refs == opt_strs(all_tools(groups)[k].cross_top),
        !top ==> refs == opt_strs(all_tools(groups)[k].cross),
        match e {
            ResolveError::UndeclaredIndexGroup(n) => has_str(refs, n@) && !index_names(
                groups,
            ).contains(n@),
            _ => false,
        },
    ensures
        violation(e, groups, c),
        !resolvable(groups, c),
{
    let ts = all_tools(groups);
    match e {
        ResolveError::UndeclaredIndexGroup(n) => {
            if top {
                assert(has_str(opt_strs(ts[k].cross_top), n@));
            } else {
                assert(has_str(opt_strs(ts[k].cross), n@));
            }
            assert(!resolvable(groups, c)) by {
                if resolvable(groups, c) {
                    if top {
                        let j = choose|j: int|
                            0 <= j < opt_strs(ts[k].cross_top).len() && opt_strs(
                                ts[k].cross_top,
                            )[j]@ == n@;
                        assert(index_names(groups).contains(opt_strs(ts[k].cross_top)[j]@));
                    } else {
                        let j = choose|j: int|
                            0 <= j < opt_strs(ts[k].cross).len() && opt_strs(ts[k].cross)[j]@
                                == n@;
                        assert(index_names(groups).contains(opt_strs(ts[k].cross)[j]@));
                    }
                }
            }
        },
        _ => {},
    }
}

/// Appending one tool extends every membership and notice listing by exactly
/// that tool's declarations.
proof fn lemma_step_members(done: Seq<Tool>, t: Tool)
    ensures
        forall|x: Seq<char>| #[trigger]
            category_members(done.push(t), x) == category_members(done, x) + hits(
                t.name@,
                opt_strs(t.category),
                x,
            ),
        forall|g: Seq<char>| #[trigger]
            cross_notice_entries(done.push(t), g) == cross_notice_entries(done, g) + notice_contrib(
                t.name@,
                notice_pairs(t),
                g,
            ),
{
    assert(done.push(t).drop_last() =~= done);
    assert(done.push(t).last() == t);
    assert(done.push(t).len() == done.len() + 1);
}

/// Appending one tool extends every cross listing by exactly that tool's
/// references.
proof fn lemma_step_cross(done: Seq<Tool>, t: Tool)
    ensures
        forall|g: Seq<char>| #[trigger]
            cross_members(done.push(t), g) == cross_members(done, g) + hits(
                t.name@,
                opt_strs(t.cross),
                g,
            ),
        forall|g: Seq<char>| #[trigger]
            cross_top_members(done.push(t), g) == cross_top_members(done, g) + hits(
                t.name@,
                opt_strs(t.cross_top),
                g,
            ),
{
    assert(done.push(t).drop_last() =~= done);
    assert(done.push(t).last() == t);
    assert(done.push(t).len() == done.len() + 1);
}

/// How often `x` occurs in `s`.
pub open spec fn count_str(s: Seq<Seq<char>>, x: Seq<char>) -> nat
    decreases s.len(),
{
    if s.len() == 0 {
        0
    } else {
        count_str(s.drop_last(), x) + if s.last() == x {
            1nat
        } else {
            0
        }
    }
}

pub proof fn lemma_count_str_concat(a: Seq<Seq<char>>, b: Seq<Seq<char>>, x: Seq<char>)
    ensures
        count_str(a + b, x) == count_str(a, x) + count_str(b, x),
    decreases b.len(),
{
    if b.len() == 0 {
        assert(a + b =~= a);
    } else {
        assert((a + b).drop_last() =~= a + b.drop_last());
        assert((a + b).last() == b.last());
        lemma_count_str_concat(a, b.drop_last(), x);
    }
}

/// `hits` lists `name` exactly as often as `x` occurs in `list`, and lists
/// nothing else.
proof fn lemma_count_hits(name: Seq<char>, list: Seq<String>, x: Seq<char>, nm: Seq<char>)
    ensures
        nm == name ==> count_str(hits(name, list, x), nm) == count_str(strs(list), x),
        nm != name ==> count_str(hits(name, list, x), nm) == 0,
    decreases list.len(),
{
    if list.len() == 0 {
        assert(strs(list) =~= Seq::<Seq<char>>::empty());
        assert(count_str(strs(list), x) == 0);
    } else {
        lemma_count_hits(name, list.drop_last(), x, nm);
        assert(strs(list).drop_last() =~= strs(list.drop_last()));
        assert(strs(list).last() == list.last()@);
        assert(count_str(strs(list), x) == count_str(strs(list.drop_last()), x) + if list.last()@
            == x {
            1nat
        } else {
            0nat
        });
        let h = hits(name, list, x);
        let h0 = hits(name, list.drop_last(), x);
        if list.last()@ == x {
            assert(h == h0 + seq![name]);
            lemma_count_str_concat(h0, seq![name], nm);
            assert(seq![name].drop_last() =~= Seq::<Seq<char>>::empty());
            assert(count_str(Seq::<Seq<char>>::empty(), nm) == 0);
            assert(seq![name].last() == name);
            assert(count_str(seq![name], nm) == if nm == name {
                1nat
            } else {
                0nat
            });
        } else {
            assert(h == h0 + Seq::<Seq<char>>::empty());
            assert(h =~= h0);
        }
    }
}

/// With unique tool names, the membership list of category `x` holds the name
/// of tool `i` exactly as often as that tool declares `x`.
proof fn lemma_count_members(ts: Seq<Tool>, x: Seq<char>, i: int)
    requires
        unique_strs(tool_names(ts)),
        0 <= i < ts.len(),
    ensures
        count_str(category_members(ts, x), ts[i].name@) == count_str(
            strs(opt_strs(ts[i].category)),
            x,
        ),
    decreases ts.len(),
{
    let nm = ts[i].name@;
    let last = ts.last();
    let pre = ts.drop_last();
    assert(tool_names(pre) =~= tool_names(ts).drop_last());
    let h = hits(last.name@, opt_strs(last.category), x);
    lemma_count_str_concat(category_members(pre, x), h, nm);
    if i == ts.len() - 1 {
        lemma_count_hits(last.name@, opt_strs(last.category), x, nm);
        assert forall|hh: int| 0 <= hh < pre.len() implies (#[trigger] tool_names(pre)[hh])
            != nm by {
            assert(tool_names(ts)[hh] == tool_names(pre)[hh]);
            assert(tool_names(ts)[i] == nm);
        }
        lemma_count_members_absent(pre, x, nm);
    } else {
        assert(last.name@ != nm) by {
            assert(tool_names(ts)[ts.len() - 1] == last.name@);
            assert(tool_names(ts)[i] == nm);
        }
        lemma_count_hits(last.name@, opt_strs(last.category), x, nm);
        assert(unique_strs(tool_names(pre))) by {
            assert forall|a: int, b: int| 0 <= a < b < tool_names(pre).len() implies (
            #[trigger] tool_names(pre)[a]) != (#[trigger] tool_names(pre)[b]) by {
                assert(tool_names(ts)[a] == tool_names(pre)[a]);
                assert(tool_names(ts)[b] == tool_names(pre)[b]);
            }
        }
        assert(pre[i] == ts[i]);
        lemma_count_members(pre, x, i);
    }
}

/// A name that no tool bears never enters a membership list.
proof fn lemma_count_members_absent(ts: Seq<Tool>, x: Seq<char>, nm: Seq<char>)
    requires
        forall|h: int| 0 <= h < ts.len() ==> (#[trigger] tool_names(ts)[h]) != nm,
    ensures
        count_str(category_members(ts, x), nm) == 0,
    decreases ts.len(),
{
    if ts.len() > 0 {
        let pre = ts.drop_last();
        assert forall|h: int| 0 <= h < pre.len() implies (#[trigger] tool_names(pre)[h]) != nm by {
            assert(tool_names(ts)[h] == tool_names(pre)[h]);
        }
        lemma_count_members_absent(pre, x, nm);
        assert(tool_names(ts)[ts.len() - 1] == ts.last().name@);
        lemma_count_hits(ts.last().name@, opt_strs(ts.last().category), x, nm);
        lemma_count_str_concat(
            category_members(pre, x),
            hits(ts.last().name@, opt_strs(ts.last().category), x),
            nm,
        );
    }
}

/// A tool cross-listed under `g` appears in that cross listing.
proof fn lemma_cross_members_contains(ts: Seq<Tool>, g: Seq<char>, i: int)
    requires
        0 <= i < ts.len(),
        has_str(opt_strs(ts[i].cross), g),
    ensures
        cross_members(ts, g).contains(ts[i].name@),
    decreases ts.len(),
{
    let pre = ts.drop_last();
    if i == ts.len() - 1 {
        let j = choose|j: int|
            0 <= j < opt_strs(ts[i].cross).len() && opt_strs(ts[i].cross)[j]@ == g;
        lemma_hits_contains(ts[i].name@, opt_strs(ts[i].cross), g, j);
        let h = hits(ts[i].name@, opt_strs(ts[i].cross), g);
        let kk = choose|kk: int| 0 <= kk < h.len() && h[kk] == ts[i].name@;
        assert(cross_members(ts, g)[cross_members(pre, g).len() + kk] == ts[i].name@);
    } else {
        assert(pre[i] == ts[i]);
        lemma_cross_members_contains(pre, g, i);
        let kk = choose|kk: int|
            0 <= kk < cross_members(pre, g).len() && cross_members(pre, g)[kk] == ts[i].name@;
        assert(cross_members(ts, g)[kk] == ts[i].name@);
    }
}

/// A list that holds `x` at `j` contributes `name` to the hits.
proof fn lemma_hits_contains(name: Seq<char>, list: Seq<String>, x: Seq<char>, j: int)
    requires
        0 <= j < list.len(),
        list[j]@ == x,
    ensures
        hits(name, list, x).contains(name),
    decreases list.len(),
{
    if j == list.len() - 1 {
        let h = hits(name, list, x);
        assert(h[hits(name, list.drop_last(), x).len() as int] == name);
    } else {
        lemma_hits_contains(name, list.drop_last(), x, j);
        let h0 = hits(name, list.drop_last(), x);
        let kk = choose|kk: int| 0 <= kk < h0.len() && h0[kk] == name;
        assert(hits(name, list, x)[kk] == name);
    }
}

/// Every tool name and every group name is bound at most once in the resolved
/// catalog, so no input with a duplicate name resolves.
pub proof fn lemma_unique_registration(
    tools_m: StrMap<Tool>,
    data: ToolData,
    groups: Seq<ToolGroup>,
    c: Category,
)
    requires
        resolved(tools_m, data, groups, c),
    ensures
        unique_keys(tools_m@),
        unique_keys(data.index@),
        unique_keys(data.category@),
        unique_keys(data.all@),
        unique_keys(data.cross@),
        unique_strs(tool_names(all_tools(groups))),
{
    let ts = all_tools(groups);
    assert forall|i: int, j: int| 0 <= i < j < ts.len() implies tool_names(ts)[i] != tool_names(
        ts,
    )[j] by {
        assert(tools_m@[i].0 == ts[i].name@);
        assert(tools_m@[j].0 == ts[j].name@);
    }
}

/// No resolved catalog exists for an input where two groups declare one tool
/// name: resolution must have failed instead.
pub proof fn lemma_duplicate_tool_rejected(
    tools_m: StrMap<Tool>,
    data: ToolData,
    groups: Seq<ToolGroup>,
    c: Category,
    n: Seq<char>,
)
    requires
        resolved(tools_m, data, groups, c),
    ensures
        !dup_at(tool_names(all_tools(groups)), n),
{
    lemma_unique_registration(tools_m, data, groups, c);
}

/// A tool that declares membership in category `x` exactly once stands in
/// that category's list exactly once.
pub proof fn lemma_category_membership(
    tools_m: StrMap<Tool>,
    data: ToolData,
    groups: Seq<ToolGroup>,
    c: Category,
    d: int,
    i: int,
)
    requires
        resolved(tools_m, data, groups, c),
        0 <= d < category_decls(c).len(),
        0 <= i < all_tools(groups).len(),
        count_str(
            strs(opt_strs(all_tools(groups)[i].category)),
            category_decls(c)[d].name@,
        ) == 1,
    ensures
        count_str(
            strs(data.category@[d].1.list@),
            all_tools(groups)[i].name@,
        ) == 1,
{
    let ts = all_tools(groups);
    let x = category_decls(c)[d].name@;
    lemma_unique_registration(tools_m, data, groups, c);
    lemma_count_members(ts, x, i);
}

/// A tool that lists itself under cross group `g` appears in `g`'s cross
/// listing.
pub proof fn lemma_cross_listing(
    tools_m: StrMap<Tool>,
    data: ToolData,
    groups: Seq<ToolGroup>,
    c: Category,
    d: int,
    i: int,
)
    requires
        resolved(tools_m, data, groups, c),
        0 <= d < data.index@.len(),
        0 <= i < all_tools(groups).len(),
        has_str(opt_strs(all_tools(groups)[i].cross), data.index@[d].0),
    ensures
        strs(data.index@[d].1.cross_list@).contains(all_tools(groups)[i].name@),
{
    let ts = all_tools(groups);
    let g = data.index@[d].0;
    assert(g == group_name_of(indexed_groups(groups)[d]));
    lemma_cross_members_contains(ts, g, i);
}

/// A group holding one unnamed tool is indexed under that tool's own name,
/// marked single.
pub proof fn lemma_single_group_entry(
    tools_m: StrMap<Tool>,
    data: ToolData,
    groups: Seq<ToolGroup>,
    c: Category,
    gi: int,
)
    requires
        resolved(tools_m, data, groups, c),
        0 <= gi < groups.len(),
        group_is_single(groups[gi]),
    ensures
        exists|p: int|
            0 <= p < data.index@.len() && (#[trigger] data.index@[p]).0
                == groups[gi].list@[0].name@ && data.index@[p].1.single,
{
    assert(group_indexed(groups[gi]));
    lemma_indexed_position(groups, gi);
    let p = indexed_groups(groups.take(gi)).len() as int;
    assert(indexed_groups(groups)[p] == groups[gi]);
    assert(data.index@[p].0 == group_name_of(groups[gi]));
    assert(data.index@[p].1.single == group_is_single(groups[gi]));
}

/// Whether this tile declares a category.
fn tile_is_category(t: &Tile) -> (r: bool)
    ensures
        r == (t.action == TileAction::Category),
{
    match t.action {
        TileAction::Category => true,
        _ => false,
    }
}

} // verus!

use vstd::prelude::*;

use crate::compile::{
    category, category_tab_wf, side_wf, spec_category, spec_classic, spec_major_fragment,
    spec_side, spec_template_tiles, spec_tile_column, spec_tile_grids, spec_tool, spec_tools_plain,
    spec_tools_plain_toc, tile_columns, tile_grids, tile_grids_wf, tile_wf, tiles_wf, toc_wf, tool,
    tool_links_wf, tools_plain, tools_plain_wf, tools_plain_toc,
};
use crate::data::ToolData;
use crate::node::{lemma_nodes_view_concat, lemma_nodes_view_push, nodes_view, NodeV};
use crate::resolve::{
    all_tools, cross_members, cross_top_members, group_tools, hits, indexed_groups, resolvable,
    resolved, tool_groups, tool_names, violation, ResolveError,
};
use crate::schema::{
    tool_links_eq, Category, ClassicRootNode, Side, Tile, TileAction, TileGrids, Tool, ToolGroup,
    ToolLinks,
};
use crate::strmap::{map_contains_key, unique_keys, StrMap};
use crate::subst::Inserts;

verus! {

broadcast use crate::node::lemma_nodes_view_len_auto, crate::node::lemma_nodes_view_index_auto;

/// The content documents of one build, as the schema types.
pub struct PageContent {
    pub public_sides: Vec<Side>,
    pub home_major: Vec<Vec<Tile>>,
    pub home_sides: Vec<Side>,
    pub tools_major: TileGrids,
    pub tools_sides: Vec<Side>,
    pub tools_tools: Vec<ToolGroup>,
    pub tools_category: Category,
    pub legacy_buttons: Vec<ClassicRootNode>,
}

/// A fatal fault found while compiling the content documents.
#[derive(Debug)]
pub enum CodegenError {
    /// A tile misses its style class or its navigation target.
    InvalidTile,
    /// The major grid does not hold three titled blocks with nine tiles in
    /// the third.
    InvalidGrid,
    /// A category tab holds more than four groups.
    InvalidCategoryTab,
    /// A side panel's tiles or template are unusable.
    InvalidSide,
    /// A group misses what the contents line needs, or a tool's websites-tile
    /// list misses its template.
    InvalidGroup,
    /// The catalog did not resolve.
    Resolve(ResolveError),
}

pub open spec fn sides_wf(sides: Seq<Side>) -> bool {
    forall|i: int| 0 <= i < sides.len() ==> side_wf(#[trigger] sides[i])
}

pub open spec fn columns_wf(cols: Seq<Vec<Tile>>) -> bool {
    forall|i: int| 0 <= i < cols.len() ==> tiles_wf((#[trigger] cols[i])@, false)
}

pub open spec fn groups_links_wf(gs: Seq<ToolGroup>) -> bool {
    forall|i: int, j: int|
        0 <= i < gs.len() && 0 <= j < (#[trigger] gs[i]).list@.len() ==> tool_links_wf(
            (#[trigger] gs[i].list@[j]).links,
            false,
        )
}

/// Every document is well-formed enough to compile.
pub open spec fn content_wf(c: PageContent) -> bool {
    &&& sides_wf(c.public_sides@)
    &&& sides_wf(c.home_sides@)
    &&& sides_wf(c.tools_sides@)
    &&& columns_wf(c.home_major@)
    &&& tile_grids_wf(c.tools_major)
    &&& category_tab_wf(c.tools_category.tool.content@)
    &&& category_tab_wf(c.tools_category.link.content@)
    &&& toc_wf(c.tools_tools@)
    &&& groups_links_wf(c.tools_tools@)
}

fn check_tile(t: &Tile, is_category: bool) -> (r: bool)
    ensures
        r == tile_wf(*t, is_category),
{
    (is_category || t.tile.is_some()) && !(matches!(t.action, TileAction::Subdomain)
        && t.subdomain.is_none())
}

fn check_tiles(ts: &Vec<Tile>, is_category: bool) -> (r: bool)
    ensures
        r == tiles_wf(ts@, is_category),
{
    let mut i: usize = 0;
    while i < ts.len()
        invariant
            i <= ts@.len(),
            forall|k: int| 0 <= k < i ==> tile_wf(#[trigger] ts@[k], is_category),
        decreases ts@.len() - i,
    {
        if !check_tile(&ts[i], is_category) {
            return false;
        }
        i += 1;
    }
    true
}

fn check_side(s: &Side) -> (r: bool)
    ensures
        r == side_wf(*s),
{
    match &s.tiles {
        Some(ts) => check_tiles(ts, false),
        None => match &s.templated {
            Some(tt) => {
                let ok = !matches!(tt.template.action, TileAction::Subdomain);
                proof {
                    if ok {
                        assert forall|i: int|
                            0 <= i < spec_template_tiles(*tt).len() implies tile_wf(
                            #[trigger] spec_template_tiles(*tt)[i],
                            false,
                        ) by {}
                    } else {
                        assert(spec_template_tiles(*tt).len() > 0 ==> !tile_wf(
                            spec_template_tiles(*tt)[0],
                            false,
                        ));
                        if spec_template_tiles(*tt).len() == 0 {
                            assert(tiles_wf(spec_template_tiles(*tt), false));
                        }
                    }
                }
                match &tt.tiles {
                    crate::schema::TileTemplateTiles::WithoutTitle(names) => ok || names.len()
                        == 0,
                    crate::schema::TileTemplateTiles::WithTitle(pairs) => ok || pairs.len() == 0,
                }
            },
            None => true,
        },
    }
}

fn check_sides(sides: &Vec<Side>) -> (r: bool)
    ensures
        r == sides_wf(sides@),
{
    let mut i: usize = 0;
    while i < sides.len()
        invariant
            i <= sides@.len(),
            forall|k: int| 0 <= k < i ==> side_wf(#[trigger] sides@[k]),
        decreases sides@.len() - i,
    {
        if !check_side(&sides[i]) {
            return false;
        }
        i += 1;
    }
    true
}

fn check_columns(cols: &Vec<Vec<Tile>>) -> (r: bool)
    ensures
        r == columns_wf(cols@),
{
    let mut i: usize = 0;
    while i < cols.len()
        invariant
            i <= cols@.len(),
            forall|k: int| 0 <= k < i ==> tiles_wf((#[trigger] cols@[k])@, false),
        decreases cols@.len() - i,
    {
        if !check_tiles(&cols[i], false) {
            return false;
        }
        i += 1;
    }
    true
}

fn check_grids(g: &TileGrids) -> (r: bool)
    ensures
        r == tile_grids_wf(*g),
{
    if g.middle.len() != 3 {
        return false;
    }
    if g.middle[2].content.len() != 9 {
        return false;
    }
    check_tiles(&g.left, false) && check_tiles(&g.middle[0].content, false) && check_tiles(
        &g.middle[1].content,
        false,
    ) && check_tiles(&g.middle[2].content, false)
}

fn check_tab(gs: &Vec<crate::schema::CategoryGroup>) -> (r: bool)
    ensures
        r == category_tab_wf(gs@),
{
    if gs.len() > 4 {
        return false;
    }
    let mut i: usize = 0;
    while i < gs.len()
        invariant
            i <= gs@.len(),
            gs@.len() <= 4,
            forall|k: int| 0 <= k < i ==> tiles_wf((#[trigger] gs@[k]).content@, true),
        decreases gs@.len() - i,
    {
        if !check_tiles(&gs[i].content, true) {
            return false;
        }
        i += 1;
    }
    true
}

fn check_links(l: &ToolLinks) -> (r: bool)
    ensures
        r == tool_links_wf(*l, false),
{
    match &l.websites_tile {
        Some(wt) => {
            if wt.len() == 0 {
                true
            } else {
                match &l.websites_tile_template {
                    Some(tpl) => !matches!(tpl.action, TileAction::Subdomain),
                    None => false,
                }
            }
        },
        None => true,
    }
}

fn check_groups(gs: &Vec<ToolGroup>) -> (r: bool)
    ensures
        r == (toc_wf(gs@) && groups_links_wf(gs@)),
{
    let mut i: usize = 0;
    while i < gs.len()
        invariant
            i <= gs@.len(),
            forall|k: int|
                0 <= k < i ==> (((#[trigger] gs@[k]).name is Some && gs@[k].title is Some)
                    || gs@[k].list@.len() > 0),
            forall|k: int, j: int|
                0 <= k < i && 0 <= j < (#[trigger] gs@[k]).list@.len() ==> tool_links_wf(
                    (#[trigger] gs@[k].list@[j]).links,
                    false,
                ),
        decreases gs@.len() - i,
    {
        let g = &gs[i];
        if !((g.name.is_some() && g.title.is_some()) || g.list.len() > 0) {
            return false;
        }
        let mut j: usize = 0;
        while j < g.list.len()
            invariant
                j <= g.list@.len(),
                *g == gs@[i as int],
                i < gs@.len(),
                forall|h: int| 0 <= h < j ==> tool_links_wf(
                    (#[trigger] g.list@[h]).links,
                    false,
                ),
            decreases g.list@.len() - j,
        {
            if !check_links(&g.list[j].links) {
                return false;
            }
            j += 1;
        }
        i += 1;
    }
    true
}

/// Every name in a `hits` listing is the listed tool's name.
proof fn lemma_hits_all_name(name: Seq<char>, list: Seq<String>, x: Seq<char>, j: int)
    requires
        0 <= j < hits(name, list, x).len(),
    ensures
        hits(name, list, x)[j] == name,
    decreases list.len(),
{
    if list.len() > 0 {
        let pre = hits(name, list.drop_last(), x);
        if j < pre.len() {
            lemma_hits_all_name(name, list.drop_last(), x, j);
        }
    }
}

/// Every name in a cross listing is the name of one of the tools.
proof fn lemma_cross_members_names(ts: Seq<Tool>, g: Seq<char>, j: int, top: bool)
    requires
        top ==> 0 <= j < cross_top_members(ts, g).len(),
        !top ==> 0 <= j < cross_members(ts, g).len(),
    ensures
        top ==> exists|h: int|
            0 <= h < ts.len() && (#[trigger] ts[h]).name@ == cross_top_members(ts, g)[j],
        !top ==> exists|h: int|
            0 <= h < ts.len() && (#[trigger] ts[h]).name@ == cross_members(ts, g)[j],
    decreases ts.len(),
{
    if ts.len() > 0 {
        let pre = ts.drop_last();
        let prev = if top {
            cross_top_members(pre, g)
        } else {
            cross_members(pre, g)
        };
        if j < prev.len() {
            lemma_cross_members_names(pre, g, j, top);
            let h = choose|h: int|
                0 <= h < pre.len() && (#[trigger] pre[h]).name@ == (if top {
                    cross_top_members(pre, g)
                } else {
                    cross_members(pre, g)
                })[j];
            assert(ts[h].name@ == (if top {
                cross_top_members(ts, g)
            } else {
                cross_members(ts, g)
            })[j]);
        } else {
            let lst = if top {
                opt_strs_of(ts.last().cross_top)
            } else {
                opt_strs_of(ts.last().cross)
            };
            lemma_hits_all_name(ts.last().name@, lst, g, j - prev.len());
            assert(ts[ts.len() - 1].name@ == (if top {
                cross_top_members(ts, g)
            } else {
                cross_members(ts, g)
            })[j]);
        }
    }
}

pub open spec fn opt_strs_of(o: Option<Vec<String>>) -> Seq<String> {
    crate::resolve::opt_strs(o)
}

/// Every indexed group is one of the groups.
proof fn lemma_indexed_in(groups: Seq<ToolGroup>, i: int)
    requires
        0 <= i < indexed_groups(groups).len(),
    ensures
        exists|p: int| 0 <= p < groups.len() && #[trigger] groups[p] == indexed_groups(groups)[i],
    decreases groups.len(),
{
    if groups.len() > 0 {
        let pre = groups.drop_last();
        if i < indexed_groups(pre).len() {
            lemma_indexed_in(pre, i);
            let p = choose|p: int|
                0 <= p < pre.len() && #[trigger] pre[p] == indexed_groups(pre)[i];
            assert(groups[p] == indexed_groups(groups)[i]);
        } else {
            assert(groups[groups.len() - 1] == indexed_groups(groups)[i]);
        }
    }
}

/// A resolved catalog always renders as a flat document: every listed name is
/// bound, and a single group holds its one tool.
proof fn lemma_resolved_renders(
    tools_m: StrMap<Tool>,
    data: ToolData,
    groups: Seq<ToolGroup>,
    c: Category,
)
    requires
        resolved(tools_m, data, groups, c),
    ensures
        tools_plain_wf(tools_m@, data.cross@, data.index@),
{
    let ts = all_tools(groups);
    let igs = indexed_groups(groups);
    assert forall|i: int| 0 <= i < data.cross@.len() implies unique_keys(
        (#[trigger] data.cross@[i]).1@,
    ) by {
        let cgs = crate::resolve::cross_groups(groups);
        assert(data.cross@.len() == cgs.len());
        assert(data.cross@[i].0 == cgs[i].name->0@);
        assert(unique_keys(data.cross@[i].1@));
    }
    assert forall|i: int, j: int|
        0 <= i < data.index@.len() && 0 <= j < (#[trigger] data.index@[i]).1.list@.len() implies map_contains_key(
        tools_m@,
        (#[trigger] data.index@[i].1.list@[j])@,
    ) by {
        lemma_indexed_in(groups, i);
        let p = choose|p: int| 0 <= p < groups.len() && #[trigger] groups[p] == igs[i];
        assert(crate::resolve::strs(data.index@[i].1.list@) == tool_names(group_tools(igs[i])));
        assert(data.index@[i].1.list@.len() == groups[p].list@.len());
        crate::resolve::lemma_tool_position(groups, p, j);
        let k = all_tools(groups.take(p)).len() + j;
        assert(tool_names(group_tools(igs[i]))[j] == ts[k].name@);
        assert(tools_m@[k].0 == ts[k].name@);
        assert(data.index@[i].1.list@[j]@ == tool_names(group_tools(igs[i]))[j]);
    }
    assert forall|i: int, j: int|
        0 <= i < data.index@.len() && 0 <= j < (#[trigger] data.index@[i]).1.cross_list@.len() implies map_contains_key(
        tools_m@,
        (#[trigger] data.index@[i].1.cross_list@[j])@,
    ) by {
        let g = crate::resolve::group_name_of(igs[i]);
        assert(data.index@[i].1.cross_list@[j]@ == cross_members(ts, g)[j]);
        lemma_cross_members_names(ts, g, j, false);
        let h = choose|h: int|
            0 <= h < ts.len() && (#[trigger] ts[h]).name@ == cross_members(ts, g)[j];
        assert(tools_m@[h].0 == ts[h].name@);
    }
    assert forall|i: int, j: int|
        0 <= i < data.index@.len() && 0 <= j < (
    #[trigger] data.index@[i]).1.cross_top_list@.len() implies map_contains_key(
        tools_m@,
        (#[trigger] data.index@[i].1.cross_top_list@[j])@,
    ) by {
        let g = crate::resolve::group_name_of(igs[i]);
        assert(data.index@[i].1.cross_top_list@[j]@ == cross_top_members(ts, g)[j]);
        lemma_cross_members_names(ts, g, j, true);
        let h = choose|h: int|
            0 <= h < ts.len() && (#[trigger] ts[h]).name@ == cross_top_members(ts, g)[j];
        assert(tools_m@[h].0 == ts[h].name@);
    }
    assert forall|i: int|
        0 <= i < data.index@.len() && (#[trigger] data.index@[i]).1.single implies data.index@[i].1.list@.len()
        >= 1 by {
        assert(data.index@.len() == igs.len());
        assert(data.index@[i].1.single == crate::resolve::group_is_single(igs[i]));
        assert(crate::resolve::group_is_single(igs[i]));
        assert(group_tools(igs[i]).len() == 1);
        assert(tool_names(group_tools(igs[i])).len() == 1);
        assert(crate::resolve::strs(data.index@[i].1.list@) == tool_names(group_tools(igs[i])));
        assert(crate::resolve::strs(data.index@[i].1.list@).len() == data.index@[i].1.list@.len());
    }
}

/// Every flattened tool comes from some group.
proof fn lemma_all_tools_in(groups: Seq<ToolGroup>, k: int)
    requires
        0 <= k < all_tools(groups).len(),
    ensures
        exists|p: int, j: int|
            0 <= p < groups.len() && 0 <= j < (#[trigger] groups[p]).list@.len()
                && all_tools(groups)[k] == crate::resolve::merged_tool(
                #[trigger] groups[p].list@[j],
                groups[p].no_icon,
            ),
    decreases groups.len(),
{
    let pre = groups.drop_last();
    if k < all_tools(pre).len() {
        lemma_all_tools_in(pre, k);
        let (p, j) = choose|p: int, j: int|
            0 <= p < pre.len() && 0 <= j < (#[trigger] pre[p]).list@.len() && all_tools(pre)[k]
                == crate::resolve::merged_tool(#[trigger] pre[p].list@[j], pre[p].no_icon);
        assert(groups[p] == pre[p]);
        assert(all_tools(groups)[k] == all_tools(pre)[k]);
    } else {
        let p = groups.len() - 1;
        let j = k - all_tools(pre).len();
        assert(all_tools(groups)[k] == group_tools(groups.last())[j]);
        assert(groups[p] == groups.last());
        assert(all_tools(groups)[k] == crate::resolve::merged_tool(
            groups[p].list@[j],
            groups[p].no_icon,
        ));
    }
}

/// Equal link payloads are equally compilable.
proof fn lemma_links_wf_eq(a: ToolLinks, b: ToolLinks)
    requires
        tool_links_eq(a, b),
    ensures
        tool_links_wf(a, false) == tool_links_wf(b, false),
{
}

pub open spec fn spec_sides_nodes(ss: Seq<Side>) -> Seq<NodeV> {
    Seq::new(ss.len(), |i: int| spec_side(ss[i]))
}

pub open spec fn spec_home_major_nodes(cols: Seq<Vec<Tile>>) -> Seq<NodeV> {
    Seq::new(cols.len(), |i: int| spec_tile_column(cols[i]@))
}

pub open spec fn spec_tool_widgets(tm: Seq<(Seq<char>, Tool)>) -> Seq<NodeV> {
    Seq::new(tm.len(), |i: int| spec_tool(tm[i].1))
}

/// The generated fragments of one build, keyed by their placeholder tokens:
/// the home tile columns, the home and tool side panels, the tool widgets and
/// major templates, the flat catalog document, and the legacy page body.
pub open spec fn spec_codegen_inserts(
    c: PageContent,
    tm: Seq<(Seq<char>, Tool)>,
    data: ToolData,
) -> Seq<(Seq<char>, Seq<char>)> {
    seq![
        (
            "<!--{{codegen-home-major}}-->"@,
            crate::node::spec_render_nodes(spec_home_major_nodes(c.home_major@)),
        ),
        (
            "<!--{{codegen-home-fragments}}-->"@,
            crate::node::spec_render_nodes(
                spec_sides_nodes(c.home_sides@) + spec_sides_nodes(c.public_sides@),
            ),
        ),
        (
            "<!--{{codegen-tool-fragments}}-->"@,
            crate::node::spec_render_nodes(
                spec_sides_nodes(c.tools_sides@) + spec_sides_nodes(c.public_sides@)
                    + spec_tool_widgets(tm) + seq![
                    spec_major_fragment(spec_tile_grids(c.tools_major), "tiles"@),
                    spec_major_fragment(spec_category(c.tools_category), "category"@),
                ],
            ),
        ),
        (
            "<!--{{codegen-tool-plain}}-->"@,
            crate::node::spec_render_nodes(
                spec_tools_plain_toc(c.tools_tools@) + spec_tools_plain(
                    tm,
                    data.cross@,
                    data.index@,
                ),
            ),
        ),
        (
            "<!--{{codegen-legacy-buttons}}-->"@,
            crate::node::spec_render_nodes(spec_classic(c.legacy_buttons@)),
        ),
    ]
}

/// Compiles the content documents: resolves the catalog, compiles every
/// fragment, and returns the placeholder table beside the resolved catalog.
/// Exactly the well-formed, resolvable inputs succeed.
#[verifier::rlimit(100)]
pub fn codegen(content: &PageContent) -> (r: Result<
    (Inserts, StrMap<Tool>, ToolData),
    CodegenError,
>)
    ensures
        match r {
            Ok(out) => {
                &&& content_wf(*content)
                &&& resolved(out.1, out.2, content.tools_tools@, content.tools_category)
                &&& crate::subst::pairs_views(out.0@) == spec_codegen_inserts(
                    *content,
                    out.1@,
                    out.2,
                )
            },
            Err(e) => match e {
                CodegenError::Resolve(re) => violation(
                    re,
                    content.tools_tools@,
                    content.tools_category,
                ),
                _ => !content_wf(*content),
            },
        },
        content_wf(*content) && resolvable(content.tools_tools@, content.tools_category) ==> r
            is Ok,
{
    if !(check_sides(&content.public_sides) && check_sides(&content.home_sides) && check_sides(
        &content.tools_sides,
    )) {
        return Err(CodegenError::InvalidSide);
    }
    if !check_columns(&content.home_major) {
        return Err(CodegenError::InvalidTile);
    }
    if !check_grids(&content.tools_major) {
        return Err(CodegenError::InvalidGrid);
    }
    if !(check_tab(&content.tools_category.tool.content) && check_tab(
        &content.tools_category.link.content,
    )) {
        return Err(CodegenError::InvalidCategoryTab);
    }
    if !check_groups(&content.tools_tools) {
        return Err(CodegenError::InvalidGroup);
    }
    let (tools_m, tool_data) = match tool_groups(&content.tools_tools, &content.tools_category) {
        Ok(p) => p,
        Err(e) => {
            return Err(CodegenError::Resolve(e));
        },
    };
    let ghost ts = all_tools(content.tools_tools@);

    let home_major_nodes = tile_columns(&content.home_major);
    proof {
        assert(nodes_view(home_major_nodes@) =~~= spec_home_major_nodes(content.home_major@));
    }
    let home_major_text = crate::node::render_nodes(&home_major_nodes);

    let mut home_frag_nodes = crate::compile::sides_to_nodes(&content.home_sides);
    let mut pub_nodes = crate::compile::sides_to_nodes(&content.public_sides);
    let ghost hf0 = home_frag_nodes@;
    let ghost pb0 = pub_nodes@;
    home_frag_nodes.append(&mut pub_nodes);
    proof {
        lemma_nodes_view_concat(hf0, pb0);
        assert(nodes_view(hf0) =~~= spec_sides_nodes(content.home_sides@));
        assert(nodes_view(pb0) =~~= spec_sides_nodes(content.public_sides@));
    }
    let home_frag_text = crate::node::render_nodes(&home_frag_nodes);

    let mut tool_frag_nodes = crate::compile::sides_to_nodes(&content.tools_sides);
    let mut pub_nodes2 = crate::compile::sides_to_nodes(&content.public_sides);
    let ghost tf0 = tool_frag_nodes@;
    let ghost pb1 = pub_nodes2@;
    tool_frag_nodes.append(&mut pub_nodes2);
    proof {
        lemma_nodes_view_concat(tf0, pb1);
        assert(nodes_view(tf0) =~~= spec_sides_nodes(content.tools_sides@));
        assert(nodes_view(pb1) =~~= spec_sides_nodes(content.public_sides@));
    }
    let ghost base_frag = nodes_view(tool_frag_nodes@);
    let mut wi: usize = 0;
    while wi < tools_m.len()
        invariant
            wi <= tools_m@.len(),
            content_wf(*content),
            resolved(tools_m, tool_data, content.tools_tools@, content.tools_category),
            ts == all_tools(content.tools_tools@),
            nodes_view(tool_frag_nodes@) == base_frag + spec_tool_widgets(tools_m@.take(wi as int)),
        decreases tools_m@.len() - wi,
    {
        let t = tools_m.value_at(wi);
        proof {
            assert(crate::schema::tool_eq(tools_m@[wi as int].1, ts[wi as int]));
            lemma_all_tools_in(content.tools_tools@, wi as int);
            let (p, j) = choose|p: int, j: int|
                0 <= p < content.tools_tools@.len() && 0 <= j < (
                #[trigger] content.tools_tools@[p]).list@.len() && ts[wi as int]
                    == crate::resolve::merged_tool(
                    #[trigger] content.tools_tools@[p].list@[j],
                    content.tools_tools@[p].no_icon,
                );
            assert(tool_links_wf(content.tools_tools@[p].list@[j].links, false));
            assert(ts[wi as int].links == content.tools_tools@[p].list@[j].links);
            lemma_links_wf_eq(tools_m@[wi as int].1.links, ts[wi as int].links);
            assert(tool_links_wf(t.links, false));
        }
        let n = tool(t);
        proof {
            lemma_nodes_view_push(tool_frag_nodes@, n);
            assert(spec_tool_widgets(tools_m@.take(wi + 1 as int)) =~= spec_tool_widgets(
                tools_m@.take(wi as int),
            ).push(spec_tool(tools_m@[wi as int].1)));
        }
        tool_frag_nodes.push(n);
        wi += 1;
    }
    proof {
        assert(tools_m@.take(tools_m@.len() as int) =~= tools_m@);
        assert(spec_tool_widgets(tools_m@.take(tools_m@.len() as int)) =~= spec_tool_widgets(
            tools_m@,
        ));
    }
    let grids = tile_grids(&content.tools_major);
    let mf1 = crate::compile::major_fragment(grids, "tiles");
    proof {
        lemma_nodes_view_push(tool_frag_nodes@, mf1);
    }
    tool_frag_nodes.push(mf1);
    let cat_nodes = category(&content.tools_category);
    let mf2 = crate::compile::major_fragment(cat_nodes, "category");
    proof {
        lemma_nodes_view_push(tool_frag_nodes@, mf2);
    }
    tool_frag_nodes.push(mf2);
    proof {
        assert(nodes_view(tool_frag_nodes@) =~~= spec_sides_nodes(content.tools_sides@)
            + spec_sides_nodes(content.public_sides@) + spec_tool_widgets(tools_m@) + seq![
            spec_major_fragment(spec_tile_grids(content.tools_major), "tiles"@),
            spec_major_fragment(spec_category(content.tools_category), "category"@),
        ]);
    }
    let tool_frag_text = crate::node::render_nodes(&tool_frag_nodes);

    let mut plain_nodes = tools_plain_toc(&content.tools_tools);
    proof {
        lemma_resolved_renders(tools_m, tool_data, content.tools_tools@, content.tools_category);
    }
    let mut plain_rest = tools_plain(&tools_m, &tool_data.index, &tool_data.cross);
    let ghost pl0 = plain_nodes@;
    let ghost pl1 = plain_rest@;
    plain_nodes.append(&mut plain_rest);
    proof {
        lemma_nodes_view_concat(pl0, pl1);
    }
    let plain_text = crate::node::render_nodes(&plain_nodes);

    let legacy_nodes = crate::compile::classic(&content.legacy_buttons);
    let legacy_text = crate::node::render_nodes(&legacy_nodes);

    let mut inserts: Inserts = Vec::new();
    inserts.push(("<!--{{codegen-home-major}}-->".to_owned(), home_major_text));
    inserts.push(("<!--{{codegen-home-fragments}}-->".to_owned(), home_frag_text));
    inserts.push(("<!--{{codegen-tool-fragments}}-->".to_owned(), tool_frag_text));
    inserts.push(("<!--{{codegen-tool-plain}}-->".to_owned(), plain_text));
    inserts.push(("<!--{{codegen-legacy-buttons}}-->".to_owned(), legacy_text));
    proof {
        assert(crate::subst::pairs_views(inserts@) =~~= spec_codegen_inserts(
            *content,
            tools_m@,
            tool_data,
        ));
    }
    Ok((inserts, tools_m, tool_data))
}

} // verus!

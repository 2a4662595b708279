use vstd::prelude::*;

use crate::node::{
    attrs_view, lemma_nodes_view_concat, lemma_nodes_view_push, node_view, nodes_view, AttrKey,
    Node, NodeV, Tag,
};
use crate::data::{ToolCross, ToolIndex, ToolIndexItem};
use crate::resolve::{group_name_of, group_title_of};
use crate::strmap::{lemma_unique_key_at, map_contains_key, map_value_of, unique_keys, StrMap};
use crate::schema::{
    spec_font_tag, spec_tool_icon_emoji, spec_tool_link_prefix, spec_tool_website_type,
    tool_icon_emoji, tool_link_prefix, tool_website_type, Category, CategoryGroup, ClassicButton,
    ClassicList, ClassicRootNode, ClassicSubNode, ClassicText, Side, Tile, TileAction, TileFont,
    TileGrids, TileTemplate, TileTemplateInner, TileTemplateTiles, Tool, ToolGroup, ToolLink,
    ToolLinkIcon, ToolLinkTitle, ToolLinkType, ToolLinks,
};
use crate::text::{cat2, cat3, cat5};

verus! {

broadcast use crate::node::lemma_nodes_view_len_auto, crate::node::lemma_nodes_view_index_auto;

/// The float-clearing spacer appended after tile runs.
pub open spec fn spec_clearfix() -> NodeV {
    NodeV::Element {
        tag: Tag::Div,
        attrs: seq![(AttrKey::Class, "clearfix"@)],
        children: Seq::empty(),
    }
}

pub fn make_clearfix() -> (r: Node)
    ensures
        r@ == spec_clearfix(),
{
    let r = Node::Element {
        tag: Tag::Div,
        attrs: vec![(AttrKey::Class, "clearfix".to_owned())],
        children: Vec::new(),
    };
    proof {
        assert(r@ =~~= spec_clearfix());
    }
    r
}

/// An inline icon: an `svg` of the given class wrapping a `use` reference.
pub open spec fn spec_svg_icon(icon: Seq<char>, class_name: Seq<char>) -> NodeV {
    NodeV::Element {
        tag: Tag::Svg,
        attrs: seq![(AttrKey::Class, class_name)],
        children: seq![
            NodeV::Element {
                tag: Tag::Use,
                attrs: seq![(AttrKey::Href, "#icon-"@ + icon)],
                children: Seq::empty(),
            },
        ],
    }
}

pub fn svg_icon(icon: &str, class_name: &str) -> (r: Node)
    ensures
        r@ == spec_svg_icon(icon@, class_name@),
{
    let use_node = Node::Element {
        tag: Tag::Use,
        attrs: vec![(AttrKey::Href, cat2("#icon-", icon))],
        children: Vec::new(),
    };
    proof {
        assert(use_node@ =~~= (NodeV::Element {
            tag: Tag::Use,
            attrs: seq![(AttrKey::Href, "#icon-"@ + icon@)],
            children: Seq::empty(),
        }));
    }
    let r = Node::Element {
        tag: Tag::Svg,
        attrs: vec![(AttrKey::Class, class_name.to_owned())],
        children: vec![use_node],
    };
    proof {
        assert(nodes_view(r->Element_children@) =~~= seq![node_view(r->Element_children@[0])]);
        assert(r@ =~~= spec_svg_icon(icon@, class_name@));
    }
    r
}

/// The mathematical model of a tile: each text field as a character
/// sequence.
#[verifier::ext_equal]
pub struct TileV {
    pub tile: Option<Seq<char>>,
    pub font: Option<TileFont>,
    pub action: TileAction,
    pub icon_type: Option<Seq<char>>,
    pub name: Seq<char>,
    pub title: Option<Seq<char>>,
    pub icon: Option<Seq<char>>,
    pub path: Option<Seq<char>>,
    pub subdomain: Option<Seq<char>>,
}

pub open spec fn opt_view(o: Option<String>) -> Option<Seq<char>> {
    match o {
        Some(s) => Some(s@),
        None => None,
    }
}

pub open spec fn tile_view(t: Tile) -> TileV {
    TileV {
        tile: opt_view(t.tile),
        font: t.font,
        action: t.action,
        icon_type: opt_view(t.icon_type),
        name: t.name@,
        title: opt_view(t.title),
        icon: opt_view(t.icon),
        path: opt_view(t.path),
        subdomain: opt_view(t.subdomain),
    }
}

/// The style class of a tile's container.
pub open spec fn spec_class_name(t: TileV, is_category: bool) -> Seq<char> {
    if is_category {
        "category-item"@
    } else {
        "tile "@ + t.tile->0
    }
}

/// The icon-type infix of a tile's image path.
pub open spec fn spec_icon_suffix(t: TileV) -> Seq<char> {
    match t.icon_type {
        Some(s) => "-"@ + s,
        None => Seq::empty(),
    }
}

/// The image source URL of a tile, under the asset-host placeholder.
pub open spec fn spec_img_src(t: TileV) -> Seq<char> {
    "{{ASSERT}}/image/icon"@ + spec_icon_suffix(t) + "/"@ + (match t.icon {
        Some(i) => i,
        None => t.name,
    }) + ".webp"@
}

pub open spec fn spec_img_attrs(t: TileV) -> Seq<(AttrKey, Seq<char>)> {
    seq![(AttrKey::Src, spec_img_src(t))] + (match t.title {
        Some(title) => seq![(AttrKey::Alt, title)],
        None => Seq::empty(),
    })
}

/// The caption block under a tile's image.
pub open spec fn spec_caption(t: TileV, is_category: bool) -> Seq<NodeV> {
    if is_category {
        match t.title {
            Some(title) => seq![
                NodeV::Element {
                    tag: Tag::Span,
                    attrs: Seq::empty(),
                    children: seq![NodeV::Text { text: title }],
                },
            ],
            None => Seq::empty(),
        }
    } else {
        match (t.font, t.title) {
            (Some(f), Some(title)) => seq![
                NodeV::Element {
                    tag: spec_font_tag(f),
                    attrs: Seq::empty(),
                    children: seq![NodeV::Text { text: title }],
                },
            ],
            _ => Seq::empty(),
        }
    }
}

/// The image-and-caption block shared by every tile variant.
pub open spec fn spec_tile_img(t: TileV, is_category: bool) -> NodeV {
    NodeV::Element { tag: Tag::Img, attrs: spec_img_attrs(t), children: spec_caption(t, is_category) }
}

/// The click-handler text of an interactive tile: the action name applied to
/// the tile's slug.
pub open spec fn spec_call_attr(func: Seq<char>, name: Seq<char>) -> Seq<char> {
    func + "('"@ + name + "')"@
}

/// The link target of a navigation tile.
pub open spec fn spec_link_href(t: TileV) -> Seq<char> {
    match t.action {
        TileAction::Path => match t.path {
            Some(p) => p,
            None => "/"@ + t.name + "/"@,
        },
        TileAction::Subdomain => "//"@ + t.subdomain->0 + ".pc.wiki/"@,
        TileAction::R => "//r.ldt.pc.wiki/r/"@ + t.name + "/"@,
        TileAction::R2 => "//r.ldt.pc.wiki/r2/"@ + t.name + "/"@,
        _ => Seq::empty(),
    }
}

pub open spec fn spec_action_func(a: TileAction) -> Seq<char> {
    match a {
        TileAction::Side => "side"@,
        TileAction::Tool => "tool"@,
        TileAction::Category => "category"@,
        TileAction::Copy => "copy"@,
        _ => Seq::empty(),
    }
}

pub open spec fn action_is_call(a: TileAction) -> bool {
    a == TileAction::Side || a == TileAction::Tool || a == TileAction::Category || a
        == TileAction::Copy
}

pub open spec fn action_is_link(a: TileAction) -> bool {
    a == TileAction::Path || a == TileAction::Subdomain || a == TileAction::R || a == TileAction::R2
}

/// What a tile compiles to: an anchor around a styled container for the
/// navigation actions, a container with a click handler for the interactive
/// actions, and a bare container for the no-op action. The image block is
/// shared by all variants.
pub open spec fn spec_tile_inner(t: TileV, is_category: bool) -> NodeV {
    let inner = spec_tile_img(t, is_category);
    let class_name = spec_class_name(t, is_category);
    if action_is_call(t.action) {
        NodeV::Element {
            tag: Tag::Div,
            attrs: seq![
                (AttrKey::Class, class_name),
                (AttrKey::Onclick, spec_call_attr(spec_action_func(t.action), t.name)),
            ],
            children: seq![inner],
        }
    } else if action_is_link(t.action) {
        NodeV::Element {
            tag: Tag::A,
            attrs: seq![
                (AttrKey::Target, "_blank"@),
                (AttrKey::Class, "tile-link"@),
                (AttrKey::Href, spec_link_href(t)),
            ],
            children: seq![
                NodeV::Element {
                    tag: Tag::Div,
                    attrs: seq![(AttrKey::Class, class_name)],
                    children: seq![inner],
                },
            ],
        }
    } else {
        NodeV::Element {
            tag: Tag::Div,
            attrs: seq![(AttrKey::Class, class_name)],
            children: seq![inner],
        }
    }
}

/// A tile that can be compiled: styled unless it sits in a category listing,
/// and carrying the target its action navigates to.
pub open spec fn tile_wf_v(t: TileV, is_category: bool) -> bool {
    &&& (is_category || t.tile is Some)
    &&& (t.action == TileAction::Subdomain ==> t.subdomain is Some)
}

pub open spec fn tile_wf(t: Tile, is_category: bool) -> bool {
    tile_wf_v(tile_view(t), is_category)
}

/// The caption block of one tile.
fn tile_caption(t: &Tile, is_category: bool) -> (r: Vec<Node>)
    ensures
        nodes_view(r@) == spec_caption(tile_view(*t), is_category),
{
    if is_category {
        match &t.title {
            Some(title) => {
                let txt = Node::Text { text: title.clone() };
                let span = Node::Element { tag: Tag::Span, attrs: Vec::new(), children: vec![txt] };
                proof {
                    assert(nodes_view(span->Element_children@) =~~= seq![
                        NodeV::Text { text: t.title->0@ },
                    ]);
                    assert(attrs_view(span->Element_attrs@) =~~= Seq::<(AttrKey, Seq<char>)>::empty());
                }
                let r = vec![span];
                proof {
                    assert(nodes_view(r@) =~~= spec_caption(tile_view(*t), is_category));
                }
                r
            },
            None => {
                let r: Vec<Node> = Vec::new();
                proof {
                    assert(nodes_view(r@) =~~= spec_caption(tile_view(*t), is_category));
                }
                r
            },
        }
    } else {
        match (&t.font, &t.title) {
            (Some(f), Some(title)) => {
                let txt = Node::Text { text: title.clone() };
                let cap = Node::Element {
                    tag: f.into_tag(),
                    attrs: Vec::new(),
                    children: vec![txt],
                };
                proof {
                    assert(nodes_view(cap->Element_children@) =~~= seq![
                        NodeV::Text { text: t.title->0@ },
                    ]);
                    assert(attrs_view(cap->Element_attrs@) =~~= Seq::<(AttrKey, Seq<char>)>::empty());
                }
                let r = vec![cap];
                proof {
                    assert(nodes_view(r@) =~~= spec_caption(tile_view(*t), is_category));
                }
                r
            },
            _ => {
                let r: Vec<Node> = Vec::new();
                proof {
                    assert(nodes_view(r@) =~~= spec_caption(tile_view(*t), is_category));
                }
                r
            },
        }
    }
}

/// The image-and-caption block of one tile.
fn tile_img(t: &Tile, is_category: bool) -> (r: Node)
    ensures
        r@ == spec_tile_img(tile_view(*t), is_category),
{
    let icon_suffix = match &t.icon_type {
        Some(s) => cat2("-", s.as_str()),
        None => String::new(),
    };
    proof {
        assert(icon_suffix@ == spec_icon_suffix(tile_view(*t)));
    }
    let src = {
        let base = match &t.icon {
            Some(i) => i.as_str(),
            None => t.name.as_str(),
        };
        cat5("{{ASSERT}}/image/icon", icon_suffix.as_str(), "/", base, ".webp")
    };
    proof {
        assert(src@ == spec_img_src(tile_view(*t)));
    }
    let mut img_attrs: Vec<(AttrKey, String)> = vec![(AttrKey::Src, src)];
    match &t.title {
        Some(title) => {
            img_attrs.push((AttrKey::Alt, title.clone()));
        },
        None => (),
    }
    proof {
        assert(attrs_view(img_attrs@) =~~= spec_img_attrs(tile_view(*t)));
    }
    let caption = tile_caption(t, is_category);
    let r = Node::Element { tag: Tag::Img, attrs: img_attrs, children: caption };
    proof {
        assert(r@ =~~= spec_tile_img(tile_view(*t), is_category));
    }
    r
}

/// Compiles one tile, as a page tile or as a category listing entry.
pub fn tile_inner(t: &Tile, is_category: bool) -> (r: Node)
    requires
        tile_wf(*t, is_category),
    ensures
        r@ == spec_tile_inner(tile_view(*t), is_category),
{
    let class_name = if is_category {
        "category-item".to_owned()
    } else {
        match &t.tile {
            Some(s) => cat2("tile ", s.as_str()),
            None => String::new(),
        }
    };
    proof {
        assert(class_name@ == spec_class_name(tile_view(*t), is_category));
    }
    let inner = tile_img(t, is_category);
    let r = match t.action {
        TileAction::Side | TileAction::Tool | TileAction::Category | TileAction::Copy => {
            let func = match t.action {
                TileAction::Side => "side",
                TileAction::Tool => "tool",
                TileAction::Category => "category",
                _ => "copy",
            };
            let onclick = cat3(func, "('", cat2(t.name.as_str(), "')").as_str());
            proof {
                assert(onclick@ =~= spec_call_attr(spec_action_func(t.action), t.name@));
            }
            let n = Node::Element {
                tag: Tag::Div,
                attrs: vec![(AttrKey::Class, class_name), (AttrKey::Onclick, onclick)],
                children: vec![inner],
            };
            proof {
                assert(nodes_view(n->Element_children@) =~~= seq![
                    spec_tile_img(tile_view(*t), is_category),
                ]);
                assert(n@ =~~= spec_tile_inner(tile_view(*t), is_category));
            }
            n
        },
        TileAction::Path | TileAction::Subdomain | TileAction::R | TileAction::R2 => {
            let href = match t.action {
                TileAction::Path => match &t.path {
                    Some(p) => p.clone(),
                    None => cat3("/", t.name.as_str(), "/"),
                },
                TileAction::Subdomain => match &t.subdomain {
                    Some(s) => cat3("//", s.as_str(), ".pc.wiki/"),
                    None => String::new(),
                },
                TileAction::R => cat3("//r.ldt.pc.wiki/r/", t.name.as_str(), "/"),
                _ => cat3("//r.ldt.pc.wiki/r2/", t.name.as_str(), "/"),
            };
            proof {
                assert(href@ == spec_link_href(tile_view(*t)));
            }
            let box_node = Node::Element {
                tag: Tag::Div,
                attrs: vec![(AttrKey::Class, class_name)],
                children: vec![inner],
            };
            proof {
                assert(nodes_view(box_node->Element_children@) =~~= seq![
                    spec_tile_img(tile_view(*t), is_category),
                ]);
                assert(box_node@ =~~= (NodeV::Element {
                    tag: Tag::Div,
                    attrs: seq![(AttrKey::Class, spec_class_name(tile_view(*t), is_category))],
                    children: seq![spec_tile_img(tile_view(*t), is_category)],
                }));
            }
            let n = Node::Element {
                tag: Tag::A,
                attrs: vec![
                    (AttrKey::Target, "_blank".to_owned()),
                    (AttrKey::Class, "tile-link".to_owned()),
                    (AttrKey::Href, href),
                ],
                children: vec![box_node],
            };
            proof {
                assert(nodes_view(n->Element_children@) =~~= seq![node_view(
                    n->Element_children@[0],
                )]);
                assert(n@ =~~= spec_tile_inner(tile_view(*t), is_category));
            }
            n
        },
        TileAction::NoOp => {
            let n = Node::Element {
                tag: Tag::Div,
                attrs: vec![(AttrKey::Class, class_name)],
                children: vec![inner],
            };
            proof {
                assert(nodes_view(n->Element_children@) =~~= seq![
                    spec_tile_img(tile_view(*t), is_category),
                ]);
                assert(n@ =~~= spec_tile_inner(tile_view(*t), is_category));
            }
            n
        },
    };
    r
}

/// Compiles one page tile.
pub fn tile(t: &Tile) -> (r: Node)
    requires
        tile_wf(*t, false),
    ensures
        r@ == spec_tile_inner(tile_view(*t), false),
{
    tile_inner(t, false)
}

/// Compiles one category listing entry.
pub fn category_item(t: &Tile) -> (r: Node)
    requires
        tile_wf(*t, true),
    ensures
        r@ == spec_tile_inner(tile_view(*t), true),
{
    tile_inner(t, true)
}

pub open spec fn tiles_wf(ts: Seq<Tile>, is_category: bool) -> bool {
    forall|i: int| 0 <= i < ts.len() ==> tile_wf(#[trigger] ts[i], is_category)
}

/// The tiles of a list, compiled in order.
pub open spec fn spec_tiles(ts: Seq<Tile>, is_category: bool) -> Seq<NodeV> {
    Seq::new(ts.len(), |i: int| spec_tile_inner(tile_view(ts[i]), is_category))
}

/// Compiles a list of tiles in order.
pub fn tiles_to_nodes(ts: &Vec<Tile>, is_category: bool) -> (r: Vec<Node>)
    requires
        tiles_wf(ts@, is_category),
    ensures
        nodes_view(r@) == spec_tiles(ts@, is_category),
{
    let mut r: Vec<Node> = Vec::new();
    let mut i: usize = 0;
    proof {
        assert(nodes_view(r@) =~= spec_tiles(ts@.take(0), is_category));
    }
    while i < ts.len()
        invariant
            i <= ts@.len(),
            tiles_wf(ts@, is_category),
            nodes_view(r@) == spec_tiles(ts@.take(i as int), is_category),
        decreases ts@.len() - i,
    {
        let n = tile_inner(&ts[i], is_category);
        proof {
            lemma_nodes_view_push(r@, n);
        }
        r.push(n);
        proof {
            assert(spec_tiles(ts@.take(i + 1 as int), is_category) =~= spec_tiles(
                ts@.take(i as int),
                is_category,
            ).push(spec_tile_inner(tile_view(ts@[i as int]), is_category)));
        }
        i += 1;
    }
    proof {
        assert(ts@.take(ts@.len() as int) =~= ts@);
        assert(spec_tiles(ts@.take(ts@.len() as int), is_category) =~= spec_tiles(
            ts@,
            is_category,
        ));
    }
    r
}

/// One tile stamped from a template: the template's shared style fields, the
/// entry's own name and optional title, nothing else.
pub open spec fn spec_template_tile(tpl: TileTemplateInner, name: String, title: Option<
    String,
>) -> Tile {
    Tile {
        tile: Some(tpl.tile),
        font: tpl.font,
        action: tpl.action,
        icon_type: tpl.icon_type,
        name,
        title,
        icon: None,
        path: None,
        subdomain: None,
    }
}

/// A template's full expansion, in declaration order.
pub open spec fn spec_template_tiles(t: TileTemplate) -> Seq<Tile> {
    match t.tiles {
        TileTemplateTiles::WithoutTitle(names) => Seq::new(
            names@.len(),
            |i: int| spec_template_tile(t.template, names@[i], None),
        ),
        TileTemplateTiles::WithTitle(pairs) => Seq::new(
            pairs@.len(),
            |i: int| spec_template_tile(t.template, pairs@[i].0, Some(pairs@[i].1)),
        ),
    }
}

/// Expands a template into one tile per listed entry. Expansion preserves the
/// declaration order; every tile carries its own copy of the template's style
/// and its entry's name and title.
pub fn tile_template(t: &TileTemplate) -> (r: Vec<Tile>)
    ensures
        r@ == spec_template_tiles(*t),
{
    let mut r: Vec<Tile> = Vec::new();
    match &t.tiles {
        TileTemplateTiles::WithoutTitle(names) => {
            let mut i: usize = 0;
            while i < names.len()
                invariant
                    i <= names@.len(),
                    t.tiles == TileTemplateTiles::WithoutTitle(*names),
                    r@ =~= Seq::new(
                        i as nat,
                        |k: int| spec_template_tile(t.template, names@[k], None),
                    ),
                decreases names@.len() - i,
            {
                let tpl = t.template.clone();
                r.push(
                    Tile {
                        tile: Some(tpl.tile),
                        font: tpl.font,
                        action: tpl.action,
                        icon_type: tpl.icon_type,
                        name: names[i].clone(),
                        title: None,
                        icon: None,
                        path: None,
                        subdomain: None,
                    },
                );
                i += 1;
            }
        },
        TileTemplateTiles::WithTitle(pairs) => {
            let mut i: usize = 0;
            while i < pairs.len()
                invariant
                    i <= pairs@.len(),
                    t.tiles == TileTemplateTiles::WithTitle(*pairs),
                    r@ =~= Seq::new(
                        i as nat,
                        |k: int| spec_template_tile(t.template, pairs@[k].0, Some(pairs@[k].1)),
                    ),
                decreases pairs@.len() - i,
            {
                let tpl = t.template.clone();
                r.push(
                    Tile {
                        tile: Some(tpl.tile),
                        font: tpl.font,
                        action: tpl.action,
                        icon_type: tpl.icon_type,
                        name: pairs[i].0.clone(),
                        title: Some(pairs[i].1.clone()),
                        icon: None,
                        path: None,
                        subdomain: None,
                    },
                );
                i += 1;
            }
        },
    }
    proof {
        assert(r@ =~= spec_template_tiles(*t));
    }
    r
}

/// One column of home-page tiles.
pub open spec fn spec_tile_column(ts: Seq<Tile>) -> NodeV {
    NodeV::Element {
        tag: Tag::Div,
        attrs: seq![(AttrKey::Class, "tile-column"@)],
        children: spec_tiles(ts, false),
    }
}

/// Compiles the home page's tile columns, one `div` per column.
pub fn tile_columns(input: &Vec<Vec<Tile>>) -> (r: Vec<Node>)
    requires
        forall|i: int| 0 <= i < input@.len() ==> tiles_wf((#[trigger] input@[i])@, false),
    ensures
        r@.len() == input@.len(),
        forall|i: int|
            0 <= i < input@.len() ==> node_view(#[trigger] r@[i]) == spec_tile_column(
                input@[i]@,
            ),
{
    let mut r: Vec<Node> = Vec::new();
    let mut i: usize = 0;
    while i < input.len()
        invariant
            i <= input@.len(),
            r@.len() == i,
            forall|k: int|
                0 <= k < i ==> node_view(#[trigger] r@[k]) == spec_tile_column(input@[k]@),
            forall|k: int| 0 <= k < input@.len() ==> tiles_wf((#[trigger] input@[k])@, false),
        decreases input@.len() - i,
    {
        let children = tiles_to_nodes(&input[i], false);
        let n = Node::Element {
            tag: Tag::Div,
            attrs: vec![(AttrKey::Class, "tile-column".to_owned())],
            children,
        };
        proof {
            assert(node_view(n) =~~= spec_tile_column(input@[i as int]@));
        }
        r.push(n);
        i += 1;
    }
    r
}

/// A named `template` element holding compiled content plus a trailing
/// spacer.
pub open spec fn spec_major_fragment(inner: Seq<NodeV>, template_id: Seq<char>) -> NodeV {
    NodeV::Element {
        tag: Tag::Template,
        attrs: seq![(AttrKey::Id, "major-"@ + template_id)],
        children: inner.push(spec_clearfix()),
    }
}

pub fn major_fragment(inner: Vec<Node>, template_id: &str) -> (r: Node)
    ensures
        r@ == spec_major_fragment(nodes_view(inner@), template_id@),
{
    let ghost inner0 = inner@;
    let mut inner = inner;
    let cf = make_clearfix();
    proof {
        lemma_nodes_view_push(inner@, cf);
    }
    inner.push(cf);
    let r = Node::Element {
        tag: Tag::Template,
        attrs: vec![(AttrKey::Id, cat2("major-", template_id))],
        children: inner,
    };
    proof {
        assert(r@ =~~= spec_major_fragment(nodes_view(inner0), template_id@));
    }
    r
}

/// The tiles a side panel shows: its explicit list, or its template's
/// expansion.
pub open spec fn spec_side_tiles(s: Side) -> Option<Seq<Tile>> {
    match s.tiles {
        Some(ts) => Some(ts@),
        None => match s.templated {
            Some(tt) => Some(spec_template_tiles(tt)),
            None => None,
        },
    }
}

pub open spec fn side_wf(s: Side) -> bool {
    match spec_side_tiles(s) {
        Some(ts) => tiles_wf(ts, false),
        None => true,
    }
}

/// A side panel's content: its tiles and a spacer, then its optional text
/// block in one of two sizes.
pub open spec fn spec_side_content(s: Side) -> Seq<NodeV> {
    (match spec_side_tiles(s) {
        Some(ts) => spec_tiles(ts, false).push(spec_clearfix()),
        None => Seq::empty(),
    }) + (match s.text {
        Some(txt) => seq![
            NodeV::Element {
                tag: Tag::Div,
                attrs: seq![
                    (
                        AttrKey::Class,
                        if s.text_small == Some(true) {
                            "text small"@
                        } else {
                            "text"@
                        },
                    ),
                ],
                children: seq![NodeV::Text { text: txt@ }],
            },
        ],
        None => Seq::empty(),
    })
}

/// A compiled side panel: a named `template` with a title bar, a back icon, a
/// rule, and the content block.
pub open spec fn spec_side(s: Side) -> NodeV {
    NodeV::Element {
        tag: Tag::Template,
        attrs: seq![(AttrKey::Id, "side-"@ + s.name@)],
        children: seq![
            NodeV::Element {
                tag: Tag::Div,
                attrs: seq![(AttrKey::Class, "title"@)],
                children: seq![NodeV::Text { text: s.title@ }],
            },
            spec_svg_icon("#icon-arrow-left"@, "icon-back"@),
            NodeV::Element { tag: Tag::Hr, attrs: Seq::empty(), children: Seq::empty() },
            NodeV::Element {
                tag: Tag::Div,
                attrs: seq![(AttrKey::Class, "content"@)],
                children: spec_side_content(s),
            },
        ],
    }
}

/// Compiles one side panel.
pub fn side(s: &Side) -> (r: Node)
    requires
        side_wf(*s),
    ensures
        r@ == spec_side(*s),
{
    let mut content: Vec<Node> = match &s.tiles {
        Some(ts) => {
            let mut v = tiles_to_nodes(ts, false);
            let cf = make_clearfix();
            proof {
                lemma_nodes_view_push(v@, cf);
            }
            v.push(cf);
            v
        },
        None => match &s.templated {
            Some(tt) => {
                let expanded = tile_template(tt);
                proof {
                    assert(tiles_wf(expanded@, false));
                }
                let mut v = tiles_to_nodes(&expanded, false);
                let cf = make_clearfix();
                proof {
                    lemma_nodes_view_push(v@, cf);
                }
                v.push(cf);
                v
            },
            None => Vec::new(),
        },
    };
    let ghost tiles_part = nodes_view(content@);
    match &s.text {
        Some(txt) => {
            let small = match &s.text_small {
                Some(b) => *b,
                None => false,
            };
            let cls = if small {
                "text small".to_owned()
            } else {
                "text".to_owned()
            };
            let txt_node = Node::Text { text: txt.clone() };
            let d = Node::Element {
                tag: Tag::Div,
                attrs: vec![(AttrKey::Class, cls)],
                children: vec![txt_node],
            };
            proof {
                assert(nodes_view(d->Element_children@) =~~= seq![
                    NodeV::Text { text: s.text->0@ },
                ]);
                lemma_nodes_view_push(content@, d);
            }
            content.push(d);
        },
        None => (),
    }
    proof {
        assert(nodes_view(content@) =~~= spec_side_content(*s));
    }
    let title_node = Node::Element {
        tag: Tag::Div,
        attrs: vec![(AttrKey::Class, "title".to_owned())],
        children: vec![Node::Text { text: s.title.clone() }],
    };
    proof {
        assert(nodes_view(title_node->Element_children@) =~~= seq![
            NodeV::Text { text: s.title@ },
        ]);
    }
    proof {
        assert(title_node@ =~~= (NodeV::Element {
            tag: Tag::Div,
            attrs: seq![(AttrKey::Class, "title"@)],
            children: seq![NodeV::Text { text: s.title@ }],
        }));
    }
    let icon = svg_icon("#icon-arrow-left", "icon-back");
    let hr = Node::Element { tag: Tag::Hr, attrs: Vec::new(), children: Vec::new() };
    let content_node = Node::Element {
        tag: Tag::Div,
        attrs: vec![(AttrKey::Class, "content".to_owned())],
        children: content,
    };
    proof {
        assert(hr@ =~~= (NodeV::Element {
            tag: Tag::Hr,
            attrs: Seq::empty(),
            children: Seq::empty(),
        }));
        assert(content_node@ =~~= (NodeV::Element {
            tag: Tag::Div,
            attrs: seq![(AttrKey::Class, "content"@)],
            children: spec_side_content(*s),
        }));
    }
    let r = Node::Element {
        tag: Tag::Template,
        attrs: vec![(AttrKey::Id, cat2("side-", s.name.as_str()))],
        children: vec![title_node, icon, hr, content_node],
    };
    proof {
        assert(nodes_view(r->Element_children@) =~~= seq![
            node_view(r->Element_children@[0]),
            node_view(r->Element_children@[1]),
            node_view(r->Element_children@[2]),
            node_view(r->Element_children@[3]),
        ]);
        assert(r@ =~~= spec_side(*s));
    }
    r
}

/// Compiles a list of side panels, in order.
pub fn sides_to_nodes(sides: &Vec<Side>) -> (r: Vec<Node>)
    requires
        forall|i: int| 0 <= i < sides@.len() ==> side_wf(#[trigger] sides@[i]),
    ensures
        r@.len() == sides@.len(),
        forall|i: int| 0 <= i < sides@.len() ==> node_view(#[trigger] r@[i]) == spec_side(
            sides@[i],
        ),
{
    let mut r: Vec<Node> = Vec::new();
    let mut i: usize = 0;
    while i < sides.len()
        invariant
            i <= sides@.len(),
            r@.len() == i,
            forall|k: int| 0 <= k < sides@.len() ==> side_wf(#[trigger] sides@[k]),
            forall|k: int| 0 <= k < i ==> node_view(#[trigger] r@[k]) == spec_side(sides@[k]),
        decreases sides@.len() - i,
    {
        let n = side(&sides[i]);
        r.push(n);
        i += 1;
    }
    r
}

/// A compiled category group: its caption, then its entries.
pub open spec fn spec_category_group(g: CategoryGroup) -> NodeV {
    NodeV::Element {
        tag: Tag::Div,
        attrs: seq![(AttrKey::Class, "category-group"@)],
        children: seq![
            NodeV::Element {
                tag: Tag::Div,
                attrs: seq![(AttrKey::Class, "category-group-title"@)],
                children: seq![
                    NodeV::Element {
                        tag: Tag::Div,
                        attrs: seq![(AttrKey::Class, "text"@)],
                        children: seq![NodeV::Text { text: g.title@ }],
                    },
                ],
            },
        ] + spec_tiles(g.content@, true),
    }
}

/// Compiles one category group.
pub fn category_group(g: &CategoryGroup) -> (r: Node)
    requires
        tiles_wf(g.content@, true),
    ensures
        r@ == spec_category_group(*g),
{
    let text_node = Node::Element {
        tag: Tag::Div,
        attrs: vec![(AttrKey::Class, "text".to_owned())],
        children: vec![Node::Text { text: g.title.clone() }],
    };
    proof {
        assert(nodes_view(text_node->Element_children@) =~~= seq![NodeV::Text { text: g.title@ }]);
    }
    proof {
        assert(text_node@ =~~= (NodeV::Element {
            tag: Tag::Div,
            attrs: seq![(AttrKey::Class, "text"@)],
            children: seq![NodeV::Text { text: g.title@ }],
        }));
    }
    let title_node = Node::Element {
        tag: Tag::Div,
        attrs: vec![(AttrKey::Class, "category-group-title".to_owned())],
        children: vec![text_node],
    };
    proof {
        assert(nodes_view(title_node->Element_children@) =~~= seq![node_view(
            title_node->Element_children@[0],
        )]);
        assert(title_node@ =~~= (NodeV::Element {
            tag: Tag::Div,
            attrs: seq![(AttrKey::Class, "category-group-title"@)],
            children: seq![
                NodeV::Element {
                    tag: Tag::Div,
                    attrs: seq![(AttrKey::Class, "text"@)],
                    children: seq![NodeV::Text { text: g.title@ }],
                },
            ],
        }));
    }
    let mut children = vec![title_node];
    let mut items = tiles_to_nodes(&g.content, true);
    let ghost c0 = children@;
    let ghost i0 = items@;
    children.append(&mut items);
    let r = Node::Element {
        tag: Tag::Div,
        attrs: vec![(AttrKey::Class, "category-group".to_owned())],
        children,
    };
    proof {
        assert(r->Element_children@ == c0 + i0);
        assert(nodes_view(r->Element_children@) =~~= seq![node_view(c0[0])] + nodes_view(i0));
        assert(r@ =~~= spec_category_group(*g));
    }
    r
}

pub open spec fn spec_category_groups(gs: Seq<CategoryGroup>) -> Seq<NodeV> {
    Seq::new(gs.len(), |i: int| spec_category_group(gs[i]))
}

pub open spec fn category_tab_wf(gs: Seq<CategoryGroup>) -> bool {
    &&& gs.len() <= 4
    &&& forall|i: int| 0 <= i < gs.len() ==> tiles_wf((#[trigger] gs[i]).content@, true)
}

/// A compiled tab: its groups split into a left column (the first two) and a
/// right column (the rest).
pub open spec fn spec_category_tab(gs: Seq<CategoryGroup>) -> Seq<NodeV> {
    let all = spec_category_groups(gs);
    let cut = if gs.len() < 2 {
        gs.len() as int
    } else {
        2
    };
    seq![
        NodeV::Element {
            tag: Tag::Div,
            attrs: seq![(AttrKey::Class, "category-tab-part"@)],
            children: all.take(cut),
        },
        NodeV::Element {
            tag: Tag::Div,
            attrs: seq![(AttrKey::Class, "category-tab-part"@)],
            children: all.skip(cut),
        },
    ]
}

/// Compiles one tab: at most four groups, two per column.
pub fn category_tab(gs: &Vec<CategoryGroup>) -> (r: Vec<Node>)
    requires
        category_tab_wf(gs@),
    ensures
        nodes_view(r@) == spec_category_tab(gs@),
{
    let mut left: Vec<Node> = Vec::new();
    let mut right: Vec<Node> = Vec::new();
    let mut i: usize = 0;
    while i < gs.len()
        invariant
            i <= gs@.len(),
            category_tab_wf(gs@),
            nodes_view(left@) =~= spec_category_groups(gs@).take(
                if i < 2 {
                    i as int
                } else {
                    2
                },
            ),
            i <= 2 ==> nodes_view(right@) =~= Seq::<NodeV>::empty(),
            i > 2 ==> nodes_view(right@) =~= spec_category_groups(gs@).subrange(2, i as int),
        decreases gs@.len() - i,
    {
        let n = category_group(&gs[i]);
        if i < 2 {
            proof {
                lemma_nodes_view_push(left@, n);
                assert(spec_category_groups(gs@).take(i + 1 as int) =~= spec_category_groups(
                    gs@,
                ).take(i as int).push(spec_category_group(gs@[i as int])));
            }
            left.push(n);
        } else {
            proof {
                lemma_nodes_view_push(right@, n);
                if i == 2 {
                    assert(spec_category_groups(gs@).subrange(2, 3) =~= Seq::<
                        NodeV,
                    >::empty().push(spec_category_group(gs@[2])));
                } else {
                    assert(spec_category_groups(gs@).subrange(2, i + 1 as int)
                        =~= spec_category_groups(gs@).subrange(2, i as int).push(
                        spec_category_group(gs@[i as int]),
                    ));
                }
            }
            right.push(n);
        }
        i += 1;
    }
    let lpart = Node::Element {
        tag: Tag::Div,
        attrs: vec![(AttrKey::Class, "category-tab-part".to_owned())],
        children: left,
    };
    let rpart = Node::Element {
        tag: Tag::Div,
        attrs: vec![(AttrKey::Class, "category-tab-part".to_owned())],
        children: right,
    };
    let r = vec![lpart, rpart];
    proof {
        let cut = if gs@.len() < 2 {
            gs@.len() as int
        } else {
            2
        };
        if gs@.len() <= 2 {
            assert(spec_category_groups(gs@).skip(cut) =~= Seq::<NodeV>::empty());
        } else {
            assert(spec_category_groups(gs@).skip(2) =~= spec_category_groups(gs@).subrange(
                2,
                gs@.len() as int,
            ));
        }
        assert(nodes_view(r@) =~~= spec_category_tab(gs@));
    }
    r
}

/// The whole two-tab classification block: the tab buttons, then both tab
/// bodies, the link tab hidden at first.
pub open spec fn spec_category(c: Category) -> Seq<NodeV> {
    seq![
        NodeV::Element {
            tag: Tag::Div,
            attrs: seq![(AttrKey::Class, "category-title"@)],
            children: seq![
                NodeV::Element {
                    tag: Tag::Div,
                    attrs: seq![(AttrKey::Id, "tool-button"@), (AttrKey::Class, "selected"@)],
                    children: seq![NodeV::Text { text: c.tool.title@ }],
                },
                NodeV::Element {
                    tag: Tag::Div,
                    attrs: seq![(AttrKey::Id, "link-button"@)],
                    children: seq![NodeV::Text { text: c.link.title@ }],
                },
            ],
        },
        NodeV::Element {
            tag: Tag::Div,
            attrs: seq![(AttrKey::Class, "category-content"@)],
            children: seq![
                NodeV::Element {
                    tag: Tag::Div,
                    attrs: seq![(AttrKey::Id, "tool-list"@)],
                    children: spec_category_tab(c.tool.content@),
                },
                NodeV::Element {
                    tag: Tag::Div,
                    attrs: seq![
                        (AttrKey::Id, "link-list"@),
                        (AttrKey::Style, "opacity: 0; pointer-events: none"@),
                    ],
                    children: spec_category_tab(c.link.content@),
                },
            ],
        },
    ]
}

/// Compiles the classification block.
pub fn category(c: &Category) -> (r: Vec<Node>)
    requires
        category_tab_wf(c.tool.content@),
        category_tab_wf(c.link.content@),
    ensures
        nodes_view(r@) == spec_category(*c),
{
    let tool_button = Node::Element {
        tag: Tag::Div,
        attrs: vec![(AttrKey::Id, "tool-button".to_owned()), (AttrKey::Class, "selected".to_owned())],
        children: vec![Node::Text { text: c.tool.title.clone() }],
    };
    let link_button = Node::Element {
        tag: Tag::Div,
        attrs: vec![(AttrKey::Id, "link-button".to_owned())],
        children: vec![Node::Text { text: c.link.title.clone() }],
    };
    proof {
        assert(nodes_view(tool_button->Element_children@) =~~= seq![
            NodeV::Text { text: c.tool.title@ },
        ]);
        assert(nodes_view(link_button->Element_children@) =~~= seq![
            NodeV::Text { text: c.link.title@ },
        ]);
    }
    proof {
        assert(tool_button@ =~~= (NodeV::Element {
            tag: Tag::Div,
            attrs: seq![(AttrKey::Id, "tool-button"@), (AttrKey::Class, "selected"@)],
            children: seq![NodeV::Text { text: c.tool.title@ }],
        }));
        assert(link_button@ =~~= (NodeV::Element {
            tag: Tag::Div,
            attrs: seq![(AttrKey::Id, "link-button"@)],
            children: seq![NodeV::Text { text: c.link.title@ }],
        }));
    }
    let title = Node::Element {
        tag: Tag::Div,
        attrs: vec![(AttrKey::Class, "category-title".to_owned())],
        children: vec![tool_button, link_button],
    };
    proof {
        assert(nodes_view(title->Element_children@) =~~= seq![
            node_view(title->Element_children@[0]),
            node_view(title->Element_children@[1]),
        ]);
        assert(title@ =~~= spec_category(*c)[0]);
    }
    let tool_list = Node::Element {
        tag: Tag::Div,
        attrs: vec![(AttrKey::Id, "tool-list".to_owned())],
        children: category_tab(&c.tool.content),
    };
    let link_list = Node::Element {
        tag: Tag::Div,
        attrs: vec![
            (AttrKey::Id, "link-list".to_owned()),
            (AttrKey::Style, "opacity: 0; pointer-events: none".to_owned()),
        ],
        children: category_tab(&c.link.content),
    };
    proof {
        assert(tool_list@ =~~= (NodeV::Element {
            tag: Tag::Div,
            attrs: seq![(AttrKey::Id, "tool-list"@)],
            children: spec_category_tab(c.tool.content@),
        }));
        assert(link_list@ =~~= (NodeV::Element {
            tag: Tag::Div,
            attrs: seq![
                (AttrKey::Id, "link-list"@),
                (AttrKey::Style, "opacity: 0; pointer-events: none"@),
            ],
            children: spec_category_tab(c.link.content@),
        }));
    }
    let content = Node::Element {
        tag: Tag::Div,
        attrs: vec![(AttrKey::Class, "category-content".to_owned())],
        children: vec![tool_list, link_list],
    };
    proof {
        assert(nodes_view(content->Element_children@) =~~= seq![
            node_view(content->Element_children@[0]),
            node_view(content->Element_children@[1]),
        ]);
        assert(content@ =~~= spec_category(*c)[1]);
    }
    let r = vec![title, content];
    proof {
        assert(nodes_view(r@) =~~= spec_category(*c));
    }
    r
}

pub open spec fn tile_grids_wf(g: TileGrids) -> bool {
    &&& g.middle@.len() == 3
    &&& g.middle@[2].content@.len() == 9
    &&& tiles_wf(g.left@, false)
    &&& tiles_wf(g.middle@[0].content@, false)
    &&& tiles_wf(g.middle@[1].content@, false)
    &&& tiles_wf(g.middle@[2].content@, false)
}

pub open spec fn spec_grid_title(title: Seq<char>, top: bool) -> NodeV {
    NodeV::Element {
        tag: Tag::Div,
        attrs: seq![
            (
                AttrKey::Class,
                if top {
                    "title top"@
                } else {
                    "title"@
                },
            ),
        ],
        children: seq![NodeV::Text { text: title }],
    }
}

/// The compiled major grid: the left column, the middle column's three titled
/// blocks (the third block's nine tiles standing after the middle column).
pub open spec fn spec_tile_grids(g: TileGrids) -> Seq<NodeV> {
    seq![
        NodeV::Element {
            tag: Tag::Div,
            attrs: seq![(AttrKey::Class, "tile-grid-vertical"@)],
            children: spec_tiles(g.left@, false),
        },
        NodeV::Element {
            tag: Tag::Div,
            attrs: seq![(AttrKey::Class, "tile-grid-middle"@)],
            children: seq![spec_grid_title(g.middle@[0].title@, true)] + spec_tiles(
                g.middle@[0].content@,
                false,
            ) + seq![spec_grid_title(g.middle@[1].title@, false)] + spec_tiles(
                g.middle@[1].content@,
                false,
            ) + seq![spec_grid_title(g.middle@[2].title@, false)],
        },
    ] + spec_tiles(g.middle@[2].content@, false)
}

fn grid_title(title: &String, top: bool) -> (r: Node)
    ensures
        r@ == spec_grid_title(title@, top),
{
    let cls = if top {
        "title top".to_owned()
    } else {
        "title".to_owned()
    };
    let r = Node::Element {
        tag: Tag::Div,
        attrs: vec![(AttrKey::Class, cls)],
        children: vec![Node::Text { text: title.clone() }],
    };
    proof {
        assert(nodes_view(r->Element_children@) =~~= seq![NodeV::Text { text: title@ }]);
        assert(r@ =~~= spec_grid_title(title@, top));
    }
    r
}

/// Compiles the major grid. The middle region must hold exactly three titled
/// blocks and the third block exactly nine tiles.
pub fn tile_grids(g: &TileGrids) -> (r: Vec<Node>)
    requires
        tile_grids_wf(*g),
    ensures
        nodes_view(r@) == spec_tile_grids(*g),
{
    let vertical = Node::Element {
        tag: Tag::Div,
        attrs: vec![(AttrKey::Class, "tile-grid-vertical".to_owned())],
        children: tiles_to_nodes(&g.left, false),
    };
    let mut mid: Vec<Node> = vec![grid_title(&g.middle[0].title, true)];
    let ghost m0 = mid@;
    let mut first = tiles_to_nodes(&g.middle[0].content, false);
    let ghost f0 = first@;
    mid.append(&mut first);
    mid.push(grid_title(&g.middle[1].title, false));
    let ghost m1 = mid@;
    let mut second = tiles_to_nodes(&g.middle[1].content, false);
    let ghost s0 = second@;
    mid.append(&mut second);
    mid.push(grid_title(&g.middle[2].title, false));
    proof {
        assert(mid@ == m0 + f0 + seq![mid@[m0.len() + f0.len() as int]] + s0 + seq![mid@.last()]);
        assert(nodes_view(mid@) =~~= seq![spec_grid_title(g.middle@[0].title@, true)] + spec_tiles(
            g.middle@[0].content@,
            false,
        ) + seq![spec_grid_title(g.middle@[1].title@, false)] + spec_tiles(
            g.middle@[1].content@,
            false,
        ) + seq![spec_grid_title(g.middle@[2].title@, false)]);
    }
    let middle = Node::Element {
        tag: Tag::Div,
        attrs: vec![(AttrKey::Class, "tile-grid-middle".to_owned())],
        children: mid,
    };
    let mut r = vec![vertical, middle];
    let ghost r0 = r@;
    let mut third = tiles_to_nodes(&g.middle[2].content, false);
    let ghost t0 = third@;
    r.append(&mut third);
    proof {
        assert(r@ == r0 + t0);
        assert(nodes_view(r@) =~~= spec_tile_grids(*g));
    }
    r
}

/// The mathematical model of one rendered catalog link.
#[verifier::ext_equal]
pub struct LinkV {
    pub title: Seq<char>,
    pub link_type: ToolLinkType,
    pub link: Seq<char>,
    pub icon: ToolLinkIcon,
}

/// A link caption: its free text, or the stock wording of its kind.
pub open spec fn spec_tool_link_title(t: ToolLinkTitle) -> Seq<char> {
    match t {
        ToolLinkTitle::Text(s) => s@,
        ToolLinkTitle::Type(k) => spec_tool_website_type(k),
    }
}

/// The caption text of one link.
pub fn tool_link_title(t: &ToolLinkTitle) -> (r: String)
    ensures
        r@ == spec_tool_link_title(*t),
{
    match t {
        ToolLinkTitle::Text(s) => s.clone(),
        ToolLinkTitle::Type(k) => tool_website_type(*k).to_owned(),
    }
}

pub open spec fn spec_link_icon_name(i: ToolLinkIcon) -> Seq<char> {
    match i {
        ToolLinkIcon::Link => "link"@,
        ToolLinkIcon::Download => "download"@,
    }
}

pub open spec fn spec_link_type_name(t: ToolLinkType) -> Seq<char> {
    match t {
        ToolLinkType::R2 => "r2"@,
        ToolLinkType::Mirror => "mirror"@,
    }
}

pub open spec fn spec_link_view(l: ToolLink) -> LinkV {
    LinkV {
        title: spec_tool_link_title(l.title),
        link_type: l.link_type,
        link: l.link@,
        icon: l.icon,
    }
}

/// One link in the interactive widget: an anchor with an inline icon.
pub open spec fn spec_tool_link(l: LinkV) -> NodeV {
    NodeV::Element {
        tag: Tag::Span,
        attrs: Seq::empty(),
        children: seq![
            NodeV::Element {
                tag: Tag::A,
                attrs: seq![
                    (AttrKey::Target, "_blank"@),
                    (AttrKey::Class, "link"@),
                    (AttrKey::Href, spec_tool_link_prefix(l.link_type) + l.link),
                ],
                children: seq![
                    spec_svg_icon(spec_link_icon_name(l.icon), "icon"@),
                    NodeV::Text { text: " "@ },
                    NodeV::Text { text: l.title },
                ],
            },
        ],
    }
}

/// One link on the text-only page: an emoji-tagged anchor, then the raw
/// target in italics, then a break.
pub open spec fn spec_tool_link_plain(l: LinkV) -> NodeV {
    NodeV::Element {
        tag: Tag::Span,
        attrs: Seq::empty(),
        children: seq![
            NodeV::Element {
                tag: Tag::A,
                attrs: seq![
                    (AttrKey::Target, "_blank"@),
                    (AttrKey::Href, spec_tool_link_prefix(l.link_type) + l.link),
                ],
                children: seq![NodeV::Text { text: spec_tool_icon_emoji(l.icon) + l.title }],
            },
            NodeV::Text { text: " "@ },
            NodeV::Element {
                tag: Tag::I,
                attrs: Seq::empty(),
                children: seq![
                    NodeV::Text { text: "["@ + spec_link_type_name(l.link_type) + "] "@ + l.link },
                ],
            },
            NodeV::Element { tag: Tag::Br, attrs: Seq::empty(), children: Seq::empty() },
        ],
    }
}

pub open spec fn spec_sel_link(l: LinkV, plain: bool) -> NodeV {
    if plain {
        spec_tool_link_plain(l)
    } else {
        spec_tool_link(l)
    }
}

/// Renders one catalog link in the chosen mode.
pub fn render_sel_link(l: &ToolLink, plain: bool) -> (r: Node)
    ensures
        r@ == spec_sel_link(spec_link_view(*l), plain),
{
    let href = cat2(tool_link_prefix(l.link_type), l.link.as_str());
    if plain {
        let a = Node::Element {
            tag: Tag::A,
            attrs: vec![(AttrKey::Target, "_blank".to_owned()), (AttrKey::Href, href)],
            children: vec![
                Node::Text {
                    text: cat2(
                        tool_icon_emoji(l.icon),
                        tool_link_title(&l.title).as_str(),
                    ),
                },
            ],
        };
        proof {
            assert(nodes_view(a->Element_children@) =~~= seq![node_view(a->Element_children@[0])]);
            assert(a@ =~~= (NodeV::Element {
                tag: Tag::A,
                attrs: seq![
                    (AttrKey::Target, "_blank"@),
                    (AttrKey::Href, spec_tool_link_prefix(l.link_type) + l.link@),
                ],
                children: seq![
                    NodeV::Text {
                        text: spec_tool_icon_emoji(l.icon) + spec_tool_link_title(l.title),
                    },
                ],
            }));
        }
        let ital = Node::Element {
            tag: Tag::I,
            attrs: Vec::new(),
            children: vec![
                Node::Text {
                    text: cat2(
                        cat3("[", l.link_type.as_str(), "] ").as_str(),
                        l.link.as_str(),
                    ),
                },
            ],
        };
        proof {
            assert(nodes_view(ital->Element_children@) =~~= seq![node_view(
                ital->Element_children@[0],
            )]);
            assert(ital@ =~~= (NodeV::Element {
                tag: Tag::I,
                attrs: Seq::empty(),
                children: seq![
                    NodeV::Text {
                        text: "["@ + spec_link_type_name(l.link_type) + "] "@ + l.link@,
                    },
                ],
            }));
        }
        let br = Node::Element { tag: Tag::Br, attrs: Vec::new(), children: Vec::new() };
        proof {
            assert(br@ =~~= (NodeV::Element {
                tag: Tag::Br,
                attrs: Seq::empty(),
                children: Seq::empty(),
            }));
        }
        let sp = Node::Text { text: " ".to_owned() };
        let r = Node::Element {
            tag: Tag::Span,
            attrs: Vec::new(),
            children: vec![a, sp, ital, br],
        };
        proof {
            assert(nodes_view(r->Element_children@) =~~= seq![
                node_view(r->Element_children@[0]),
                node_view(r->Element_children@[1]),
                node_view(r->Element_children@[2]),
                node_view(r->Element_children@[3]),
            ]);
            assert(r@ =~~= spec_tool_link_plain(spec_link_view(*l)));
        }
        r
    } else {
        let icon = svg_icon(l.icon.as_str(), "icon");
        let a = Node::Element {
            tag: Tag::A,
            attrs: vec![
                (AttrKey::Target, "_blank".to_owned()),
                (AttrKey::Class, "link".to_owned()),
                (AttrKey::Href, href),
            ],
            children: vec![
                icon,
                Node::Text { text: " ".to_owned() },
                Node::Text { text: tool_link_title(&l.title) },
            ],
        };
        proof {
            assert(nodes_view(a->Element_children@) =~~= seq![
                node_view(a->Element_children@[0]),
                node_view(a->Element_children@[1]),
                node_view(a->Element_children@[2]),
            ]);
            assert(a@ =~~= (NodeV::Element {
                tag: Tag::A,
                attrs: seq![
                    (AttrKey::Target, "_blank"@),
                    (AttrKey::Class, "link"@),
                    (AttrKey::Href, spec_tool_link_prefix(l.link_type) + l.link@),
                ],
                children: seq![
                    spec_svg_icon(spec_link_icon_name(l.icon), "icon"@),
                    NodeV::Text { text: " "@ },
                    NodeV::Text { text: spec_tool_link_title(l.title) },
                ],
            }));
        }
        let r = Node::Element { tag: Tag::Span, attrs: Vec::new(), children: vec![a] };
        proof {
            assert(nodes_view(r->Element_children@) =~~= seq![node_view(r->Element_children@[0])]);
            assert(r@ =~~= spec_tool_link(spec_link_view(*l)));
        }
        r
    }
}

pub open spec fn links_views(ls: Seq<ToolLink>) -> Seq<LinkV> {
    Seq::new(ls.len(), |i: int| spec_link_view(ls[i]))
}

pub open spec fn spec_sel_links(ls: Seq<LinkV>, plain: bool) -> Seq<NodeV> {
    Seq::new(ls.len(), |i: int| spec_sel_link(ls[i], plain))
}

/// Renders a list of links in the chosen mode, in order.
pub fn render_links(ls: &Vec<ToolLink>, plain: bool) -> (r: Vec<Node>)
    ensures
        nodes_view(r@) == spec_sel_links(links_views(ls@), plain),
{
    let mut r: Vec<Node> = Vec::new();
    let mut i: usize = 0;
    proof {
        assert(nodes_view(r@) =~= spec_sel_links(links_views(ls@.take(0)), plain));
    }
    while i < ls.len()
        invariant
            i <= ls@.len(),
            nodes_view(r@) == spec_sel_links(links_views(ls@.take(i as int)), plain),
        decreases ls@.len() - i,
    {
        let n = render_sel_link(&ls[i], plain);
        proof {
            lemma_nodes_view_push(r@, n);
        }
        r.push(n);
        proof {
            assert(spec_sel_links(links_views(ls@.take(i + 1 as int)), plain) =~= spec_sel_links(
                links_views(ls@.take(i as int)),
                plain,
            ).push(spec_sel_link(spec_link_view(ls@[i as int]), plain)));
        }
        i += 1;
    }
    proof {
        assert(ls@.take(ls@.len() as int) =~= ls@);
        assert(spec_sel_links(links_views(ls@.take(ls@.len() as int)), plain) =~= spec_sel_links(
            links_views(ls@),
            plain,
        ));
    }
    r
}

/// The links block's sources, merged in order: the single website, then the
/// named websites.
pub open spec fn spec_res_links(name: Seq<char>, l: ToolLinks) -> Seq<LinkV> {
    (match l.website {
        Some(t) => seq![
            LinkV {
                title: spec_tool_link_title(t),
                link_type: ToolLinkType::R2,
                link: name,
                icon: ToolLinkIcon::Link,
            },
        ],
        None => Seq::empty(),
    }) + (match l.websites {
        Some(ws) => Seq::new(
            ws@.len(),
            |i: int|
                LinkV {
                    title: spec_tool_link_title(ws@[i].1),
                    link_type: ToolLinkType::R2,
                    link: name + "-"@ + ws@[i].0@,
                    icon: ToolLinkIcon::Link,
                },
        ),
        None => Seq::empty(),
    })
}

/// The downloads block's sources, merged in order: the named downloads, the
/// one mirror, then the named mirrors.
pub open spec fn spec_res_downloads(name: Seq<char>, l: ToolLinks) -> Seq<LinkV> {
    (match l.downloads {
        Some(ds) => Seq::new(
            ds@.len(),
            |i: int|
                LinkV {
                    title: ds@[i].1@,
                    link_type: ToolLinkType::R2,
                    link: name + "-d-"@ + ds@[i].0@,
                    icon: ToolLinkIcon::Download,
                },
        ),
        None => Seq::empty(),
    }) + (match l.mirror {
        Some(_) => seq![
            LinkV {
                title: "镜像下载"@,
                link_type: ToolLinkType::Mirror,
                link: name,
                icon: ToolLinkIcon::Download,
            },
        ],
        None => Seq::empty(),
    }) + (match l.mirrors {
        Some(ms) => Seq::new(
            ms@.len(),
            |i: int|
                LinkV {
                    title: ms@[i].1@,
                    link_type: ToolLinkType::Mirror,
                    link: name + "-"@ + ms@[i].0@,
                    icon: ToolLinkIcon::Download,
                },
        ),
        None => Seq::empty(),
    })
}

pub open spec fn spec_links_attrs(l: ToolLinks, plain: bool) -> Seq<(AttrKey, Seq<char>)> {
    if !plain && l.columns == Some(true) {
        seq![(AttrKey::Class, "tool-links-columns"@)]
    } else {
        Seq::empty()
    }
}

pub open spec fn block_tag(plain: bool) -> Tag {
    if plain {
        Tag::P
    } else {
        Tag::Div
    }
}

/// The links of one grouped-downloads table, in order.
pub open spec fn spec_group_links(name: Seq<char>, items: Seq<(String, String)>) -> Seq<LinkV> {
    Seq::new(
        items.len(),
        |i: int|
            LinkV {
                title: items[i].1@,
                link_type: ToolLinkType::R2,
                link: name + "-d-"@ + items[i].0@,
                icon: ToolLinkIcon::Download,
            },
    )
}

/// The links of the websites-tile list, in order.
pub open spec fn spec_websites_tile_links(name: Seq<char>, wt: Seq<(String, ToolLinkTitle)>) -> Seq<
    LinkV,
> {
    Seq::new(
        wt.len(),
        |i: int|
            LinkV {
                title: spec_tool_link_title(wt[i].1),
                link_type: ToolLinkType::R2,
                link: name + "-"@ + wt[i].0@,
                icon: ToolLinkIcon::Link,
            },
    )
}

/// One grouped-downloads block: a bold caption line, then its links.
pub open spec fn spec_downloads_group(
    name: Seq<char>,
    plain: bool,
    group_title: Seq<char>,
    items: Seq<(String, String)>,
) -> NodeV {
    NodeV::Element {
        tag: block_tag(plain),
        attrs: Seq::empty(),
        children: seq![
            NodeV::Element {
                tag: Tag::P,
                attrs: Seq::empty(),
                children: seq![
                    NodeV::Element {
                        tag: Tag::B,
                        attrs: Seq::empty(),
                        children: seq![NodeV::Text { text: group_title }],
                    },
                ],
            },
        ] + spec_sel_links(spec_group_links(name, items), plain),
    }
}

/// The tiles stamped from the websites-tile template, one per named website.
pub open spec fn spec_stamped_tiles(
    tpl: TileTemplateInner,
    name: Seq<char>,
    wt: Seq<(String, ToolLinkTitle)>,
) -> Seq<TileV> {
    Seq::new(
        wt.len(),
        |i: int|
            TileV {
                tile: Some(tpl.tile@),
                font: tpl.font,
                action: tpl.action,
                icon_type: opt_view(tpl.icon_type),
                name: name + "-"@ + wt[i].0@,
                title: None,
                icon: None,
                path: None,
                subdomain: None,
            },
    )
}

pub open spec fn spec_tiles_v(ts: Seq<TileV>) -> Seq<NodeV> {
    Seq::new(ts.len(), |i: int| spec_tile_inner(ts[i], false))
}

/// The whole links payload, compiled: a links block, a downloads block, the
/// grouped downloads, and the websites tiles; a block whose source list is
/// empty is suppressed.
pub open spec fn spec_tool_links(name: Seq<char>, l: ToolLinks, plain: bool) -> Seq<NodeV> {
    spec_links_block(name, l, plain) + spec_downloads_block(name, l, plain) + spec_groups_block(
        name,
        l,
        plain,
    ) + spec_wtile_block(name, l, plain)
}

/// The links payload can be compiled: in the interactive mode, a non-empty
/// websites-tile list needs its template, and that template must not navigate
/// by subdomain.
pub open spec fn tool_links_wf(l: ToolLinks, plain: bool) -> bool {
    (!plain && l.websites_tile is Some && l.websites_tile->0@.len() > 0) ==> {
        &&& l.websites_tile_template is Some
        &&& l.websites_tile_template->0.action != TileAction::Subdomain
    }
}

fn links_attrs(l: &ToolLinks, plain: bool) -> (r: Vec<(AttrKey, String)>)
    ensures
        attrs_view(r@) == spec_links_attrs(*l, plain),
{
    let columns = match &l.columns {
        Some(b) => *b,
        None => false,
    };
    if !plain && columns {
        let r = vec![(AttrKey::Class, "tool-links-columns".to_owned())];
        proof {
            assert(attrs_view(r@) =~= spec_links_attrs(*l, plain));
        }
        r
    } else {
        let r: Vec<(AttrKey, String)> = Vec::new();
        proof {
            assert(attrs_view(r@) =~= spec_links_attrs(*l, plain));
        }
        r
    }
}

/// The links block alone: nothing when both website sources are empty.
pub open spec fn spec_links_block(name: Seq<char>, l: ToolLinks, plain: bool) -> Seq<NodeV> {
    let rl = spec_res_links(name, l);
    if rl.len() > 0 {
        seq![
            NodeV::Element {
                tag: block_tag(plain),
                attrs: spec_links_attrs(l, plain),
                children: spec_sel_links(rl, plain),
            },
        ]
    } else {
        Seq::empty()
    }
}

/// The downloads block alone: nothing when all three download sources are
/// empty.
pub open spec fn spec_downloads_block(name: Seq<char>, l: ToolLinks, plain: bool) -> Seq<NodeV> {
    let rd = spec_res_downloads(name, l);
    if rd.len() > 0 {
        seq![
            NodeV::Element {
                tag: block_tag(plain),
                attrs: spec_links_attrs(l, plain),
                children: spec_sel_links(rd, plain),
            },
        ]
    } else {
        Seq::empty()
    }
}

/// The grouped-downloads blocks, one per declared group.
pub open spec fn spec_groups_block(name: Seq<char>, l: ToolLinks, plain: bool) -> Seq<NodeV> {
    match l.downloads_groups {
        Some(gs) => Seq::new(
            gs@.len(),
            |i: int| spec_downloads_group(name, plain, gs@[i].0@, gs@[i].1@),
        ),
        None => Seq::empty(),
    }
}

/// The websites-tile block: plain links on the text-only page, stamped tiles
/// and a spacer otherwise; nothing when the list is empty.
pub open spec fn spec_wtile_block(name: Seq<char>, l: ToolLinks, plain: bool) -> Seq<NodeV> {
    match l.websites_tile {
        Some(wt) => if wt@.len() == 0 {
            Seq::empty()
        } else if plain {
            seq![
                NodeV::Element {
                    tag: Tag::P,
                    attrs: spec_links_attrs(l, plain),
                    children: spec_sel_links(spec_websites_tile_links(name, wt@), true),
                },
            ]
        } else {
            spec_tiles_v(spec_stamped_tiles(l.websites_tile_template->0, name, wt@)) + seq![
                spec_clearfix(),
            ]
        },
        None => Seq::empty(),
    }
}

/// Builds the links block.
#[verifier::rlimit(60)]
fn links_block(name: &str, l: &ToolLinks, plain: bool) -> (r: Vec<Node>)
    ensures
        nodes_view(r@) == spec_links_block(name@, *l, plain),
{
    let ghost rl_spec = spec_res_links(name@, *l);
    let mut res: Vec<Node> = Vec::new();

    let mut res_links: Vec<ToolLink> = Vec::new();
    match &l.website {
        Some(t) => {
            res_links.push(
                ToolLink {
                    title: t.clone(),
                    link_type: ToolLinkType::R2,
                    link: name.to_owned(),
                    icon: ToolLinkIcon::Link,
                },
            );
        },
        None => (),
    }
    let ghost web_part_len = res_links@.len();
    match &l.websites {
        Some(ws) => {
            let mut i: usize = 0;
            while i < ws.len()
                invariant
                    i <= ws@.len(),
                    l.websites == Some(*ws),
                    res_links@.len() == web_part_len + i,
                    links_views(res_links@) =~~= rl_spec.take(web_part_len + i as int),
                    web_part_len + ws@.len() == rl_spec.len(),
                    rl_spec == spec_res_links(name@, *l),
                decreases ws@.len() - i,
            {
                res_links.push(
                    ToolLink {
                        title: ws[i].1.clone(),
                        link_type: ToolLinkType::R2,
                        link: cat3(name, "-", ws[i].0.as_str()),
                        icon: ToolLinkIcon::Link,
                    },
                );
                proof {
                    assert(links_views(res_links@) =~~= rl_spec.take(web_part_len + i + 1 as int));
                }
                i += 1;
            }
        },
        None => (),
    }
    proof {
        assert(links_views(res_links@) =~~= rl_spec);
    }
    if res_links.len() > 0 {
        let n = Node::Element {
            tag: if plain {
                Tag::P
            } else {
                Tag::Div
            },
            attrs: links_attrs(l, plain),
            children: render_links(&res_links, plain),
        };
        proof {
            assert(n@ =~~= (NodeV::Element {
                tag: block_tag(plain),
                attrs: spec_links_attrs(*l, plain),
                children: spec_sel_links(rl_spec, plain),
            }));
            lemma_nodes_view_push(res@, n);
        }
        res.push(n);
    }
    proof {
        assert(nodes_view(res@) =~~= spec_links_block(name@, *l, plain));
    }
    res
}

/// Builds the downloads block.
#[verifier::rlimit(60)]
fn downloads_block(name: &str, l: &ToolLinks, plain: bool) -> (r: Vec<Node>)
    ensures
        nodes_view(r@) == spec_downloads_block(name@, *l, plain),
{
    let ghost rd_spec = spec_res_downloads(name@, *l);
    let mut res: Vec<Node> = Vec::new();

    let mut res_downloads: Vec<ToolLink> = Vec::new();
    match &l.downloads {
        Some(ds) => {
            let mut i: usize = 0;
            while i < ds.len()
                invariant
                    i <= ds@.len(),
                    l.downloads == Some(*ds),
                    res_downloads@.len() == i,
                    links_views(res_downloads@) =~~= rd_spec.take(i as int),
                    rd_spec == spec_res_downloads(name@, *l),
                decreases ds@.len() - i,
            {
                res_downloads.push(
                    ToolLink {
                        title: ToolLinkTitle::Text(ds[i].1.clone()),
                        link_type: ToolLinkType::R2,
                        link: cat3(name, "-d-", ds[i].0.as_str()),
                        icon: ToolLinkIcon::Download,
                    },
                );
                proof {
                    assert(links_views(res_downloads@) =~~= rd_spec.take(i + 1 as int));
                }
                i += 1;
            }
        },
        None => (),
    }
    let ghost dl_part_len = res_downloads@.len();
    match &l.mirror {
        Some(_) => {
            res_downloads.push(
                ToolLink {
                    title: ToolLinkTitle::Text("镜像下载".to_owned()),
                    link_type: ToolLinkType::Mirror,
                    link: name.to_owned(),
                    icon: ToolLinkIcon::Download,
                },
            );
            proof {
                assert(links_views(res_downloads@) =~~= rd_spec.take(dl_part_len + 1 as int));
            }
        },
        None => (),
    }
    let ghost mir_part_len = res_downloads@.len();
    match &l.mirrors {
        Some(ms) => {
            let mut i: usize = 0;
            while i < ms.len()
                invariant
                    i <= ms@.len(),
                    l.mirrors == Some(*ms),
                    res_downloads@.len() == mir_part_len + i,
                    links_views(res_downloads@) =~~= rd_spec.take(mir_part_len + i as int),
                    mir_part_len + ms@.len() == rd_spec.len(),
                    rd_spec == spec_res_downloads(name@, *l),
                decreases ms@.len() - i,
            {
                res_downloads.push(
                    ToolLink {
                        title: ToolLinkTitle::Text(ms[i].1.clone()),
                        link_type: ToolLinkType::Mirror,
                        link: cat3(name, "-", ms[i].0.as_str()),
                        icon: ToolLinkIcon::Download,
                    },
                );
                proof {
                    assert(links_views(res_downloads@) =~~= rd_spec.take(
                        mir_part_len + i + 1 as int,
                    ));
                }
                i += 1;
            }
        },
        None => (),
    }
    proof {
        assert(links_views(res_downloads@) =~~= rd_spec);
    }
    if res_downloads.len() > 0 {
        let n = Node::Element {
            tag: if plain {
                Tag::P
            } else {
                Tag::Div
            },
            attrs: links_attrs(l, plain),
            children: render_links(&res_downloads, plain),
        };
        proof {
            assert(n@ =~~= (NodeV::Element {
                tag: block_tag(plain),
                attrs: spec_links_attrs(*l, plain),
                children: spec_sel_links(rd_spec, plain),
            }));
            lemma_nodes_view_push(res@, n);
        }
        res.push(n);
    }
    proof {
        assert(nodes_view(res@) =~~= spec_downloads_block(name@, *l, plain));
    }
    res
}

/// Builds the grouped-downloads blocks.
#[verifier::rlimit(60)]
fn groups_block(name: &str, l: &ToolLinks, plain: bool) -> (r: Vec<Node>)
    ensures
        nodes_view(r@) == spec_groups_block(name@, *l, plain),
{
    let mut res: Vec<Node> = Vec::new();
    let ghost part2 = nodes_view(res@);

    match &l.downloads_groups {
        Some(gs) => {
            let mut gi: usize = 0;
            while gi < gs.len()
                invariant
                    gi <= gs@.len(),
                    l.downloads_groups == Some(*gs),
                    part2 == nodes_view(res@).take(part2.len() as int) && nodes_view(res@)
                        =~= part2 + Seq::new(
                        gi as nat,
                        |i: int| spec_downloads_group(name@, plain, gs@[i].0@, gs@[i].1@),
                    ),
                decreases gs@.len() - gi,
            {
                let bold = Node::Element {
                    tag: Tag::B,
                    attrs: Vec::new(),
                    children: vec![Node::Text { text: gs[gi].0.clone() }],
                };
                proof {
                    assert(nodes_view(bold->Element_children@) =~~= seq![node_view(
                        bold->Element_children@[0],
                    )]);
                    assert(bold@ =~~= (NodeV::Element {
                        tag: Tag::B,
                        attrs: Seq::empty(),
                        children: seq![NodeV::Text { text: gs@[gi as int].0@ }],
                    }));
                }
                let caption = Node::Element {
                    tag: Tag::P,
                    attrs: Vec::new(),
                    children: vec![bold],
                };
                proof {
                    assert(nodes_view(caption->Element_children@) =~~= seq![node_view(
                        caption->Element_children@[0],
                    )]);
                    assert(caption@ =~~= (NodeV::Element {
                        tag: Tag::P,
                        attrs: Seq::empty(),
                        children: seq![
                            NodeV::Element {
                                tag: Tag::B,
                                attrs: Seq::empty(),
                                children: seq![NodeV::Text { text: gs@[gi as int].0@ }],
                            },
                        ],
                    }));
                }
                let items = &gs[gi].1;
                let mut group_links: Vec<ToolLink> = Vec::new();
                let ghost gspec = spec_group_links(name@, items@);
                let mut i: usize = 0;
                while i < items.len()
                    invariant
                        i <= items@.len(),
                        gspec.len() == items@.len(),
                        links_views(group_links@) =~~= gspec.take(i as int),
                        gspec == spec_group_links(name@, items@),
                    decreases items@.len() - i,
                {
                    let tl = ToolLink {
                        title: ToolLinkTitle::Text(items[i].1.clone()),
                        link_type: ToolLinkType::R2,
                        link: cat3(name, "-d-", items[i].0.as_str()),
                        icon: ToolLinkIcon::Download,
                    };
                    proof {
                        assert(spec_link_view(tl) =~~= gspec[i as int]);
                    }
                    let ghost pre = group_links@;
                    group_links.push(tl);
                    proof {
                        assert(group_links@ == pre.push(tl));
                        assert(links_views(pre.push(tl)) =~~= links_views(pre).push(
                            spec_link_view(tl),
                        ));
                        assert(gspec.take(i + 1 as int) =~= gspec.take(i as int).push(
                            gspec[i as int],
                        ));
                        assert(links_views(group_links@) =~~= gspec.take(i + 1 as int));
                    }
                    i += 1;
                }
                proof {
                    assert(links_views(group_links@) =~~= gspec);
                }
                let mut children = vec![caption];
                let mut rendered = render_links(&group_links, plain);
                let ghost c0 = children@;
                let ghost r0 = rendered@;
                children.append(&mut rendered);
                let n = Node::Element {
                    tag: if plain {
                        Tag::P
                    } else {
                        Tag::Div
                    },
                    attrs: Vec::new(),
                    children,
                };
                proof {
                    assert(n->Element_children@ == c0 + r0);
                    assert(nodes_view(n->Element_children@) =~~= seq![node_view(c0[0])]
                        + nodes_view(r0));
                    assert(n@ =~~= spec_downloads_group(
                        name@,
                        plain,
                        gs@[gi as int].0@,
                        gs@[gi as int].1@,
                    ));
                    lemma_nodes_view_push(res@, n);
                    assert(Seq::new(
                        (gi + 1) as nat,
                        |i: int| spec_downloads_group(name@, plain, gs@[i].0@, gs@[i].1@),
                    ) =~= Seq::new(
                        gi as nat,
                        |i: int| spec_downloads_group(name@, plain, gs@[i].0@, gs@[i].1@),
                    ).push(spec_downloads_group(name@, plain, gs@[gi as int].0@, gs@[gi as int].1@)));
                }
                res.push(n);
                gi += 1;
            }
        },
        None => (),
    }
    proof {
        assert(nodes_view(res@) =~~= spec_groups_block(name@, *l, plain));
    }
    res
}

/// Builds the websites-tile block.
#[verifier::rlimit(60)]
fn wtile_block(name: &str, l: &ToolLinks, plain: bool) -> (r: Vec<Node>)
    requires
        tool_links_wf(*l, plain),
    ensures
        nodes_view(r@) == spec_wtile_block(name@, *l, plain),
{
    let mut res: Vec<Node> = Vec::new();

    match &l.websites_tile {
        Some(wt) => {
            if wt.len() > 0 {
                if plain {
                    let ghost wspec = spec_websites_tile_links(name@, wt@);
                    let mut tile_links: Vec<ToolLink> = Vec::new();
                    let mut i: usize = 0;
                    while i < wt.len()
                        invariant
                            i <= wt@.len(),
                            wspec.len() == wt@.len(),
                            links_views(tile_links@) =~~= wspec.take(i as int),
                            wspec == spec_websites_tile_links(name@, wt@),
                        decreases wt@.len() - i,
                    {
                        let tl = ToolLink {
                            title: wt[i].1.clone(),
                            link_type: ToolLinkType::R2,
                            link: cat3(name, "-", wt[i].0.as_str()),
                            icon: ToolLinkIcon::Link,
                        };
                        proof {
                            assert(spec_link_view(tl) =~~= wspec[i as int]);
                        }
                        let ghost pre = tile_links@;
                        tile_links.push(tl);
                        proof {
                            assert(tile_links@ == pre.push(tl));
                            assert(links_views(pre.push(tl)) =~~= links_views(pre).push(
                                spec_link_view(tl),
                            ));
                            assert(wspec.take(i + 1 as int) =~= wspec.take(i as int).push(
                                wspec[i as int],
                            ));
                            assert(links_views(tile_links@) =~~= wspec.take(i + 1 as int));
                        }
                        i += 1;
                    }
                    proof {
                        assert(links_views(tile_links@) =~~= wspec);
                    }
                    let n = Node::Element {
                        tag: Tag::P,
                        attrs: links_attrs(l, plain),
                        children: render_links(&tile_links, true),
                    };
                    proof {
                        assert(n@ =~~= (NodeV::Element {
                            tag: Tag::P,
                            attrs: spec_links_attrs(*l, plain),
                            children: spec_sel_links(wspec, true),
                        }));
                        lemma_nodes_view_push(res@, n);
                    }
                    res.push(n);
                } else {
                    let tpl = match &l.websites_tile_template {
                        Some(t) => t.clone(),
                        None => TileTemplateInner {
                            tile: String::new(),
                            font: None,
                            action: TileAction::NoOp,
                            icon_type: None,
                        },
                    };
                    let mut names: Vec<String> = Vec::new();
                    let mut i: usize = 0;
                    while i < wt.len()
                        invariant
                            i <= wt@.len(),
                            names@.len() == i,
                            forall|k: int|
                                0 <= k < i ==> (#[trigger] names@[k])@ == name@ + "-"@
                                    + wt@[k].0@,
                        decreases wt@.len() - i,
                    {
                        names.push(cat3(name, "-", wt[i].0.as_str()));
                        i += 1;
                    }
                    let tt = TileTemplate {
                        template: tpl,
                        tiles: TileTemplateTiles::WithoutTitle(names),
                    };
                    let tiles = tile_template(&tt);
                    proof {
                        assert forall|k: int| 0 <= k < tiles@.len() implies tile_wf(
                            #[trigger] tiles@[k],
                            false,
                        ) && tile_view(tiles@[k]) == spec_stamped_tiles(
                            l.websites_tile_template->0,
                            name@,
                            wt@,
                        )[k] by {
                            assert(tiles@[k] == spec_template_tile(tt.template, names@[k], None));
                        }
                        assert(tiles_wf(tiles@, false));
                    }
                    let mut tile_nodes = tiles_to_nodes(&tiles, false);
                    let ghost t0 = tile_nodes@;
                    proof {
                        assert(nodes_view(t0) =~~= spec_tiles_v(spec_stamped_tiles(
                            l.websites_tile_template->0,
                            name@,
                            wt@,
                        )));
                    }
                    let ghost res0 = res@;
                    res.append(&mut tile_nodes);
                    let cf = make_clearfix();
                    proof {
                        lemma_nodes_view_push(res@, cf);
                        lemma_nodes_view_concat(res0, t0);
                    }
                    res.push(cf);
                }
            }
        },
        None => (),
    }
    proof {
        assert(nodes_view(res@) =~~= spec_wtile_block(name@, *l, plain));
    }
    res
}

/// Compiles a catalog entry's links into ordered visual blocks.
pub fn tool_links(name: &str, l: &ToolLinks, plain: bool) -> (r: Vec<Node>)
    requires
        tool_links_wf(*l, plain),
    ensures
        nodes_view(r@) == spec_tool_links(name@, *l, plain),
{
    let mut res = links_block(name, l, plain);
    let ghost p1 = res@;
    let mut b2 = downloads_block(name, l, plain);
    let ghost p2 = b2@;
    res.append(&mut b2);
    proof {
        lemma_nodes_view_concat(p1, p2);
    }
    let ghost p12 = res@;
    let mut b3 = groups_block(name, l, plain);
    let ghost p3 = b3@;
    res.append(&mut b3);
    proof {
        lemma_nodes_view_concat(p12, p3);
    }
    let ghost p123 = res@;
    let mut b4 = wtile_block(name, l, plain);
    let ghost p4 = b4@;
    res.append(&mut b4);
    proof {
        lemma_nodes_view_concat(p123, p4);
        assert(nodes_view(res@) =~~= spec_tool_links(name@, *l, plain));
    }
    res
}


/// The notice block of one catalog entry: a bold caption, a break, the text.
pub open spec fn spec_tool_notice(notice: Seq<char>) -> NodeV {
    NodeV::Element {
        tag: Tag::P,
        attrs: Seq::empty(),
        children: seq![
            NodeV::Element {
                tag: Tag::B,
                attrs: Seq::empty(),
                children: seq![NodeV::Text { text: "注意事项"@ }],
            },
            NodeV::Element { tag: Tag::Br, attrs: Seq::empty(), children: Seq::empty() },
            NodeV::Text { text: notice },
        ],
    }
}

/// Compiles one notice block.
pub fn tool_notice(notice: &String) -> (r: Node)
    ensures
        r@ == spec_tool_notice(notice@),
{
    let bold = Node::Element {
        tag: Tag::B,
        attrs: Vec::new(),
        children: vec![Node::Text { text: "注意事项".to_owned() }],
    };
    proof {
        assert(nodes_view(bold->Element_children@) =~~= seq![node_view(
            bold->Element_children@[0],
        )]);
        assert(bold@ =~~= (NodeV::Element {
            tag: Tag::B,
            attrs: Seq::empty(),
            children: seq![NodeV::Text { text: "注意事项"@ }],
        }));
    }
    let br = Node::Element { tag: Tag::Br, attrs: Vec::new(), children: Vec::new() };
    let txt = Node::Text { text: notice.clone() };
    let r = Node::Element { tag: Tag::P, attrs: Vec::new(), children: vec![bold, br, txt] };
    proof {
        assert(nodes_view(r->Element_children@) =~~= seq![
            node_view(r->Element_children@[0]),
            node_view(r->Element_children@[1]),
            node_view(r->Element_children@[2]),
        ]);
        assert(r@ =~~= spec_tool_notice(notice@));
    }
    r
}

pub open spec fn spec_desc_children(t: Tool) -> Seq<NodeV> {
    match t.description {
        Some(d) => seq![NodeV::Text { text: d@ }],
        None => Seq::empty(),
    }
}

pub open spec fn spec_notice_part(t: Tool) -> Seq<NodeV> {
    match t.notice {
        Some(n) => seq![spec_tool_notice(n@)],
        None => Seq::empty(),
    }
}

/// The description paragraph of one catalog entry.
pub open spec fn spec_desc_node(t: Tool) -> NodeV {
    NodeV::Element { tag: Tag::P, attrs: Seq::empty(), children: spec_desc_children(t) }
}

fn desc_node(t: &Tool) -> (r: Node)
    ensures
        r@ == spec_desc_node(*t),
{
    let children: Vec<Node> = match &t.description {
        Some(d) => vec![Node::Text { text: d.clone() }],
        None => Vec::new(),
    };
    proof {
        assert(nodes_view(children@) =~~= spec_desc_children(*t));
    }
    let r = Node::Element { tag: Tag::P, attrs: Vec::new(), children };
    proof {
        assert(r@ =~~= spec_desc_node(*t));
    }
    r
}

/// The title line of the interactive widget: the optional icon image, then
/// the title text.
pub open spec fn spec_item_title(t: Tool) -> Seq<NodeV> {
    (if t.no_icon == Some(true) {
        Seq::empty()
    } else {
        seq![
            NodeV::Element {
                tag: Tag::Img,
                attrs: seq![
                    (
                        AttrKey::Src,
                        "{{ASSERT}}/image/icon-tool/"@ + (match t.icon {
                            Some(i) => i@,
                            None => t.name@,
                        }) + ".webp"@,
                    ),
                    (AttrKey::Alt, t.title@),
                ],
                children: Seq::empty(),
            },
        ]
    }) + seq![NodeV::Text { text: t.title@ }]
}

/// The interactive detail widget of one catalog entry.
pub open spec fn spec_tool(t: Tool) -> NodeV {
    NodeV::Element {
        tag: Tag::Template,
        attrs: seq![(AttrKey::Id, "tool-"@ + t.name@)],
        children: seq![
            NodeV::Element {
                tag: Tag::Div,
                attrs: seq![(AttrKey::Class, "item"@), (AttrKey::Onclick, "detail(this)"@)],
                children: seq![
                    NodeV::Element {
                        tag: Tag::Div,
                        attrs: seq![(AttrKey::Class, "item-title"@)],
                        children: spec_item_title(t),
                    },
                    spec_svg_icon("expand-right"@, "icon-line"@),
                    NodeV::Element {
                        tag: Tag::Div,
                        attrs: seq![(AttrKey::Class, "detail-container"@)],
                        children: seq![
                            NodeV::Element {
                                tag: Tag::Div,
                                attrs: seq![(AttrKey::Class, "detail"@)],
                                children: seq![spec_desc_node(t)] + spec_tool_links(
                                    t.name@,
                                    t.links,
                                    false,
                                ) + spec_notice_part(t),
                            },
                        ],
                    },
                ],
            },
        ],
    }
}

/// Compiles one catalog entry into its interactive detail widget.
#[verifier::rlimit(60)]
pub fn tool(t: &Tool) -> (r: Node)
    requires
        tool_links_wf(t.links, false),
    ensures
        r@ == spec_tool(*t),
{
    let mut title_children: Vec<Node> = Vec::new();
    let show_icon = match &t.no_icon {
        Some(b) => !*b,
        None => true,
    };
    if show_icon {
        let base = match &t.icon {
            Some(i) => i.as_str(),
            None => t.name.as_str(),
        };
        let img = Node::Element {
            tag: Tag::Img,
            attrs: vec![
                (AttrKey::Src, cat3("{{ASSERT}}/image/icon-tool/", base, ".webp")),
                (AttrKey::Alt, t.title.clone()),
            ],
            children: Vec::new(),
        };
        title_children.push(img);
    }
    title_children.push(Node::Text { text: t.title.clone() });
    proof {
        assert(nodes_view(title_children@) =~~= spec_item_title(*t));
    }
    let item_title = Node::Element {
        tag: Tag::Div,
        attrs: vec![(AttrKey::Class, "item-title".to_owned())],
        children: title_children,
    };
    proof {
        assert(item_title@ =~~= (NodeV::Element {
            tag: Tag::Div,
            attrs: seq![(AttrKey::Class, "item-title"@)],
            children: spec_item_title(*t),
        }));
    }
    let icon_line = svg_icon("expand-right", "icon-line");
    let mut detail_children: Vec<Node> = vec![desc_node(t)];
    let ghost d0 = detail_children@;
    let mut links = tool_links(t.name.as_str(), &t.links, false);
    let ghost l0 = links@;
    detail_children.append(&mut links);
    proof {
        lemma_nodes_view_concat(d0, l0);
    }
    match &t.notice {
        Some(n) => {
            let nn = tool_notice(n);
            proof {
                lemma_nodes_view_push(detail_children@, nn);
            }
            detail_children.push(nn);
        },
        None => (),
    }
    proof {
        assert(nodes_view(detail_children@) =~~= seq![spec_desc_node(*t)] + spec_tool_links(
            t.name@,
            t.links,
            false,
        ) + spec_notice_part(*t));
    }
    let detail = Node::Element {
        tag: Tag::Div,
        attrs: vec![(AttrKey::Class, "detail".to_owned())],
        children: detail_children,
    };
    proof {
        assert(detail@ =~~= (NodeV::Element {
            tag: Tag::Div,
            attrs: seq![(AttrKey::Class, "detail"@)],
            children: seq![spec_desc_node(*t)] + spec_tool_links(t.name@, t.links, false)
                + spec_notice_part(*t),
        }));
    }
    let container = Node::Element {
        tag: Tag::Div,
        attrs: vec![(AttrKey::Class, "detail-container".to_owned())],
        children: vec![detail],
    };
    proof {
        assert(nodes_view(container->Element_children@) =~~= seq![node_view(
            container->Element_children@[0],
        )]);
        assert(container@ =~~= (NodeV::Element {
            tag: Tag::Div,
            attrs: seq![(AttrKey::Class, "detail-container"@)],
            children: seq![
                NodeV::Element {
                    tag: Tag::Div,
                    attrs: seq![(AttrKey::Class, "detail"@)],
                    children: seq![spec_desc_node(*t)] + spec_tool_links(t.name@, t.links, false)
                        + spec_notice_part(*t),
                },
            ],
        }));
    }
    let item = Node::Element {
        tag: Tag::Div,
        attrs: vec![
            (AttrKey::Class, "item".to_owned()),
            (AttrKey::Onclick, "detail(this)".to_owned()),
        ],
        children: vec![item_title, icon_line, container],
    };
    proof {
        assert(nodes_view(item->Element_children@) =~~= seq![
            node_view(item->Element_children@[0]),
            node_view(item->Element_children@[1]),
            node_view(item->Element_children@[2]),
        ]);
        assert(item@ =~~= spec_tool(*t)->Element_children[0]);
    }
    let r = Node::Element {
        tag: Tag::Template,
        attrs: vec![(AttrKey::Id, cat2("tool-", t.name.as_str()))],
        children: vec![item],
    };
    proof {
        assert(nodes_view(r->Element_children@) =~~= seq![node_view(r->Element_children@[0])]);
        assert(r@ =~~= spec_tool(*t));
    }
    r
}

/// How a tool stands in a flat listing: in its own group, or cross-listed
/// from another group, normally or at the top.
#[derive(Clone, Copy, PartialEq, Eq, Structural, Debug)]
pub enum CrossType {
    Off,
    Cross,
    CrossTop,
}

pub open spec fn spec_is_cross(c: CrossType) -> bool {
    c != CrossType::Off
}

pub open spec fn spec_cross_sign(c: CrossType) -> Seq<char> {
    match c {
        CrossType::Cross => "[cross]"@,
        CrossType::CrossTop => "[cross-top]"@,
        CrossType::Off => Seq::empty(),
    }
}

impl CrossType {
    pub fn is_cross(&self) -> (r: bool)
        ensures
            r == spec_is_cross(*self),
    {
        match self {
            CrossType::Off => false,
            _ => true,
        }
    }

    /// The marker shown beside a cross-listed entry.
    pub fn cross_sign(&self) -> (r: &'static str)
        requires
            spec_is_cross(*self),
        ensures
            r@ == spec_cross_sign(*self),
    {
        match self {
            CrossType::Cross => "[cross]",
            _ => "[cross-top]",
        }
    }
}

/// The heading of one flat entry: title, slug in italics, and the cross
/// marker when the entry is cross-listed.
pub open spec fn spec_plain_heading(t: Tool, cross: CrossType) -> NodeV {
    NodeV::Element {
        tag: Tag::H3,
        attrs: seq![(AttrKey::Id, t.name@)],
        children: seq![
            NodeV::Text { text: t.title@ },
            NodeV::Text { text: " "@ },
            NodeV::Element {
                tag: Tag::I,
                attrs: Seq::empty(),
                children: seq![NodeV::Text { text: t.name@ }],
            },
        ] + if spec_is_cross(cross) {
            seq![
                NodeV::Text { text: " "@ },
                NodeV::Element {
                    tag: Tag::I,
                    attrs: seq![(AttrKey::Class, "hint"@)],
                    children: seq![NodeV::Text { text: spec_cross_sign(cross) }],
                },
            ]
        } else {
            Seq::empty()
        },
    }
}

/// One catalog entry as a flat document block: optional heading, description,
/// links, optional notice.
pub open spec fn spec_tool_plain(t: Tool, cross: CrossType, has_title: bool) -> Seq<NodeV> {
    (if has_title {
        seq![spec_plain_heading(t, cross)]
    } else {
        Seq::empty()
    }) + seq![spec_desc_node(t)] + spec_tool_links(t.name@, t.links, true) + spec_notice_part(t)
}

/// Compiles one catalog entry as a flat document block.
#[verifier::rlimit(100)]
pub fn tool_plain(t: &Tool, cross: CrossType, has_title: bool) -> (r: Vec<Node>)
    ensures
        nodes_view(r@) == spec_tool_plain(*t, cross, has_title),
{
    let mut r: Vec<Node> = Vec::new();
    if has_title {
        let mut hc: Vec<Node> = vec![
            Node::Text { text: t.title.clone() },
            Node::Text { text: " ".to_owned() },
        ];
        let ital = Node::Element {
            tag: Tag::I,
            attrs: Vec::new(),
            children: vec![Node::Text { text: t.name.clone() }],
        };
        proof {
            assert(nodes_view(ital->Element_children@) =~~= seq![node_view(
                ital->Element_children@[0],
            )]);
            assert(ital@ =~~= (NodeV::Element {
                tag: Tag::I,
                attrs: Seq::empty(),
                children: seq![NodeV::Text { text: t.name@ }],
            }));
        }
        hc.push(ital);
        if cross.is_cross() {
            hc.push(Node::Text { text: " ".to_owned() });
            let hint = Node::Element {
                tag: Tag::I,
                attrs: vec![(AttrKey::Class, "hint".to_owned())],
                children: vec![Node::Text { text: cross.cross_sign().to_owned() }],
            };
            proof {
                assert(nodes_view(hint->Element_children@) =~~= seq![node_view(
                    hint->Element_children@[0],
                )]);
                assert(hint@ =~~= (NodeV::Element {
                    tag: Tag::I,
                    attrs: seq![(AttrKey::Class, "hint"@)],
                    children: seq![NodeV::Text { text: spec_cross_sign(cross) }],
                }));
            }
            hc.push(hint);
            proof {
                assert(nodes_view(hc@) =~~= seq![
                    node_view(hc@[0]),
                    node_view(hc@[1]),
                    node_view(hc@[2]),
                    node_view(hc@[3]),
                    node_view(hc@[4]),
                ]);
            }
        } else {
            proof {
                assert(nodes_view(hc@) =~~= seq![
                    node_view(hc@[0]),
                    node_view(hc@[1]),
                    node_view(hc@[2]),
                ]);
            }
        }
        let heading = Node::Element {
            tag: Tag::H3,
            attrs: vec![(AttrKey::Id, t.name.clone())],
            children: hc,
        };
        proof {
            assert(attrs_view(heading->Element_attrs@) =~~= seq![(AttrKey::Id, t.name@)]);
            assert(nodes_view(heading->Element_children@) =~~= spec_plain_heading(
                *t,
                cross,
            )->Element_children);
            assert(heading@ =~~= spec_plain_heading(*t, cross));
            lemma_nodes_view_push(r@, heading);
        }
        r.push(heading);
    }
    let ghost h0 = nodes_view(r@);
    let dn = desc_node(t);
    proof {
        lemma_nodes_view_push(r@, dn);
    }
    r.push(dn);
    let ghost h1 = nodes_view(r@);
    let mut links = tool_links(t.name.as_str(), &t.links, true);
    let ghost r0 = r@;
    let ghost l0 = links@;
    r.append(&mut links);
    proof {
        lemma_nodes_view_concat(r0, l0);
    }
    match &t.notice {
        Some(n) => {
            let nn = tool_notice(n);
            proof {
                lemma_nodes_view_push(r@, nn);
            }
            r.push(nn);
        },
        None => (),
    }
    proof {
        assert(nodes_view(r@) =~~= spec_tool_plain(*t, cross, has_title));
    }
    r
}


/// One table-of-contents line: the group's title linking to its anchor, then
/// its slug in italics.
pub open spec fn spec_toc_entry(g: ToolGroup) -> NodeV {
    NodeV::Element {
        tag: Tag::P,
        attrs: Seq::empty(),
        children: seq![
            NodeV::Element {
                tag: Tag::A,
                attrs: seq![(AttrKey::Href, "#"@ + group_name_of(g))],
                children: seq![NodeV::Text { text: group_title_of(g) }],
            },
            NodeV::Text { text: " "@ },
            NodeV::Element {
                tag: Tag::I,
                attrs: Seq::empty(),
                children: seq![NodeV::Text { text: group_name_of(g) }],
            },
        ],
    }
}

/// The table of contents of the flat document: a heading, then one line per
/// group, in order.
pub open spec fn spec_tools_plain_toc(gs: Seq<ToolGroup>) -> Seq<NodeV> {
    seq![
        NodeV::Element {
            tag: Tag::H2,
            attrs: seq![(AttrKey::Id, "toc"@)],
            children: seq![NodeV::Text { text: "目录"@ }],
        },
    ] + Seq::new(gs.len(), |i: int| spec_toc_entry(gs[i]))
}

pub open spec fn toc_wf(gs: Seq<ToolGroup>) -> bool {
    forall|i: int|
        0 <= i < gs.len() ==> ((#[trigger] gs[i]).name is Some && gs[i].title is Some) || gs[i].list@.len()
            > 0
}

/// Compiles the flat document's table of contents.
pub fn tools_plain_toc(groups: &Vec<ToolGroup>) -> (r: Vec<Node>)
    requires
        toc_wf(groups@),
    ensures
        nodes_view(r@) == spec_tools_plain_toc(groups@),
{
    let head = Node::Element {
        tag: Tag::H2,
        attrs: vec![(AttrKey::Id, "toc".to_owned())],
        children: vec![Node::Text { text: "目录".to_owned() }],
    };
    proof {
        assert(nodes_view(head->Element_children@) =~~= seq![node_view(
            head->Element_children@[0],
        )]);
        assert(head@ =~~= spec_tools_plain_toc(groups@)[0]);
    }
    let mut r: Vec<Node> = vec![head];
    let mut gi: usize = 0;
    while gi < groups.len()
        invariant
            gi <= groups@.len(),
            toc_wf(groups@),
            nodes_view(r@) =~= seq![spec_tools_plain_toc(groups@)[0]] + Seq::new(
                gi as nat,
                |i: int| spec_toc_entry(groups@[i]),
            ),
        decreases groups@.len() - gi,
    {
        let g = &groups[gi];
        let name = match &g.name {
            Some(n) => n.clone(),
            None => g.list[0].name.clone(),
        };
        let title = match &g.title {
            Some(t) => t.clone(),
            None => g.list[0].title.clone(),
        };
        proof {
            assert(name@ == group_name_of(groups@[gi as int]));
            assert(title@ == group_title_of(groups@[gi as int]));
        }
        let anchor = Node::Element {
            tag: Tag::A,
            attrs: vec![(AttrKey::Href, cat2("#", name.as_str()))],
            children: vec![Node::Text { text: title }],
        };
        proof {
            assert(nodes_view(anchor->Element_children@) =~~= seq![node_view(
                anchor->Element_children@[0],
            )]);
            assert(anchor@ =~~= (NodeV::Element {
                tag: Tag::A,
                attrs: seq![(AttrKey::Href, "#"@ + group_name_of(groups@[gi as int]))],
                children: seq![NodeV::Text { text: group_title_of(groups@[gi as int]) }],
            }));
        }
        let ital = Node::Element {
            tag: Tag::I,
            attrs: Vec::new(),
            children: vec![Node::Text { text: name }],
        };
        proof {
            assert(nodes_view(ital->Element_children@) =~~= seq![node_view(
                ital->Element_children@[0],
            )]);
            assert(ital@ =~~= (NodeV::Element {
                tag: Tag::I,
                attrs: Seq::empty(),
                children: seq![NodeV::Text { text: group_name_of(groups@[gi as int]) }],
            }));
        }
        let sp = Node::Text { text: " ".to_owned() };
        let line = Node::Element {
            tag: Tag::P,
            attrs: Vec::new(),
            children: vec![anchor, sp, ital],
        };
        proof {
            assert(nodes_view(line->Element_children@) =~~= seq![
                node_view(line->Element_children@[0]),
                node_view(line->Element_children@[1]),
                node_view(line->Element_children@[2]),
            ]);
            assert(line@ =~~= spec_toc_entry(groups@[gi as int]));
            lemma_nodes_view_push(r@, line);
            assert(Seq::new((gi + 1) as nat, |i: int| spec_toc_entry(groups@[i])) =~= Seq::new(
                gi as nat,
                |i: int| spec_toc_entry(groups@[i]),
            ).push(spec_toc_entry(groups@[gi as int])));
        }
        r.push(line);
        gi += 1;
    }
    proof {
        assert(nodes_view(r@) =~~= spec_tools_plain_toc(groups@));
    }
    r
}

/// One legacy button: an anchor styled as a button, linked when it has a
/// target.
pub open spec fn spec_classic_button(b: ClassicButton, top: bool) -> NodeV {
    let cls = "button"@ + (if !top {
        " button-detail"@
    } else {
        Seq::<char>::empty()
    }) + (if b.target is None {
        " button-nolink"@
    } else {
        Seq::<char>::empty()
    });
    NodeV::Element {
        tag: Tag::P,
        attrs: Seq::empty(),
        children: seq![
            NodeV::Element {
                tag: Tag::A,
                attrs: seq![(AttrKey::Class, cls)] + (match b.target {
                    Some(tg) => seq![(AttrKey::Href, "//r.ldt.pc.wiki/r/"@ + tg@)],
                    None => Seq::empty(),
                }),
                children: seq![NodeV::Text { text: b.text@ }],
            },
        ],
    }
}

/// Compiles one legacy button.
pub fn classic_button(b: &ClassicButton, top: bool) -> (r: Node)
    ensures
        r@ == spec_classic_button(*b, top),
{
    let mut cls = "button".to_owned();
    if !top {
        cls.append(" button-detail");
    }
    if b.target.is_none() {
        cls.append(" button-nolink");
    }
    let mut attrs: Vec<(AttrKey, String)> = vec![(AttrKey::Class, cls)];
    match &b.target {
        Some(tg) => {
            attrs.push((AttrKey::Href, cat2("//r.ldt.pc.wiki/r/", tg.as_str())));
        },
        None => (),
    }
    let anchor = Node::Element {
        tag: Tag::A,
        attrs,
        children: vec![Node::Text { text: b.text.clone() }],
    };
    proof {
        assert(nodes_view(anchor->Element_children@) =~~= seq![node_view(
            anchor->Element_children@[0],
        )]);
        assert(anchor@ =~~= spec_classic_button(*b, top)->Element_children[0]);
    }
    let r = Node::Element { tag: Tag::P, attrs: Vec::new(), children: vec![anchor] };
    proof {
        assert(nodes_view(r->Element_children@) =~~= seq![node_view(r->Element_children@[0])]);
        assert(r@ =~~= spec_classic_button(*b, top));
    }
    r
}

/// One legacy text run, in body or footer style.
pub open spec fn spec_classic_text(t: ClassicText) -> NodeV {
    NodeV::Element {
        tag: Tag::Span,
        attrs: seq![
            (
                AttrKey::Class,
                if t.footer {
                    "text-detail-footer"@
                } else {
                    "text"@
                },
            ),
        ],
        children: seq![NodeV::Text { text: t.text@ }],
    }
}

/// Compiles one legacy text run.
pub fn classic_text(t: &ClassicText) -> (r: Node)
    ensures
        r@ == spec_classic_text(*t),
{
    let cls = if t.footer {
        "text-detail-footer".to_owned()
    } else {
        "text".to_owned()
    };
    let r = Node::Element {
        tag: Tag::Span,
        attrs: vec![(AttrKey::Class, cls)],
        children: vec![Node::Text { text: t.text.clone() }],
    };
    proof {
        assert(nodes_view(r->Element_children@) =~~= seq![node_view(r->Element_children@[0])]);
        assert(r@ =~~= spec_classic_text(*t));
    }
    r
}

pub open spec fn spec_classic_sub(n: ClassicSubNode) -> NodeV {
    match n {
        ClassicSubNode::Button(b) => spec_classic_button(b, false),
        ClassicSubNode::Text(t) => spec_classic_text(t),
    }
}

/// The two nodes of one legacy list: its toggle button, then the container of
/// its sub-nodes.
pub open spec fn spec_classic_list(l: ClassicList) -> Seq<NodeV> {
    seq![
        NodeV::Element {
            tag: Tag::P,
            attrs: Seq::empty(),
            children: seq![
                NodeV::Element {
                    tag: Tag::A,
                    attrs: seq![
                        (AttrKey::Class, "button"@),
                        (AttrKey::Onclick, "detail('"@ + l.id@ + "')"@),
                    ],
                    children: seq![NodeV::Text { text: l.text@ }],
                },
            ],
        },
        NodeV::Element {
            tag: Tag::Div,
            attrs: seq![
                (AttrKey::Class, "detail-container"@),
                (AttrKey::Id, l.id@ + "-detail"@),
            ],
            children: Seq::new(l.content@.len(), |i: int| spec_classic_sub(l.content@[i])),
        },
    ]
}

/// Compiles one legacy list, appending its two nodes.
pub fn classic_list(l: &ClassicList, list: &mut Vec<Node>)
    ensures
        final(list)@.len() == old(list)@.len() + 2,
        nodes_view(final(list)@) == nodes_view(old(list)@) + spec_classic_list(*l),
{
    let anchor = Node::Element {
        tag: Tag::A,
        attrs: vec![
            (AttrKey::Class, "button".to_owned()),
            (AttrKey::Onclick, cat3("detail('", l.id.as_str(), "')")),
        ],
        children: vec![Node::Text { text: l.text.clone() }],
    };
    proof {
        assert(nodes_view(anchor->Element_children@) =~~= seq![node_view(
            anchor->Element_children@[0],
        )]);
        assert(anchor@ =~~= spec_classic_list(*l)[0]->Element_children[0]);
    }
    let button_line = Node::Element { tag: Tag::P, attrs: Vec::new(), children: vec![anchor] };
    proof {
        assert(nodes_view(button_line->Element_children@) =~~= seq![node_view(
            button_line->Element_children@[0],
        )]);
        assert(button_line@ =~~= spec_classic_list(*l)[0]);
        lemma_nodes_view_push(list@, button_line);
    }
    list.push(button_line);
    let mut inner: Vec<Node> = Vec::new();
    let mut i: usize = 0;
    while i < l.content.len()
        invariant
            i <= l.content@.len(),
            nodes_view(inner@) =~= Seq::new(i as nat, |k: int| spec_classic_sub(l.content@[k])),
        decreases l.content@.len() - i,
    {
        let n = match &l.content[i] {
            ClassicSubNode::Button(b) => classic_button(b, false),
            ClassicSubNode::Text(t) => classic_text(t),
        };
        proof {
            assert(n@ == spec_classic_sub(l.content@[i as int]));
            lemma_nodes_view_push(inner@, n);
            assert(Seq::new((i + 1) as nat, |k: int| spec_classic_sub(l.content@[k])) =~= Seq::new(
                i as nat,
                |k: int| spec_classic_sub(l.content@[k]),
            ).push(spec_classic_sub(l.content@[i as int])));
        }
        inner.push(n);
        i += 1;
    }
    let container = Node::Element {
        tag: Tag::Div,
        attrs: vec![
            (AttrKey::Class, "detail-container".to_owned()),
            (AttrKey::Id, cat2(l.id.as_str(), "-detail")),
        ],
        children: inner,
    };
    proof {
        assert(container@ =~~= spec_classic_list(*l)[1]);
        lemma_nodes_view_push(list@, container);
    }
    list.push(container);
    proof {
        assert(nodes_view(list@) =~= nodes_view(old(list)@) + spec_classic_list(*l));
    }
}

/// What one legacy root node compiles to.
pub open spec fn spec_classic_root(n: ClassicRootNode) -> Seq<NodeV> {
    match n {
        ClassicRootNode::Button(b) => seq![spec_classic_button(b, true)],
        ClassicRootNode::Text(t) => seq![spec_classic_text(t)],
        ClassicRootNode::List(l) => spec_classic_list(l),
    }
}

/// The whole legacy page body, node by node.
pub open spec fn spec_classic(ns: Seq<ClassicRootNode>) -> Seq<NodeV>
    decreases ns.len(),
{
    if ns.len() == 0 {
        Seq::empty()
    } else {
        spec_classic(ns.drop_last()) + spec_classic_root(ns.last())
    }
}

/// Compiles the legacy button tree.
pub fn classic(nodes: &Vec<ClassicRootNode>) -> (r: Vec<Node>)
    ensures
        nodes_view(r@) == spec_classic(nodes@),
{
    let mut r: Vec<Node> = Vec::new();
    let mut i: usize = 0;
    proof {
        assert(nodes_view(r@) =~= spec_classic(nodes@.take(0)));
    }
    while i < nodes.len()
        invariant
            i <= nodes@.len(),
            nodes_view(r@) == spec_classic(nodes@.take(i as int)),
        decreases nodes@.len() - i,
    {
        proof {
            assert(nodes@.take(i + 1 as int).drop_last() =~= nodes@.take(i as int));
            assert(nodes@.take(i + 1 as int).last() == nodes@[i as int]);
        }
        match &nodes[i] {
            ClassicRootNode::Button(b) => {
                let n = classic_button(b, true);
                proof {
                    lemma_nodes_view_push(r@, n);
                    assert(nodes_view(r@.push(n)) =~= spec_classic(nodes@.take(i + 1 as int)));
                }
                r.push(n);
            },
            ClassicRootNode::Text(t) => {
                let n = classic_text(t);
                proof {
                    lemma_nodes_view_push(r@, n);
                    assert(nodes_view(r@.push(n)) =~= spec_classic(nodes@.take(i + 1 as int)));
                }
                r.push(n);
            },
            ClassicRootNode::List(l) => {
                classic_list(l, &mut r);
                proof {
                    assert(nodes_view(r@) =~= spec_classic(nodes@.take(i + 1 as int)));
                }
            },
        }
        i += 1;
    }
    proof {
        assert(nodes@.take(nodes@.len() as int) =~= nodes@);
    }
    r
}


/// The flat heading of one index entry: the group title, its slug, the
/// single marker when it stands alone, and a link back to the contents.
pub open spec fn spec_plain_h2(name: Seq<char>, item: ToolIndexItem) -> NodeV {
    NodeV::Element {
        tag: Tag::H2,
        attrs: seq![(AttrKey::Id, name)],
        children: seq![
            NodeV::Text { text: item.title@ + " "@ },
            NodeV::Element {
                tag: Tag::I,
                attrs: Seq::empty(),
                children: seq![NodeV::Text { text: name }],
            },
            NodeV::Text { text: " "@ },
        ] + (if item.single {
            seq![
                NodeV::Element {
                    tag: Tag::I,
                    attrs: seq![(AttrKey::Class, "hint"@)],
                    children: seq![NodeV::Text { text: "[single]"@ }],
                },
                NodeV::Text { text: " "@ },
            ]
        } else {
            Seq::empty()
        }) + seq![
            NodeV::Element {
                tag: Tag::A,
                attrs: seq![(AttrKey::Class, "toc"@), (AttrKey::Href, "#toc"@)],
                children: seq![NodeV::Text { text: "[目录]"@ }],
            },
        ],
    }
}

/// A run of flat entries, one per listed tool name, in order.
pub open spec fn spec_plain_run(
    tm: Seq<(Seq<char>, Tool)>,
    names: Seq<String>,
    cross: CrossType,
    has_title: bool,
) -> Seq<NodeV>
    decreases names.len(),
{
    if names.len() == 0 {
        Seq::empty()
    } else {
        spec_plain_run(tm, names.drop_last(), cross, has_title) + spec_tool_plain(
            map_value_of(tm, names.last()@),
            cross,
            has_title,
        )
    }
}

/// The notice text shown after one cross-listed entry, when the matrix holds
/// one for it.
pub open spec fn spec_cross_note(
    cm: Seq<(Seq<char>, StrMap<String>)>,
    gname: Seq<char>,
    nm: Seq<char>,
) -> Seq<NodeV> {
    if map_contains_key(cm, gname) && map_contains_key(map_value_of(cm, gname)@, nm) {
        seq![NodeV::Text { text: map_value_of(map_value_of(cm, gname)@, nm)@ }]
    } else {
        Seq::empty()
    }
}

/// A run of cross-listed flat entries under `gname`, each with its notice.
pub open spec fn spec_cross_run(
    tm: Seq<(Seq<char>, Tool)>,
    cm: Seq<(Seq<char>, StrMap<String>)>,
    gname: Seq<char>,
    names: Seq<String>,
) -> Seq<NodeV>
    decreases names.len(),
{
    if names.len() == 0 {
        Seq::empty()
    } else {
        spec_cross_run(tm, cm, gname, names.drop_last()) + spec_tool_plain(
            map_value_of(tm, names.last()@),
            CrossType::Cross,
            true,
        ) + spec_cross_note(cm, gname, names.last()@)
    }
}

/// Everything one index entry contributes to the flat document.
pub open spec fn spec_plain_entry(
    tm: Seq<(Seq<char>, Tool)>,
    cm: Seq<(Seq<char>, StrMap<String>)>,
    name: Seq<char>,
    item: ToolIndexItem,
) -> Seq<NodeV> {
    seq![spec_plain_h2(name, item)] + (if item.single {
        spec_tool_plain(map_value_of(tm, item.list@[0]@), CrossType::Off, false)
    } else {
        spec_plain_run(tm, item.cross_top_list@, CrossType::CrossTop, true) + spec_plain_run(
            tm,
            item.list@,
            CrossType::Off,
            true,
        )
    }) + spec_cross_run(tm, cm, name, item.cross_list@)
}

/// The whole flat catalog document, entry by entry in index order.
pub open spec fn spec_tools_plain(
    tm: Seq<(Seq<char>, Tool)>,
    cm: Seq<(Seq<char>, StrMap<String>)>,
    idx: Seq<(Seq<char>, ToolIndexItem)>,
) -> Seq<NodeV>
    decreases idx.len(),
{
    if idx.len() == 0 {
        Seq::empty()
    } else {
        spec_tools_plain(tm, cm, idx.drop_last()) + spec_plain_entry(
            tm,
            cm,
            idx.last().0,
            idx.last().1,
        )
    }
}

/// A single group's flat entry carries no per-tool heading: after the group
/// line, its one tool is rendered without a title block.
pub proof fn lemma_single_entry_headingless(
    tm: Seq<(Seq<char>, Tool)>,
    cm: Seq<(Seq<char>, StrMap<String>)>,
    name: Seq<char>,
    item: ToolIndexItem,
)
    requires
        item.single,
    ensures
        spec_plain_entry(tm, cm, name, item) == seq![spec_plain_h2(name, item)]
            + spec_tool_plain(map_value_of(tm, item.list@[0]@), CrossType::Off, false)
            + spec_cross_run(tm, cm, name, item.cross_list@),
{
}

/// The flat document can be rendered: every listed tool name is bound in the
/// tool map, and a single group holds its one tool.
pub open spec fn tools_plain_wf(
    tm: Seq<(Seq<char>, Tool)>,
    cm: Seq<(Seq<char>, StrMap<String>)>,
    idx: Seq<(Seq<char>, ToolIndexItem)>,
) -> bool {
    &&& unique_keys(tm)
    &&& unique_keys(cm)
    &&& (forall|i: int| 0 <= i < cm.len() ==> unique_keys((#[trigger] cm[i]).1@))
    &&& (forall|i: int| 0 <= i < idx.len() && (#[trigger] idx[i]).1.single ==> idx[i].1.list@.len()
        >= 1)
    &&& (forall|i: int, j: int|
        0 <= i < idx.len() && 0 <= j < (#[trigger] idx[i]).1.list@.len() ==> map_contains_key(
            tm,
            (#[trigger] idx[i].1.list@[j])@,
        ))
    &&& (forall|i: int, j: int|
        0 <= i < idx.len() && 0 <= j < (#[trigger] idx[i]).1.cross_list@.len()
            ==> map_contains_key(tm, (#[trigger] idx[i].1.cross_list@[j])@))
    &&& (forall|i: int, j: int|
        0 <= i < idx.len() && 0 <= j < (#[trigger] idx[i]).1.cross_top_list@.len()
            ==> map_contains_key(tm, (#[trigger] idx[i].1.cross_top_list@[j])@))
}

fn plain_h2(name: &String, item: &ToolIndexItem) -> (r: Node)
    ensures
        r@ == spec_plain_h2(name@, *item),
{
    let mut hc: Vec<Node> = vec![Node::Text { text: cat2(item.title.as_str(), " ") }];
    let ital = Node::Element {
        tag: Tag::I,
        attrs: Vec::new(),
        children: vec![Node::Text { text: name.clone() }],
    };
    proof {
        assert(nodes_view(ital->Element_children@) =~~= seq![node_view(
            ital->Element_children@[0],
        )]);
        assert(ital@ =~~= (NodeV::Element {
            tag: Tag::I,
            attrs: Seq::empty(),
            children: seq![NodeV::Text { text: name@ }],
        }));
    }
    hc.push(ital);
    hc.push(Node::Text { text: " ".to_owned() });
    if item.single {
        let hint = Node::Element {
            tag: Tag::I,
            attrs: vec![(AttrKey::Class, "hint".to_owned())],
            children: vec![Node::Text { text: "[single]".to_owned() }],
        };
        proof {
            assert(nodes_view(hint->Element_children@) =~~= seq![node_view(
                hint->Element_children@[0],
            )]);
            assert(hint@ =~~= (NodeV::Element {
                tag: Tag::I,
                attrs: seq![(AttrKey::Class, "hint"@)],
                children: seq![NodeV::Text { text: "[single]"@ }],
            }));
        }
        hc.push(hint);
        hc.push(Node::Text { text: " ".to_owned() });
    }
    let toc_link = Node::Element {
        tag: Tag::A,
        attrs: vec![(AttrKey::Class, "toc".to_owned()), (AttrKey::Href, "#toc".to_owned())],
        children: vec![Node::Text { text: "[目录]".to_owned() }],
    };
    proof {
        assert(nodes_view(toc_link->Element_children@) =~~= seq![node_view(
            toc_link->Element_children@[0],
        )]);
        assert(toc_link@ =~~= (NodeV::Element {
            tag: Tag::A,
            attrs: seq![(AttrKey::Class, "toc"@), (AttrKey::Href, "#toc"@)],
            children: seq![NodeV::Text { text: "[目录]"@ }],
        }));
    }
    hc.push(toc_link);
    proof {
        if item.single {
            assert(nodes_view(hc@) =~~= seq![
                node_view(hc@[0]),
                node_view(hc@[1]),
                node_view(hc@[2]),
                node_view(hc@[3]),
                node_view(hc@[4]),
                node_view(hc@[5]),
            ]);
        } else {
            assert(nodes_view(hc@) =~~= seq![
                node_view(hc@[0]),
                node_view(hc@[1]),
                node_view(hc@[2]),
                node_view(hc@[3]),
            ]);
        }
    }
    let r = Node::Element { tag: Tag::H2, attrs: vec![(AttrKey::Id, name.clone())], children: hc };
    proof {
        assert(attrs_view(r->Element_attrs@) =~~= seq![(AttrKey::Id, name@)]);
        assert(nodes_view(r->Element_children@) =~~= spec_plain_h2(name@, *item)->Element_children);
        assert(r@ =~~= spec_plain_h2(name@, *item));
    }
    r
}

/// Appends one flat entry per tool named in `names`.
fn append_plain_run(
    res: &mut Vec<Node>,
    tools: &StrMap<Tool>,
    names: &Vec<String>,
    cross: CrossType,
    has_title: bool,
)
    requires
        unique_keys(tools@),
        forall|j: int| 0 <= j < names@.len() ==> map_contains_key(tools@, (#[trigger] names@[j])@),
    ensures
        nodes_view(final(res)@) == nodes_view(old(res)@) + spec_plain_run(
            tools@,
            names@,
            cross,
            has_title,
        ),
{
    let mut j: usize = 0;
    proof {
        assert(nodes_view(res@) =~= nodes_view(old(res)@) + spec_plain_run(
            tools@,
            names@.take(0),
            cross,
            has_title,
        ));
    }
    while j < names.len()
        invariant
            j <= names@.len(),
            unique_keys(tools@),
            forall|k: int| 0 <= k < names@.len() ==> map_contains_key(
                tools@,
                (#[trigger] names@[k])@,
            ),
            nodes_view(res@) == nodes_view(old(res)@) + spec_plain_run(
                tools@,
                names@.take(j as int),
                cross,
                has_title,
            ),
        decreases names@.len() - j,
    {
        let t = tools.must_get(names[j].as_str());
        let mut part = tool_plain(t, cross, has_title);
        let ghost r0 = res@;
        let ghost p0 = part@;
        res.append(&mut part);
        proof {
            lemma_nodes_view_concat(r0, p0);
            assert(names@.take(j + 1 as int).drop_last() =~= names@.take(j as int));
            assert(names@.take(j + 1 as int).last() == names@[j as int]);
            assert(nodes_view(res@) =~= nodes_view(old(res)@) + spec_plain_run(
                tools@,
                names@.take(j + 1 as int),
                cross,
                has_title,
            ));
        }
        j += 1;
    }
    proof {
        assert(names@.take(names@.len() as int) =~= names@);
    }
}

/// Compiles the whole catalog as a flat text-only document.
#[verifier::rlimit(100)]
pub fn tools_plain(tools: &StrMap<Tool>, index: &ToolIndex, cross: &ToolCross) -> (r: Vec<Node>)
    requires
        tools_plain_wf(tools@, cross@, index@),
    ensures
        nodes_view(r@) == spec_tools_plain(tools@, cross@, index@),
{
    let mut res: Vec<Node> = Vec::new();
    let mut ei: usize = 0;
    proof {
        assert(nodes_view(res@) =~= spec_tools_plain(tools@, cross@, index@.take(0)));
    }
    while ei < index.len()
        invariant
            ei <= index@.len(),
            tools_plain_wf(tools@, cross@, index@),
            nodes_view(res@) == spec_tools_plain(tools@, cross@, index@.take(ei as int)),
        decreases index@.len() - ei,
    {
        let name = index.key_at(ei).clone();
        let item = index.value_at(ei);
        proof {
            assert(name@ == index@[ei as int].0);
            assert(*item == index@[ei as int].1);
        }
        let ghost pre_entry = nodes_view(res@);
        let h2 = plain_h2(&name, item);
        proof {
            lemma_nodes_view_push(res@, h2);
        }
        res.push(h2);
        if item.single {
            let t = tools.must_get(item.list[0].as_str());
            let mut part = tool_plain(t, CrossType::Off, false);
            let ghost r0 = res@;
            let ghost p0 = part@;
            res.append(&mut part);
            proof {
                lemma_nodes_view_concat(r0, p0);
            }
        } else {
            append_plain_run(&mut res, tools, &item.cross_top_list, CrossType::CrossTop, true);
            append_plain_run(&mut res, tools, &item.list, CrossType::Off, true);
        }
        let ghost pre_cross = nodes_view(res@);
        let mut j: usize = 0;
        proof {
            assert(nodes_view(res@) =~= pre_cross + spec_cross_run(
                tools@,
                cross@,
                name@,
                item.cross_list@.take(0),
            ));
        }
        while j < item.cross_list.len()
            invariant
                j <= item.cross_list@.len(),
                tools_plain_wf(tools@, cross@, index@),
                ei < index@.len(),
                *item == index@[ei as int].1,
                name@ == index@[ei as int].0,
                nodes_view(res@) == pre_cross + spec_cross_run(
                    tools@,
                    cross@,
                    name@,
                    item.cross_list@.take(j as int),
                ),
            decreases item.cross_list@.len() - j,
        {
            let t = tools.must_get(item.cross_list[j].as_str());
            let mut part = tool_plain(t, CrossType::Cross, true);
            let ghost r0 = res@;
            let ghost p0 = part@;
            res.append(&mut part);
            proof {
                lemma_nodes_view_concat(r0, p0);
            }
            match cross.get(name.as_str()) {
                Some(inner) => {
                    proof {
                        let gi_ = choose|gi_: int|
                            0 <= gi_ < cross@.len() && cross@[gi_].0 == name@ && cross@[gi_].1
                                == *inner;
                        lemma_unique_key_at(cross@, gi_);
                    }
                    match inner.get(item.cross_list[j].as_str()) {
                        Some(noteref) => {
                            proof {
                                let ni_ = choose|ni_: int|
                                    0 <= ni_ < inner@.len() && inner@[ni_].0
                                        == item.cross_list@[j as int]@ && inner@[ni_].1 == *noteref;
                                lemma_unique_key_at(inner@, ni_);
                            }
                            let note = Node::Text { text: noteref.clone() };
                            proof {
                                lemma_nodes_view_push(res@, note);
                            }
                            res.push(note);
                        },
                        None => (),
                    }
                },
                None => (),
            }
            proof {
                assert(item.cross_list@.take(j + 1 as int).drop_last() =~= item.cross_list@.take(
                    j as int,
                ));
                assert(item.cross_list@.take(j + 1 as int).last()
                    == item.cross_list@[j as int]);
                assert(nodes_view(res@) =~= pre_cross + spec_cross_run(
                    tools@,
                    cross@,
                    name@,
                    item.cross_list@.take(j + 1 as int),
                ));
            }
            j += 1;
        }
        proof {
            assert(item.cross_list@.take(item.cross_list@.len() as int) =~= item.cross_list@);
            assert(index@.take(ei + 1 as int).drop_last() =~= index@.take(ei as int));
            assert(index@.take(ei + 1 as int).last() == index@[ei as int]);
            assert(nodes_view(res@) =~= spec_tools_plain(
                tools@,
                cross@,
                index@.take(ei + 1 as int),
            ));
        }
        ei += 1;
    }
    proof {
        assert(index@.take(index@.len() as int) =~= index@);
    }
    res
}

} // verus!

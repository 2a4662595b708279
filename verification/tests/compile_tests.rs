use ldtstore_codegen::compile::{side, tile, tile_template, tool, tool_plain, tools_plain, CrossType};
use ldtstore_codegen::node::{render_node, render_nodes, Node};
use ldtstore_codegen::resolve::tool_groups;
use ldtstore_codegen::schema::{
    Category, CategoryTab, Side, Tile, TileAction, TileTemplate, TileTemplateInner,
    TileTemplateTiles, Tool, ToolGroup, ToolLinks,
};

fn links() -> ToolLinks {
    ToolLinks {
        website: None,
        websites: None,
        websites_tile: None,
        websites_tile_template: None,
        downloads: None,
        downloads_groups: None,
        mirror: None,
        mirrors: None,
        columns: None,
    }
}

fn tool_named(name: &str, title: &str) -> Tool {
    Tool {
        name: name.to_owned(),
        title: title.to_owned(),
        no_icon: None,
        icon: None,
        description: None,
        notice: None,
        category: None,
        cross: None,
        cross_top: None,
        keywords: None,
        cross_notice: None,
        links: links(),
    }
}

fn plain_tile(action: TileAction, name: &str) -> Tile {
    Tile {
        tile: Some("t".to_owned()),
        font: None,
        action,
        icon_type: None,
        name: name.to_owned(),
        title: None,
        icon: None,
        path: None,
        subdomain: None,
    }
}

#[test]
fn template_expansion_preserves_order() {
    let t = TileTemplate {
        template: TileTemplateInner {
            tile: "cls".to_owned(),
            font: None,
            action: TileAction::Tool,
            icon_type: None,
        },
        tiles: TileTemplateTiles::WithoutTitle(vec![
            "a".to_owned(),
            "b".to_owned(),
            "c".to_owned(),
        ]),
    };
    let tiles = tile_template(&t);
    assert_eq!(tiles.len(), 3);
    assert_eq!(tiles[0].name, "a");
    assert_eq!(tiles[1].name, "b");
    assert_eq!(tiles[2].name, "c");
    for tl in &tiles {
        assert_eq!(tl.tile.as_deref(), Some("cls"));
        assert!(tl.title.is_none());
        assert!(matches!(tl.action, TileAction::Tool));
    }
}

#[test]
fn template_expansion_with_titles() {
    let t = TileTemplate {
        template: TileTemplateInner {
            tile: "cls".to_owned(),
            font: None,
            action: TileAction::Side,
            icon_type: None,
        },
        tiles: TileTemplateTiles::WithTitle(vec![
            ("x".to_owned(), "X title".to_owned()),
            ("y".to_owned(), "Y title".to_owned()),
        ]),
    };
    let tiles = tile_template(&t);
    assert_eq!(tiles.len(), 2);
    assert_eq!(tiles[0].name, "x");
    assert_eq!(tiles[0].title.as_deref(), Some("X title"));
    assert_eq!(tiles[1].name, "y");
    assert_eq!(tiles[1].title.as_deref(), Some("Y title"));
}

#[test]
fn copy_tile_click_handler() {
    let t = plain_tile(TileAction::Copy, "abc");
    let node = tile(&t);
    let html = render_node(&node);
    assert!(html.contains("onclick=\"copy('abc')\""));
    assert!(html.contains("class=\"tile t\""));
}

#[test]
fn subdomain_tile_links_out() {
    let mut t = plain_tile(TileAction::Subdomain, "box");
    t.subdomain = Some("box".to_owned());
    let html = render_node(&tile(&t));
    assert!(html.contains("href=\"//box.pc.wiki/\""));
    assert!(html.contains("target=\"_blank\""));
}

#[test]
fn rendering_is_deterministic() {
    let t = plain_tile(TileAction::Side, "n1");
    let once = render_node(&tile(&t));
    let twice = render_node(&tile(&t));
    assert_eq!(once, twice);
}

#[test]
fn text_is_escaped_on_serialization() {
    let n = Node::Text { text: "<a & \"b\">".to_owned() };
    assert_eq!(render_node(&n), "&lt;a &amp; &quot;b&quot;&gt;");
}

#[test]
fn single_group_flat_document_omits_heading() {
    let g = ToolGroup {
        name: None,
        title: None,
        cross_notice: None,
        no_icon: None,
        list: vec![tool_named("foo", "Foo tool")],
    };
    let c = Category {
        tool: CategoryTab { title: "t".to_owned(), content: vec![] },
        link: CategoryTab { title: "l".to_owned(), content: vec![] },
    };
    let (tools, data) = tool_groups(&vec![g], &c).unwrap();
    let nodes = tools_plain(&tools, &data.index, &data.cross);
    let html = render_nodes(&nodes);
    assert!(html.contains("<h2 id=\"foo\">"));
    assert!(html.contains("[single]"));
    assert!(!html.contains("<h3"));
}

#[test]
fn multi_tool_group_flat_document_has_headings() {
    let g = ToolGroup {
        name: Some("g1".to_owned()),
        title: Some("Group".to_owned()),
        cross_notice: None,
        no_icon: None,
        list: vec![tool_named("a", "A"), tool_named("b", "B")],
    };
    let c = Category {
        tool: CategoryTab { title: "t".to_owned(), content: vec![] },
        link: CategoryTab { title: "l".to_owned(), content: vec![] },
    };
    let (tools, data) = tool_groups(&vec![g], &c).unwrap();
    let nodes = tools_plain(&tools, &data.index, &data.cross);
    let html = render_nodes(&nodes);
    assert!(html.contains("<h3 id=\"a\">"));
    assert!(html.contains("<h3 id=\"b\">"));
}

#[test]
fn cross_listed_entry_carries_marker() {
    let t = tool_named("x", "X");
    let nodes = tool_plain(&t, CrossType::Cross, true);
    let html = render_nodes(&nodes);
    assert!(html.contains("[cross]"));
    let nodes_top = tool_plain(&t, CrossType::CrossTop, true);
    let html_top = render_nodes(&nodes_top);
    assert!(html_top.contains("[cross-top]"));
}

#[test]
fn tool_links_blocks_suppressed_when_empty() {
    let mut t = tool_named("x", "X");
    let html = render_nodes(&ldtstore_codegen::compile::tool_links("x", &t.links, true));
    assert_eq!(html, "");
    t.links.website = Some(ldtstore_codegen::schema::ToolLinkTitle::Type(
        ldtstore_codegen::schema::ToolLinkTitleType::Official,
    ));
    let html = render_nodes(&ldtstore_codegen::compile::tool_links("x", &t.links, false));
    assert!(html.contains("href=\"//r.ldt.pc.wiki/r2/x\""));
    assert!(html.contains("官方网站"));
}

#[test]
fn templated_side_renders_its_tiles() {
    let s = Side {
        name: "apps".to_owned(),
        title: "Apps".to_owned(),
        text: None,
        text_small: None,
        tiles: None,
        templated: Some(TileTemplate {
            template: TileTemplateInner {
                tile: "cls".to_owned(),
                font: None,
                action: TileAction::Tool,
                icon_type: None,
            },
            tiles: TileTemplateTiles::WithoutTitle(vec!["a".to_owned(), "b".to_owned()]),
        }),
    };
    let html = render_node(&side(&s));
    assert!(html.contains("id=\"side-apps\""));
    let first = html.find("onclick=\"tool('a')\"").unwrap();
    let second = html.find("onclick=\"tool('b')\"").unwrap();
    assert!(first < second);
    assert!(html.contains("clearfix"));
}

#[test]
fn widget_omits_icon_when_switched_off() {
    let mut t = tool_named("x", "X");
    let with_icon = render_node(&tool(&t));
    assert!(with_icon.contains("icon-tool/x.webp"));
    t.no_icon = Some(true);
    let without = render_node(&tool(&t));
    assert!(!without.contains("icon-tool/x.webp"));
}

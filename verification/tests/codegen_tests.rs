use ldtstore_codegen::codegen::{codegen, CodegenError, PageContent};
use ldtstore_codegen::schema::{
    Category, CategoryGroup, CategoryTab, Side, Tile, TileAction, TileGridMiddle, TileGrids, Tool,
    ToolGroup, ToolLinks,
};

fn links() -> ToolLinks {
    ToolLinks {
        website: None,
        websites: None,
        websites_tile: None,
        websites_tile_template: None,
        downloads: None,
        downloads_groups: None,
        mirror: None,
        mirrors: None,
        columns: None,
    }
}

fn tool(name: &str, title: &str) -> Tool {
    Tool {
        name: name.to_owned(),
        title: title.to_owned(),
        no_icon: None,
        icon: None,
        description: Some("a tool".to_owned()),
        notice: None,
        category: None,
        cross: None,
        cross_top: None,
        keywords: None,
        cross_notice: None,
        links: links(),
    }
}

fn side_tile(name: &str) -> Tile {
    Tile {
        tile: Some("t".to_owned()),
        font: None,
        action: TileAction::Side,
        icon_type: None,
        name: name.to_owned(),
        title: None,
        icon: None,
        path: None,
        subdomain: None,
    }
}

fn nine_tiles() -> Vec<Tile> {
    let mut v = Vec::new();
    for i in 0..9 {
        v.push(side_tile(&format!("tile{}", i)));
    }
    v
}

fn grids() -> TileGrids {
    TileGrids {
        left: vec![side_tile("left1")],
        middle: vec![
            TileGridMiddle { title: "First".to_owned(), content: vec![side_tile("m1")] },
            TileGridMiddle { title: "Second".to_owned(), content: vec![side_tile("m2")] },
            TileGridMiddle { title: "Third".to_owned(), content: nine_tiles() },
        ],
    }
}

fn content() -> PageContent {
    PageContent {
        public_sides: vec![
            Side {
                name: "about".to_owned(),
                title: "About".to_owned(),
                text: Some("hello".to_owned()),
                text_small: None,
                tiles: None,
                templated: None,
            },
        ],
        home_major: vec![vec![side_tile("h1")], vec![side_tile("h2")]],
        home_sides: vec![],
        tools_major: grids(),
        tools_sides: vec![],
        tools_tools: vec![
            ToolGroup {
                name: Some("g1".to_owned()),
                title: Some("Group one".to_owned()),
                cross_notice: None,
                no_icon: None,
                list: vec![tool("t1", "Tool one")],
            },
        ],
        tools_category: Category {
            tool: CategoryTab {
                title: "tools".to_owned(),
                content: vec![CategoryGroup { title: "cg".to_owned(), content: vec![] }],
            },
            link: CategoryTab { title: "links".to_owned(), content: vec![] },
        },
        legacy_buttons: vec![],
    }
}

#[test]
fn codegen_emits_five_fragments() {
    let (inserts, _tools, _data) = codegen(&content()).unwrap();
    assert_eq!(inserts.len(), 5);
    assert_eq!(inserts[0].0, "<!--{{codegen-home-major}}-->");
    assert_eq!(inserts[1].0, "<!--{{codegen-home-fragments}}-->");
    assert_eq!(inserts[2].0, "<!--{{codegen-tool-fragments}}-->");
    assert_eq!(inserts[3].0, "<!--{{codegen-tool-plain}}-->");
    assert_eq!(inserts[4].0, "<!--{{codegen-legacy-buttons}}-->");
    assert!(inserts[0].1.contains("tile-column"));
    assert!(inserts[1].1.contains("side-about"));
    assert!(inserts[2].1.contains("tool-t1"));
    assert!(inserts[2].1.contains("major-tiles"));
    assert!(inserts[2].1.contains("major-category"));
    assert!(inserts[3].1.contains("<h2 id=\"toc\">"));
    assert_eq!(inserts[4].1, "");
}

#[test]
fn codegen_rejects_bad_grid() {
    let mut c = content();
    c.tools_major.middle.pop();
    match codegen(&c) {
        Err(CodegenError::InvalidGrid) => (),
        _ => panic!("expected an invalid grid error"),
    }
}

#[test]
fn codegen_rejects_overfull_tab() {
    let mut c = content();
    for i in 0..5 {
        c.tools_category.tool.content.push(CategoryGroup {
            title: format!("g{}", i),
            content: vec![],
        });
    }
    match codegen(&c) {
        Err(CodegenError::InvalidCategoryTab) => (),
        _ => panic!("expected an invalid tab error"),
    }
}

#[test]
fn codegen_propagates_resolver_errors() {
    let mut c = content();
    c.tools_tools.push(ToolGroup {
        name: Some("g2".to_owned()),
        title: Some("Group two".to_owned()),
        cross_notice: None,
        no_icon: None,
        list: vec![tool("t1", "Tool one again")],
    });
    match codegen(&c) {
        Err(CodegenError::Resolve(_)) => (),
        _ => panic!("expected a resolver error"),
    }
}

use ldtstore_codegen::resolve::{tool_groups, ResolveError};
use ldtstore_codegen::schema::{
    Category, CategoryGroup, CategoryTab, Tile, TileAction, Tool, ToolGroup, ToolLinks,
};

fn links() -> ToolLinks {
    ToolLinks {
        website: None,
        websites: None,
        websites_tile: None,
        websites_tile_template: None,
        downloads: None,
        downloads_groups: None,
        mirror: None,
        mirrors: None,
        columns: None,
    }
}

fn tool(name: &str, title: &str) -> Tool {
    Tool {
        name: name.to_owned(),
        title: title.to_owned(),
        no_icon: None,
        icon: None,
        description: None,
        notice: None,
        category: None,
        cross: None,
        cross_top: None,
        keywords: None,
        cross_notice: None,
        links: links(),
    }
}

fn category_tile(name: &str, title: &str) -> Tile {
    Tile {
        tile: None,
        font: None,
        action: TileAction::Category,
        icon_type: None,
        name: name.to_owned(),
        title: Some(title.to_owned()),
        icon: None,
        path: None,
        subdomain: None,
    }
}

fn empty_category() -> Category {
    Category {
        tool: CategoryTab { title: "tools".to_owned(), content: vec![] },
        link: CategoryTab { title: "links".to_owned(), content: vec![] },
    }
}

fn category_with(decls: Vec<Tile>) -> Category {
    Category {
        tool: CategoryTab {
            title: "tools".to_owned(),
            content: vec![CategoryGroup { title: "g".to_owned(), content: decls }],
        },
        link: CategoryTab { title: "links".to_owned(), content: vec![] },
    }
}

fn group(name: &str, title: &str, tools: Vec<Tool>) -> ToolGroup {
    ToolGroup {
        name: Some(name.to_owned()),
        title: Some(title.to_owned()),
        cross_notice: None,
        no_icon: None,
        list: tools,
    }
}

#[test]
fn duplicate_tool_name_fails() {
    let groups = vec![
        group("g1", "Group one", vec![tool("dup", "Dup one")]),
        group("g2", "Group two", vec![tool("dup", "Dup two")]),
    ];
    let r = tool_groups(&groups, &empty_category());
    match r {
        Err(ResolveError::DuplicateTool(n)) => assert_eq!(n, "dup"),
        _ => panic!("expected a duplicate tool error"),
    }
}

#[test]
fn duplicate_group_name_fails() {
    let groups = vec![
        group("g1", "One", vec![tool("a", "A")]),
        group("g1", "Two", vec![tool("b", "B")]),
    ];
    let r = tool_groups(&groups, &empty_category());
    match r {
        Err(ResolveError::DuplicateGroup(n)) => assert_eq!(n, "g1"),
        _ => panic!("expected a duplicate group error"),
    }
}

#[test]
fn duplicate_category_fails() {
    let c = category_with(vec![category_tile("c1", "C1"), category_tile("c1", "C1 again")]);
    let r = tool_groups(&vec![], &c);
    match r {
        Err(ResolveError::DuplicateCategory(n)) => assert_eq!(n, "c1"),
        _ => panic!("expected a duplicate category error"),
    }
}

#[test]
fn undeclared_category_fails() {
    let mut t = tool("t1", "T1");
    t.category = Some(vec!["nope".to_owned()]);
    let groups = vec![group("g1", "One", vec![t])];
    let r = tool_groups(&groups, &empty_category());
    match r {
        Err(ResolveError::UndeclaredCategory(n)) => assert_eq!(n, "nope"),
        _ => panic!("expected an undeclared category error"),
    }
}

#[test]
fn undeclared_cross_group_fails() {
    let mut t = tool("t1", "T1");
    t.cross_notice = Some(vec![("ghost".to_owned(), "note".to_owned())]);
    let groups = vec![group("g1", "One", vec![t])];
    let r = tool_groups(&groups, &empty_category());
    match r {
        Err(ResolveError::UndeclaredCrossGroup(n)) => assert_eq!(n, "ghost"),
        _ => panic!("expected an undeclared cross group error"),
    }
}

#[test]
fn missing_group_name_fails() {
    let g = ToolGroup {
        name: None,
        title: None,
        cross_notice: None,
        no_icon: None,
        list: vec![tool("a", "A"), tool("b", "B")],
    };
    let r = tool_groups(&vec![g], &empty_category());
    match r {
        Err(ResolveError::MissingGroupName(i)) => assert_eq!(i, 0),
        _ => panic!("expected a missing group name error"),
    }
}

#[test]
fn category_membership_registered_once() {
    let c = category_with(vec![category_tile("c1", "Category one")]);
    let mut t = tool("t1", "T1");
    t.category = Some(vec!["c1".to_owned()]);
    let groups = vec![group("g1", "One", vec![t])];
    let (_tools, data) = tool_groups(&groups, &c).unwrap();
    let idx = data.category.index_of("c1").unwrap();
    let item = data.category.value_at(idx);
    assert_eq!(item.title, "Category one");
    assert_eq!(item.list.len(), 1);
    assert_eq!(item.list[0], "t1");
}

#[test]
fn cross_listing_registered() {
    let mut t2 = tool("t2", "T2");
    t2.cross = Some(vec!["g1".to_owned()]);
    let groups = vec![
        group("g1", "One", vec![tool("t1", "T1")]),
        group("g2", "Two", vec![t2]),
    ];
    let (_tools, data) = tool_groups(&groups, &empty_category()).unwrap();
    let idx = data.index.index_of("g1").unwrap();
    let item = data.index.value_at(idx);
    assert_eq!(item.list, vec!["t1".to_owned()]);
    assert_eq!(item.cross_list, vec!["t2".to_owned()]);
    assert!(!item.single);
}

#[test]
fn single_group_keyed_by_tool_name() {
    let g = ToolGroup {
        name: None,
        title: None,
        cross_notice: None,
        no_icon: None,
        list: vec![tool("foo", "Foo tool")],
    };
    let (_tools, data) = tool_groups(&vec![g], &empty_category()).unwrap();
    let idx = data.index.index_of("foo").unwrap();
    let item = data.index.value_at(idx);
    assert!(item.single);
    assert_eq!(item.title, "Foo tool");
    assert_eq!(item.list, vec!["foo".to_owned()]);
}

#[test]
fn cross_notice_rendered_with_group_title() {
    let mut g1 = group("g1", "One", vec![tool("t1", "T1")]);
    g1.cross_notice = Some("Shared notice".to_owned());
    let mut t2 = tool("t2", "T2");
    t2.cross_notice = Some(vec![("g1".to_owned(), "for g1".to_owned())]);
    let groups = vec![g1, group("g2", "Two", vec![t2])];
    let (_tools, data) = tool_groups(&groups, &empty_category()).unwrap();
    let gi = data.cross.index_of("g1").unwrap();
    let inner = data.cross.value_at(gi);
    let ni = inner.index_of("t2").unwrap();
    assert_eq!(inner.value_at(ni), "<b>Shared notice</b><br>for g1");
}

#[test]
fn search_key_is_title_and_keywords() {
    let mut t = tool("t1", "Title");
    t.keywords = Some("kw".to_owned());
    let groups = vec![group("g1", "One", vec![t])];
    let (_tools, data) = tool_groups(&groups, &empty_category()).unwrap();
    let i = data.all.index_of("Titlekw").unwrap();
    assert_eq!(data.all.value_at(i), "t1");
}

#[test]
fn non_index_group_tools_registered_without_entry() {
    let groups = vec![group("non-index", "Hidden", vec![tool("t1", "T1")])];
    let (tools, data) = tool_groups(&groups, &empty_category()).unwrap();
    assert!(tools.contains_key("t1"));
    assert!(!data.index.contains_key("non-index"));
}

#[test]
fn double_membership_listed_twice() {
    let c = category_with(vec![category_tile("c1", "C1")]);
    let mut t = tool("t1", "T1");
    t.category = Some(vec!["c1".to_owned(), "c1".to_owned()]);
    let groups = vec![group("g1", "One", vec![t])];
    let (_tools, data) = tool_groups(&groups, &c).unwrap();
    let idx = data.category.index_of("c1").unwrap();
    assert_eq!(data.category.value_at(idx).list, vec!["t1".to_owned(), "t1".to_owned()]);
}

#[test]
fn group_icon_switch_reaches_tools() {
    let mut g = group("g1", "One", vec![tool("t1", "T1")]);
    g.no_icon = Some(true);
    let (tools, _data) = tool_groups(&vec![g], &empty_category()).unwrap();
    let i = tools.index_of("t1").unwrap();
    assert_eq!(tools.value_at(i).no_icon, Some(true));
}

#[test]
fn cross_top_listed_separately() {
    let mut t2 = tool("t2", "T2");
    t2.cross_top = Some(vec!["g1".to_owned()]);
    let groups = vec![
        group("g1", "One", vec![tool("t1", "T1")]),
        group("g2", "Two", vec![t2]),
    ];
    let (_tools, data) = tool_groups(&groups, &empty_category()).unwrap();
    let idx = data.index.index_of("g1").unwrap();
    let item = data.index.value_at(idx);
    assert_eq!(item.cross_top_list, vec!["t2".to_owned()]);
    assert!(item.cross_list.is_empty());
}

use vstd::prelude::*;

use crate::node::Tag;

verus! {

/// Which page a content document belongs to.
#[derive(Clone, Copy, PartialEq, Eq, Structural, Debug)]
pub enum PageType {
    Home,
    Tool,
}

/// Which content area a document describes.
#[derive(Clone, Copy, PartialEq, Eq, Structural, Debug)]
pub enum InputType {
    Major,
    Sides,
    Tools,
    Category,
}

/// The heading level a tile caption may use.
#[derive(Clone, Copy, PartialEq, Eq, Structural, Debug)]
pub enum TileFont {
    H1,
    H2,
    H3,
    H4,
    H5,
}

impl TileFont {
    /// The element tag that carries a caption of this level.
    pub fn into_tag(&self) -> (r: Tag)
        ensures
            r == spec_font_tag(*self),
    {
        match self {
            TileFont::H1 => Tag::H1,
            TileFont::H2 => Tag::H2,
            TileFont::H3 => Tag::H3,
            TileFont::H4 => Tag::H4,
            TileFont::H5 => Tag::H5,
        }
    }
}

pub open spec fn spec_font_tag(f: TileFont) -> Tag {
    match f {
        TileFont::H1 => Tag::H1,
        TileFont::H2 => Tag::H2,
        TileFont::H3 => Tag::H3,
        TileFont::H4 => Tag::H4,
        TileFont::H5 => Tag::H5,
    }
}

/// What clicking a tile does.
#[derive(Clone, Copy, PartialEq, Eq, Structural, Debug)]
pub enum TileAction {
    Side,
    Tool,
    Category,
    Copy,
    Path,
    Subdomain,
    R,
    R2,
    NoOp,
}

/// A clickable unit on a page.
#[derive(Debug)]
pub struct Tile {
    pub tile: Option<String>,
    pub font: Option<TileFont>,
    pub action: TileAction,
    pub icon_type: Option<String>,
    pub name: String,
    pub title: Option<String>,
    pub icon: Option<String>,
    pub path: Option<String>,
    pub subdomain: Option<String>,
}

/// The style definition one template stamps onto every expanded tile.
#[derive(Debug)]
pub struct TileTemplateInner {
    pub tile: String,
    pub font: Option<TileFont>,
    pub action: TileAction,
    pub icon_type: Option<String>,
}

/// The tile list of a template: bare names, or (name, title) pairs.
#[derive(Debug)]
pub enum TileTemplateTiles {
    WithoutTitle(Vec<String>),
    WithTitle(Vec<(String, String)>),
}

/// One style definition expanded into one tile per listed name.
#[derive(Debug)]
pub struct TileTemplate {
    pub template: TileTemplateInner,
    pub tiles: TileTemplateTiles,
}

/// A named slide-out panel.
#[derive(Debug)]
pub struct Side {
    pub name: String,
    pub title: String,
    pub text: Option<String>,
    pub text_small: Option<bool>,
    pub tiles: Option<Vec<Tile>>,
    pub templated: Option<TileTemplate>,
}

/// The home page's tile columns.
pub type TileColumns = Vec<Vec<Tile>>;

/// The tool page's major grid: a left column and three titled middle blocks.
#[derive(Debug)]
pub struct TileGrids {
    pub left: Vec<Tile>,
    pub middle: Vec<TileGridMiddle>,
}

/// One titled block in the middle of the tool page's major grid.
#[derive(Debug)]
pub struct TileGridMiddle {
    pub title: String,
    pub content: Vec<Tile>,
}

/// The two-tab classification tree.
#[derive(Debug)]
pub struct Category {
    pub tool: CategoryTab,
    pub link: CategoryTab,
}

/// One tab of the classification tree.
#[derive(Debug)]
pub struct CategoryTab {
    pub title: String,
    pub content: Vec<CategoryGroup>,
}

/// One titled group of category tiles.
#[derive(Debug)]
pub struct CategoryGroup {
    pub title: String,
    pub content: Vec<Tile>,
}

/// A catalog entry's link kind: the redirect scheme or the mirror host.
#[derive(Clone, Copy, PartialEq, Eq, Structural, Debug)]
pub enum ToolLinkType {
    R2,
    Mirror,
}

impl ToolLinkType {
    pub fn as_str(&self) -> (r: &'static str)
        ensures
            *self == ToolLinkType::R2 ==> r@ == "r2"@,
            *self == ToolLinkType::Mirror ==> r@ == "mirror"@,
    {
        match self {
            ToolLinkType::R2 => "r2",
            ToolLinkType::Mirror => "mirror",
        }
    }
}

/// The icon drawn beside a catalog link.
#[derive(Clone, Copy, PartialEq, Eq, Structural, Debug)]
pub enum ToolLinkIcon {
    Link,
    Download,
}

impl ToolLinkIcon {
    pub fn as_str(&self) -> (r: &'static str)
        ensures
            *self == ToolLinkIcon::Link ==> r@ == "link"@,
            *self == ToolLinkIcon::Download ==> r@ == "download"@,
    {
        match self {
            ToolLinkIcon::Link => "link",
            ToolLinkIcon::Download => "download",
        }
    }
}

/// How a mirrored download is kept in step with its source.
#[derive(Clone, Copy, PartialEq, Eq, Structural, Debug)]
pub enum MirrorType {
    Active,
    Locked,
    Synced,
}

impl MirrorType {
    pub fn as_str(&self) -> (r: &'static str)
        ensures
            *self == MirrorType::Active ==> r@ == "active"@,
            *self == MirrorType::Locked ==> r@ == "locked"@,
            *self == MirrorType::Synced ==> r@ == "synced"@,
    {
        match self {
            MirrorType::Active => "active",
            MirrorType::Locked => "locked",
            MirrorType::Synced => "synced",
        }
    }
}

/// The stock wording a link title may pick instead of free text.
#[derive(Clone, Copy, PartialEq, Eq, Structural, Debug)]
pub enum ToolLinkTitleType {
    Official,
    Link,
    PageLink,
    Unofficial,
}

/// A link's caption: stock wording or free text.
#[derive(PartialEq, Eq, Debug)]
pub enum ToolLinkTitle {
    Type(ToolLinkTitleType),
    Text(String),
}

/// One rendered link of a catalog entry.
#[derive(Debug)]
pub struct ToolLink {
    pub title: ToolLinkTitle,
    pub link_type: ToolLinkType,
    pub link: String,
    pub icon: ToolLinkIcon,
}

/// The link payload of a catalog entry.
#[derive(Debug)]
pub struct ToolLinks {
    pub website: Option<ToolLinkTitle>,
    pub websites: Option<Vec<(String, ToolLinkTitle)>>,
    pub websites_tile: Option<Vec<(String, ToolLinkTitle)>>,
    pub websites_tile_template: Option<TileTemplateInner>,
    pub downloads: Option<Vec<(String, String)>>,
    pub downloads_groups: Option<Vec<(String, Vec<(String, String)>)>>,
    pub mirror: Option<MirrorType>,
    pub mirrors: Option<Vec<(String, String)>>,
    pub columns: Option<bool>,
}

/// One catalog entry.
#[derive(Debug)]
pub struct Tool {
    pub name: String,
    pub title: String,
    pub no_icon: Option<bool>,
    pub icon: Option<String>,
    pub description: Option<String>,
    pub notice: Option<String>,
    pub category: Option<Vec<String>>,
    pub cross: Option<Vec<String>>,
    pub cross_top: Option<Vec<String>>,
    pub keywords: Option<String>,
    pub cross_notice: Option<Vec<(String, String)>>,
    pub links: ToolLinks,
}

/// A named collection of catalog entries.
#[derive(Debug)]
pub struct ToolGroup {
    pub name: Option<String>,
    pub title: Option<String>,
    pub cross_notice: Option<String>,
    pub no_icon: Option<bool>,
    pub list: Vec<Tool>,
}

/// One button of the legacy page.
#[derive(Debug)]
pub struct ClassicButton {
    pub target: Option<String>,
    pub text: String,
}

/// One text run of the legacy page.
#[derive(Debug)]
pub struct ClassicText {
    pub footer: bool,
    pub text: String,
}

/// One expandable list of the legacy page.
#[derive(Debug)]
pub struct ClassicList {
    pub id: String,
    pub text: String,
    pub content: Vec<ClassicSubNode>,
}

/// A top-level node of the legacy page.
#[derive(Debug)]
pub enum ClassicRootNode {
    Button(ClassicButton),
    Text(ClassicText),
    List(ClassicList),
}

/// A node inside a legacy list.
#[derive(Debug)]
pub enum ClassicSubNode {
    Button(ClassicButton),
    Text(ClassicText),
}

/// Equal contents, element by element; `Vec` values compare by their views.
pub open spec fn opt_vec_eq<T>(a: Option<Vec<T>>, b: Option<Vec<T>>) -> bool {
    match (a, b) {
        (Option::Some(x), Option::Some(y)) => x@ == y@,
        (Option::None, Option::None) => true,
        _ => false,
    }
}

/// Equal grouped download tables: same group captions, same entry lists.
pub open spec fn downloads_groups_eq(
    a: Option<Vec<(String, Vec<(String, String)>)>>,
    b: Option<Vec<(String, Vec<(String, String)>)>>,
) -> bool {
    match (a, b) {
        (Option::Some(x), Option::Some(y)) => x@.len() == y@.len() && forall|i: int|
            0 <= i < x@.len() ==> (#[trigger] x@[i]).0 == y@[i].0 && x@[i].1@ == y@[i].1@,
        (Option::None, Option::None) => true,
        _ => false,
    }
}

/// Equal link payloads.
pub open spec fn tool_links_eq(a: ToolLinks, b: ToolLinks) -> bool {
    &&& a.website == b.website
    &&& opt_vec_eq(a.websites, b.websites)
    &&& opt_vec_eq(a.websites_tile, b.websites_tile)
    &&& a.websites_tile_template == b.websites_tile_template
    &&& opt_vec_eq(a.downloads, b.downloads)
    &&& downloads_groups_eq(a.downloads_groups, b.downloads_groups)
    &&& a.mirror == b.mirror
    &&& opt_vec_eq(a.mirrors, b.mirrors)
    &&& a.columns == b.columns
}

/// Equal catalog entries.
pub open spec fn tool_eq(a: Tool, b: Tool) -> bool {
    &&& a.name == b.name
    &&& a.title == b.title
    &&& a.no_icon == b.no_icon
    &&& a.icon == b.icon
    &&& a.description == b.description
    &&& a.notice == b.notice
    &&& opt_vec_eq(a.category, b.category)
    &&& opt_vec_eq(a.cross, b.cross)
    &&& opt_vec_eq(a.cross_top, b.cross_top)
    &&& a.keywords == b.keywords
    &&& opt_vec_eq(a.cross_notice, b.cross_notice)
    &&& tool_links_eq(a.links, b.links)
}

impl Clone for Tile {
    fn clone(&self) -> (r: Self)
        ensures
            r == *self,
    {
        Tile {
            tile: crate::text::clone_opt_string(&self.tile),
            font: self.font,
            action: self.action,
            icon_type: crate::text::clone_opt_string(&self.icon_type),
            name: self.name.clone(),
            title: crate::text::clone_opt_string(&self.title),
            icon: crate::text::clone_opt_string(&self.icon),
            path: crate::text::clone_opt_string(&self.path),
            subdomain: crate::text::clone_opt_string(&self.subdomain),
        }
    }
}

impl Clone for TileTemplateInner {
    fn clone(&self) -> (r: Self)
        ensures
            r == *self,
    {
        TileTemplateInner {
            tile: self.tile.clone(),
            font: self.font,
            action: self.action,
            icon_type: crate::text::clone_opt_string(&self.icon_type),
        }
    }
}

impl Clone for ToolLinkTitle {
    fn clone(&self) -> (r: Self)
        ensures
            r == *self,
    {
        match self {
            ToolLinkTitle::Type(t) => ToolLinkTitle::Type(*t),
            ToolLinkTitle::Text(s) => ToolLinkTitle::Text(s.clone()),
        }
    }
}

fn clone_title_pairs(v: &Vec<(String, ToolLinkTitle)>) -> (r: Vec<(String, ToolLinkTitle)>)
    ensures
        r@ == v@,
{
    let mut r: Vec<(String, ToolLinkTitle)> = Vec::new();
    let mut i: usize = 0;
    while i < v.len()
        invariant
            i <= v@.len(),
            r@ == v@.take(i as int),
        decreases v@.len() - i,
    {
        r.push((v[i].0.clone(), v[i].1.clone()));
        proof {
            assert(v@.take(i + 1 as int) =~= v@.take(i as int).push(v@[i as int]));
        }
        i += 1;
    }
    proof {
        assert(v@.take(v@.len() as int) =~= v@);
    }
    r
}

fn clone_opt_title_pairs(o: &Option<Vec<(String, ToolLinkTitle)>>) -> (r: Option<
    Vec<(String, ToolLinkTitle)>,
>)
    ensures
        opt_vec_eq(r, *o),
{
    match o {
        Some(v) => Some(clone_title_pairs(v)),
        None => None,
    }
}

fn clone_opt_string_pairs(o: &Option<Vec<(String, String)>>) -> (r: Option<Vec<(String, String)>>)
    ensures
        opt_vec_eq(r, *o),
{
    match o {
        Some(v) => Some(crate::text::clone_string_pairs(v)),
        None => None,
    }
}

fn clone_downloads_groups(o: &Option<Vec<(String, Vec<(String, String)>)>>) -> (r: Option<
    Vec<(String, Vec<(String, String)>)>,
>)
    ensures
        downloads_groups_eq(r, *o),
{
    match o {
        Some(v) => {
            let mut r: Vec<(String, Vec<(String, String)>)> = Vec::new();
            let mut i: usize = 0;
            while i < v.len()
                invariant
                    i <= v@.len(),
                    r@.len() == i,
                    forall|j: int|
                        0 <= j < i ==> (#[trigger] r@[j]).0 == v@[j].0 && r@[j].1@ == v@[j].1@,
                decreases v@.len() - i,
            {
                let entry = (v[i].0.clone(), crate::text::clone_string_pairs(&v[i].1));
                proof {
                    assert(entry.0 == v@[i as int].0);
                    assert(entry.1@ == v@[i as int].1@);
                }
                let ghost prev = r@;
                r.push(entry);
                proof {
                    assert(r@[i as int] == entry);
                    assert(forall|j: int| 0 <= j < i ==> r@[j] == prev[j]);
                }
                i += 1;
            }
            Some(r)
        },
        None => None,
    }
}

impl Clone for ToolLinks {
    fn clone(&self) -> (r: Self)
        ensures
            tool_links_eq(r, *self),
    {
        ToolLinks {
            website: match &self.website {
                Some(t) => Some(t.clone()),
                None => None,
            },
            websites: clone_opt_title_pairs(&self.websites),
            websites_tile: clone_opt_title_pairs(&self.websites_tile),
            websites_tile_template: match &self.websites_tile_template {
                Some(t) => Some(t.clone()),
                None => None,
            },
            downloads: clone_opt_string_pairs(&self.downloads),
            downloads_groups: clone_downloads_groups(&self.downloads_groups),
            mirror: self.mirror,
            mirrors: clone_opt_string_pairs(&self.mirrors),
            columns: self.columns,
        }
    }
}

impl Clone for Tool {
    fn clone(&self) -> (r: Self)
        ensures
            tool_eq(r, *self),
    {
        Tool {
            name: self.name.clone(),
            title: self.title.clone(),
            no_icon: self.no_icon,
            icon: crate::text::clone_opt_string(&self.icon),
            description: crate::text::clone_opt_string(&self.description),
            notice: crate::text::clone_opt_string(&self.notice),
            category: crate::text::clone_opt_vec_string(&self.category),
            cross: crate::text::clone_opt_vec_string(&self.cross),
            cross_top: crate::text::clone_opt_vec_string(&self.cross_top),
            keywords: crate::text::clone_opt_string(&self.keywords),
            cross_notice: clone_opt_string_pairs(&self.cross_notice),
            links: self.links.clone(),
        }
    }
}

/// The stock wording for each link-title kind.
pub fn tool_website_type(t: ToolLinkTitleType) -> (r: &'static str)
    ensures
        r@ == spec_tool_website_type(t),
{
    match t {
        ToolLinkTitleType::Official => "官方网站",
        ToolLinkTitleType::Link => "首发链接",
        ToolLinkTitleType::PageLink => "网页链接",
        ToolLinkTitleType::Unofficial => "<b>非官方</b>页面",
    }
}

pub open spec fn spec_tool_website_type(t: ToolLinkTitleType) -> Seq<char> {
    match t {
        ToolLinkTitleType::Official => "官方网站"@,
        ToolLinkTitleType::Link => "首发链接"@,
        ToolLinkTitleType::PageLink => "网页链接"@,
        ToolLinkTitleType::Unofficial => "<b>非官方</b>页面"@,
    }
}

/// The URL prefix each link kind resolves through.
pub fn tool_link_prefix(t: ToolLinkType) -> (r: &'static str)
    ensures
        r@ == spec_tool_link_prefix(t),
{
    match t {
        ToolLinkType::R2 => "//r.ldt.pc.wiki/r2/",
        ToolLinkType::Mirror => "//r.ldt.pc.wiki/mirror/",
    }
}

pub open spec fn spec_tool_link_prefix(t: ToolLinkType) -> Seq<char> {
    match t {
        ToolLinkType::R2 => "//r.ldt.pc.wiki/r2/"@,
        ToolLinkType::Mirror => "//r.ldt.pc.wiki/mirror/"@,
    }
}

/// The emoji that stands for a link icon on the text-only page.
pub fn tool_icon_emoji(t: ToolLinkIcon) -> (r: &'static str)
    ensures
        r@ == spec_tool_icon_emoji(t),
{
    match t {
        ToolLinkIcon::Link => "🔗",
        ToolLinkIcon::Download => "💾",
    }
}

pub open spec fn spec_tool_icon_emoji(t: ToolLinkIcon) -> Seq<char> {
    match t {
        ToolLinkIcon::Link => "🔗"@,
        ToolLinkIcon::Download => "💾"@,
    }
}

} // verus!

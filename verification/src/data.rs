use vstd::prelude::*;

use crate::strmap::StrMap;

verus! {

/// One group's entry in the resolved catalog index.
#[derive(Debug)]
pub struct ToolIndexItem {
    /// The group holds exactly one tool and no explicit name; the flat
    /// document then omits the group heading.
    pub single: bool,
    pub title: String,
    pub list: Vec<String>,
    pub cross_list: Vec<String>,
    pub cross_top_list: Vec<String>,
}

/// One category's entry in the resolved catalog.
#[derive(Debug)]
pub struct ToolCategoryItem {
    pub title: String,
    pub list: Vec<String>,
}

pub type ToolIndex = StrMap<ToolIndexItem>;

pub type ToolCategory = StrMap<ToolCategoryItem>;

pub type ToolAll = StrMap<String>;

pub type ToolCross = StrMap<StrMap<String>>;

/// The resolved catalog: group index, category membership, search keys, and
/// the cross-notice matrix.
#[derive(Debug)]
pub struct ToolData {
    pub index: ToolIndex,
    pub category: ToolCategory,
    pub all: ToolAll,
    pub cross: ToolCross,
}

/// The data payload a page embeds for client-side search.
#[derive(Debug)]
pub enum GlobalData {
    Home,
    Tool { tool: ToolData },
}

/// A hashed, integrity-tagged asset reference.
#[derive(Clone, Debug)]
pub struct Resource {
    pub path: String,
    pub integrity: Option<String>,
}

/// Everything one page needs spliced in before it is written out. Each
/// include pairs a window key with its already-serialized data payload.
#[derive(Debug)]
pub struct Boot {
    pub lang: Option<String>,
    pub css: Vec<Resource>,
    pub js: Vec<Resource>,
    pub minified_css: Vec<String>,
    pub minified_js: Vec<String>,
    pub includes: Vec<(String, String)>,
    pub head: String,
    pub body: String,
}

} // verus!

//! A build-time compiler for a static home page: it expands typed content
//! descriptions (tiles, side panels, a tool catalog, a category tree, legacy
//! buttons) into an HTML node tree, resolves the catalog's cross references
//! into search and membership indexes, and splices the rendered fragments
//! into page shells by ordered placeholder substitution, naming each emitted
//! asset after its content revision with a subresource-integrity digest.
//!
//! Reading and writing files, invoking the external minifier, and
//! (de)serializing the content documents stay outside the library; every
//! function here is a pure transformation with a stated contract.

pub mod node;
pub mod output;
pub mod codegen;
pub mod compile;
pub mod data;
pub mod resolve;
pub mod schema;
pub mod strmap;
pub mod subst;
pub mod text;

use vstd::prelude::*;

verus! {

/// Which base-URL profile a build substitutes into pages.
#[derive(Clone, Copy, PartialEq, Eq, Structural, Debug)]
pub enum Config {
    Prod,
    Dev,
}

impl Config {
    /// Human-readable profile name, embedded in emitted file headers.
    pub fn name(&self) -> (r: &'static str)
        ensures
            r@ == crate::output::spec_config_name(*self),
    {
        match self {
            Config::Prod => "Prod",
            Config::Dev => "Dev",
        }
    }

    /// The asset-host base URL this profile substitutes for the asset token.
    pub fn asset_base(&self) -> (r: &'static str)
        ensures
            r@ == crate::output::spec_config_assert(*self),
    {
        match self {
            Config::Prod => "//s0.ldt.pc.wiki",
            Config::Dev => "..",
        }
    }
}

} // verus!

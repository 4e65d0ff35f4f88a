//! Renders a package's documentation item graph into cross-linked Markdown pages: a cache
//! of resolved items, a renderer for type signatures, and relative links between pages.
pub mod model;
pub mod page;
pub mod pool;
pub mod render;
pub mod segment;
pub mod text;
pub mod types;
pub mod xref;

pub use model::{
    ExternalCrate, Item, ItemInner, ItemKind, Package, PathSummary, RenderError, Store,
};
pub use pool::{CachedItem, ItemCache, ItemId, ItemPool};
pub use segment::{ExportOption, Page, SegmentCollections};
pub use text::{caption, hide_code_block_lines};
pub use types::{
    BindingKind, DynTrait, FnSig, GenericArg, GenericArgs, GenericBound, Param, PathRef,
    PolyTrait, Term, TraitBoundModifier, TypeBinding, TypeExpr,
};

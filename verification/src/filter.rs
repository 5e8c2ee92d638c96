//! The filter pass: a filter node without children defines no effect, so it
//! is a no-op and is removed together with every node that references it
//! through a filter-reference attribute — an element under a removed filter
//! also became invisible.  Childless filters are collected from the tree as
//! it stands when the pass begins.

use vstd::prelude::*;

use crate::index::{childless_ids, forest_childless_ids};
use crate::prune::{prune_forest, prune_forest_removes, prune_rewrite};
use crate::tree::{AttrKind, NodeV, Tag, Tree};

verus! {

/// The whole pass: the cascade seeded with every childless filter.
pub open spec fn filter_pass(s: Seq<NodeV>) -> Seq<NodeV> {
    prune_forest(s, Tag::Filter, AttrKind::FilterRef, forest_childless_ids(s, Tag::Filter))
}

/// Whether the whole pass removes anything.
pub open spec fn filter_pass_removes(s: Seq<NodeV>) -> bool {
    prune_forest_removes(s, Tag::Filter, AttrKind::FilterRef, forest_childless_ids(s, Tag::Filter))
}

/// Remove childless filter elements together with every node that references
/// them through a filter-reference attribute.  Returns whether anything was
/// removed.
pub fn process_filter(tree: &mut Tree) -> (removed: bool)
    ensures
        final(tree)@ == filter_pass(old(tree)@),
        removed == filter_pass_removes(old(tree)@),
{
    let ids = childless_ids(&tree.nodes, Tag::Filter);
    let (out, any) = prune_rewrite(&tree.nodes, Tag::Filter, AttrKind::FilterRef, &ids);
    tree.nodes = out;
    any
}

} // verus!

//! Removal of invisible elements from a parsed vector-graphics document tree.
//!
//! The library walks an in-memory element tree and removes elements that can
//! never contribute visible output: elements hidden by `display:none` that
//! nothing references, path elements without drawable path data, clip paths
//! whose children cannot establish a clipping area, and childless (no-op)
//! filters.  Removing a clip path or a filter cascades to the elements that
//! reference it, since an element clipped or filtered by nothing renders
//! nothing.

#![allow(unused_imports)]

use vstd::prelude::*;

pub mod clip;
pub mod display;
pub mod filter;
pub mod index;
pub mod laws;
pub mod paths;
pub mod prune;
pub mod tree;

use crate::clip::{clip_pass, clip_pass_removes, process_clip_paths};
use crate::display::{display_pass, display_pass_removes, process_display_attribute};
use crate::filter::{filter_pass, filter_pass_removes, process_filter};
use crate::paths::{path_pass, path_pass_removes, process_paths};
use crate::tree::{NodeV, Tree};

verus! {

/// The four passes in their fixed order: display-none, empty-path, clip-path,
/// filter.  Each pass reads the tree as the previous pass left it.
pub open spec fn pipeline(s: Seq<NodeV>) -> Seq<NodeV> {
    filter_pass(clip_pass(path_pass(display_pass(s))))
}

/// Whether any of the four passes removes anything.
pub open spec fn pipeline_removes(s: Seq<NodeV>) -> bool {
    display_pass_removes(s) || path_pass_removes(display_pass(s)) || clip_pass_removes(
        path_pass(display_pass(s)),
    ) || filter_pass_removes(clip_pass(path_pass(display_pass(s))))
}

/// Remove the elements that can never contribute visible output: the
/// display-none, empty-path, clip-path, and filter passes, in that order,
/// each run once.  Returns whether anything was removed, so that the caller
/// can hand the tree to its cleanup of definition nodes left unreferenced as
/// a side effect.
pub fn remove_invisible_elements(tree: &mut Tree) -> (removed: bool)
    ensures
        final(tree)@ == pipeline(old(tree)@),
        removed == pipeline_removes(old(tree)@),
{
    let hidden = process_display_attribute(tree);
    let empty_paths = process_paths(tree);
    let clip_paths = process_clip_paths(tree);
    let filters = process_filter(tree);
    hidden || empty_paths || clip_paths || filters
}

} // verus!

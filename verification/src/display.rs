//! The display-none pass: removes every node that is explicitly hidden by
//! `display:none`, provided neither the node itself nor any descendant is
//! referenced from elsewhere.  A hidden node that is referenced can still
//! serve purely as a definition, so such chains are retained.  Usage is
//! judged against the tree as it stands when the pass begins.

use vstd::prelude::*;

use crate::index::{forest_link_ids, subtree_used, subtree_used_x, used_ids};
use crate::tree::{
    Node, NodeV, Tree, copy_attrs, has_display_none, lemma_nodes_view_index, lemma_nodes_view_len,
    lemma_nodes_view_push, node_has_display_none, node_view, nodes_view,
};

verus! {

/// A node qualifies for removal: hidden by the keyword "none", not itself
/// referenced, and without a referenced descendant at any depth.
pub open spec fn dn_removed(n: NodeV, used: Seq<u64>) -> bool {
    has_display_none(n) && !subtree_used(n, used)
}

/// The pass over a forest: qualifying nodes vanish with their whole subtree,
/// the rest keep their place and are rewritten recursively.
pub open spec fn dn_forest(s: Seq<NodeV>, used: Seq<u64>) -> Seq<NodeV>
    decreases s,
{
    if s.len() == 0 {
        Seq::empty()
    } else if dn_removed(s[0], used) {
        dn_forest(s.drop_first(), used)
    } else {
        seq![dn_node(s[0], used)] + dn_forest(s.drop_first(), used)
    }
}

/// The pass over a kept node: only its children change.
pub open spec fn dn_node(n: NodeV, used: Seq<u64>) -> NodeV
    decreases n,
{
    NodeV { children: dn_forest(n.children, used), ..n }
}

/// Did the pass remove anything in the forest?
pub open spec fn dn_forest_removes(s: Seq<NodeV>, used: Seq<u64>) -> bool
    decreases s,
{
    s.len() > 0 && (dn_removed(s[0], used) || dn_node_removes(s[0], used) || dn_forest_removes(
        s.drop_first(),
        used,
    ))
}

/// Did the pass remove anything below a kept node?
pub open spec fn dn_node_removes(n: NodeV, used: Seq<u64>) -> bool
    decreases n,
{
    dn_forest_removes(n.children, used)
}

/// The whole pass: usage is collected first, from the unmodified tree.
pub open spec fn display_pass(s: Seq<NodeV>) -> Seq<NodeV> {
    dn_forest(s, forest_link_ids(s))
}

/// Whether the whole pass removes anything.
pub open spec fn display_pass_removes(s: Seq<NodeV>) -> bool {
    dn_forest_removes(s, forest_link_ids(s))
}

pub proof fn lemma_dn_forest_push(s: Seq<NodeV>, x: NodeV, u: Seq<u64>)
    ensures
        dn_forest(s.push(x), u) == dn_forest(s, u) + (if dn_removed(x, u) {
            Seq::<NodeV>::empty()
        } else {
            seq![dn_node(x, u)]
        }),
        dn_forest_removes(s.push(x), u) == (dn_forest_removes(s, u) || dn_removed(x, u)
            || dn_node_removes(x, u)),
    decreases s.len(),
{
    let tail = (if dn_removed(x, u) {
        Seq::<NodeV>::empty()
    } else {
        seq![dn_node(x, u)]
    });
    if s.len() == 0 {
        assert(s.push(x).drop_first() =~= Seq::<NodeV>::empty());
        assert(s.push(x)[0] == x);
        if dn_removed(x, u) {
            assert(dn_forest(s.push(x), u) == dn_forest(s.push(x).drop_first(), u));
        } else {
            assert(dn_forest(s.push(x), u) == seq![dn_node(x, u)] + dn_forest(
                s.push(x).drop_first(),
                u,
            ));
        }
        assert(dn_forest(s.push(x), u) =~= dn_forest(s, u) + tail);
        assert(dn_forest_removes(s.push(x), u) == (dn_removed(x, u) || dn_node_removes(x, u)
            || dn_forest_removes(s.push(x).drop_first(), u)));
        assert(!dn_forest_removes(s.push(x).drop_first(), u));
    } else {
        lemma_dn_forest_push(s.drop_first(), x, u);
        assert(s.push(x).drop_first() =~= s.drop_first().push(x));
        assert(s.push(x)[0] == s[0]);
        if dn_removed(s[0], u) {
            assert(dn_forest(s.push(x), u) == dn_forest(s.drop_first().push(x), u));
        } else {
            assert(dn_forest(s.push(x), u) == seq![dn_node(s[0], u)] + dn_forest(
                s.drop_first().push(x),
                u,
            ));
        }
        assert(dn_forest(s.push(x), u) =~= dn_forest(s, u) + tail);
        assert(dn_forest_removes(s.push(x), u) == (dn_removed(s[0], u) || dn_node_removes(s[0], u)
            || dn_forest_removes(s.drop_first().push(x), u)));
    }
}

/// Rewrite a forest under the display-none rule.
fn dn_rewrite(cs: &Vec<Node>, used: &Vec<u64>) -> (r: (Vec<Node>, bool))
    ensures
        nodes_view(r.0@) == dn_forest(nodes_view(cs@), used@),
        r.1 == dn_forest_removes(nodes_view(cs@), used@),
    decreases cs,
{
    let ghost fv = nodes_view(cs@);
    proof {
        lemma_nodes_view_len(cs@);
    }
    let mut out: Vec<Node> = Vec::new();
    let mut any: bool = false;
    let mut c: usize = 0;
    while c < cs.len()
        invariant
            0 <= c <= cs@.len(),
            fv == nodes_view(cs@),
            fv.len() == cs@.len(),
            nodes_view(out@) == dn_forest(fv.subrange(0, c as int), used@),
            any == dn_forest_removes(fv.subrange(0, c as int), used@),
        decreases cs@.len() - c,
    {
        proof {
            lemma_nodes_view_index(cs@, c as int);
            assert(fv.subrange(0, c + 1 as int) =~= fv.subrange(0, c as int).push(fv[c as int]));
            lemma_dn_forest_push(fv.subrange(0, c as int), fv[c as int], used@);
        }
        let n = &cs[c];
        if node_has_display_none(n) && !subtree_used_x(n, used) {
            any = true;
        } else {
            let (kids, kids_removed) = dn_rewrite(&n.children, used);
            let rebuilt = Node { tag: n.tag, id: n.id, attrs: copy_attrs(&n.attrs), children: kids };
            proof {
                assert(node_view(rebuilt) =~= dn_node(fv[c as int], used@));
                lemma_nodes_view_push(out@, rebuilt);
            }
            out.push(rebuilt);
            assert(nodes_view(out@) =~= dn_forest(fv.subrange(0, c + 1 as int), used@));
            if kids_removed {
                any = true;
            }
        }
        c += 1;
    }
    assert(fv.subrange(0, fv.len() as int) =~= fv);
    (out, any)
}

/// Remove elements hidden by `display:none` that nothing references, together
/// with their subtrees.  Returns whether anything was removed.
pub fn process_display_attribute(tree: &mut Tree) -> (removed: bool)
    ensures
        final(tree)@ == display_pass(old(tree)@),
        removed == display_pass_removes(old(tree)@),
{
    let used = used_ids(&tree.nodes);
    let (out, any) = dn_rewrite(&tree.nodes, &used);
    tree.nodes = out;
    any
}

} // verus!

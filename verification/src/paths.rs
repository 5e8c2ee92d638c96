//! The empty-path pass: a path-tagged node is removed when its path-data
//! attribute is absent, holds a value of the wrong kind, or holds empty path
//! data.  The test is deliberately local — it ignores whether anything
//! references the path by identifier.

use vstd::prelude::*;

use crate::tree::{
    Node, NodeV, Tag, Tree, copy_attrs, has_drawable_path_data, lemma_nodes_view_index,
    lemma_nodes_view_len, lemma_nodes_view_push, node_has_drawable_path_data, node_view, nodes_view,
};

verus! {

/// The empty-path rule: a path element without drawable path data.
pub open spec fn path_removed(n: NodeV) -> bool {
    n.tag == Tag::Path && !has_drawable_path_data(n)
}

/// The pass over a forest.
pub open spec fn ep_forest(s: Seq<NodeV>) -> Seq<NodeV>
    decreases s,
{
    if s.len() == 0 {
        Seq::empty()
    } else if path_removed(s[0]) {
        ep_forest(s.drop_first())
    } else {
        seq![ep_node(s[0])] + ep_forest(s.drop_first())
    }
}

/// The pass over a kept node: only its children change.
pub open spec fn ep_node(n: NodeV) -> NodeV
    decreases n,
{
    NodeV { children: ep_forest(n.children), ..n }
}

/// Did the pass remove anything in the forest?
pub open spec fn ep_forest_removes(s: Seq<NodeV>) -> bool
    decreases s,
{
    s.len() > 0 && (path_removed(s[0]) || ep_node_removes(s[0]) || ep_forest_removes(
        s.drop_first(),
    ))
}

/// Did the pass remove anything below a kept node?
pub open spec fn ep_node_removes(n: NodeV) -> bool
    decreases n,
{
    ep_forest_removes(n.children)
}

/// The whole pass.
pub open spec fn path_pass(s: Seq<NodeV>) -> Seq<NodeV> {
    ep_forest(s)
}

/// Whether the whole pass removes anything.
pub open spec fn path_pass_removes(s: Seq<NodeV>) -> bool {
    ep_forest_removes(s)
}

pub proof fn lemma_ep_forest_push(s: Seq<NodeV>, x: NodeV)
    ensures
        ep_forest(s.push(x)) == ep_forest(s) + (if path_removed(x) {
            Seq::<NodeV>::empty()
        } else {
            seq![ep_node(x)]
        }),
        ep_forest_removes(s.push(x)) == (ep_forest_removes(s) || path_removed(x)
            || ep_node_removes(x)),
    decreases s.len(),
{
    let tail = (if path_removed(x) {
        Seq::<NodeV>::empty()
    } else {
        seq![ep_node(x)]
    });
    if s.len() == 0 {
        assert(s.push(x).drop_first() =~= Seq::<NodeV>::empty());
        assert(s.push(x)[0] == x);
        if path_removed(x) {
            assert(ep_forest(s.push(x)) == ep_forest(s.push(x).drop_first()));
        } else {
            assert(ep_forest(s.push(x)) == seq![ep_node(x)] + ep_forest(s.push(x).drop_first()));
        }
        assert(ep_forest(s.push(x)) =~= ep_forest(s) + tail);
        assert(ep_forest_removes(s.push(x)) == (path_removed(x) || ep_node_removes(x)
            || ep_forest_removes(s.push(x).drop_first())));
        assert(!ep_forest_removes(s.push(x).drop_first()));
    } else {
        lemma_ep_forest_push(s.drop_first(), x);
        assert(s.push(x).drop_first() =~= s.drop_first().push(x));
        assert(s.push(x)[0] == s[0]);
        if path_removed(s[0]) {
            assert(ep_forest(s.push(x)) == ep_forest(s.drop_first().push(x)));
        } else {
            assert(ep_forest(s.push(x)) == seq![ep_node(s[0])] + ep_forest(
                s.drop_first().push(x),
            ));
        }
        assert(ep_forest(s.push(x)) =~= ep_forest(s) + tail);
        assert(ep_forest_removes(s.push(x)) == (path_removed(s[0]) || ep_node_removes(s[0])
            || ep_forest_removes(s.drop_first().push(x))));
    }
}

/// Rewrite a forest under the empty-path rule.
fn ep_rewrite(cs: &Vec<Node>) -> (r: (Vec<Node>, bool))
    ensures
        nodes_view(r.0@) == ep_forest(nodes_view(cs@)),
        r.1 == ep_forest_removes(nodes_view(cs@)),
    decreases cs,
{
    let ghost fv = nodes_view(cs@);
    proof {
        lemma_nodes_view_len(cs@);
    }
    let mut out: Vec<Node> = Vec::new();
    let mut any: bool = false;
    let mut c: usize = 0;
    while c < cs.len()
        invariant
            0 <= c <= cs@.len(),
            fv == nodes_view(cs@),
            fv.len() == cs@.len(),
            nodes_view(out@) == ep_forest(fv.subrange(0, c as int)),
            any == ep_forest_removes(fv.subrange(0, c as int)),
        decreases cs@.len() - c,
    {
        proof {
            lemma_nodes_view_index(cs@, c as int);
            assert(fv.subrange(0, c + 1 as int) =~= fv.subrange(0, c as int).push(fv[c as int]));
            lemma_ep_forest_push(fv.subrange(0, c as int), fv[c as int]);
        }
        let n = &cs[c];
        if n.tag == Tag::Path && !node_has_drawable_path_data(n) {
            any = true;
        } else {
            let (kids, kids_removed) = ep_rewrite(&n.children);
            let rebuilt = Node { tag: n.tag, id: n.id, attrs: copy_attrs(&n.attrs), children: kids };
            proof {
                assert(node_view(rebuilt) =~= ep_node(fv[c as int]));
                lemma_nodes_view_push(out@, rebuilt);
            }
            out.push(rebuilt);
            assert(nodes_view(out@) =~= ep_forest(fv.subrange(0, c + 1 as int)));
            if kids_removed {
                any = true;
            }
        }
        c += 1;
    }
    assert(fv.subrange(0, fv.len() as int) =~= fv);
    (out, any)
}

/// Remove path elements with no drawable path data, together with their
/// subtrees.  Returns whether anything was removed.
pub fn process_paths(tree: &mut Tree) -> (removed: bool)
    ensures
        final(tree)@ == path_pass(old(tree)@),
        removed == path_pass_removes(old(tree)@),
{
    let (out, any) = ep_rewrite(&tree.nodes);
    tree.nodes = out;
    any
}

} // verus!

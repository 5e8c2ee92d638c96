//! Cascading removal over the reference graph, shared by the clip-path and
//! filter passes: given the identifiers of the disqualified definition nodes,
//! remove every childless node of the definition kind and every node that
//! references one of those identifiers through the given attribute kind.
//! Both tests read the tree as it stands when the cascade begins, so a node
//! emptied by the cascade itself is not removed within the same sweep.

use vstd::prelude::*;

use crate::tree::{
    AttrKind, Node, NodeV, Tag, copy_attrs, has_ref_into, lemma_nodes_view_index,
    lemma_nodes_view_len, lemma_nodes_view_push, node_has_ref_into, node_view, nodes_view,
};

verus! {

/// The cascade rule: a childless node of the definition kind `t`, or a node
/// referencing one of `ids` through an attribute of kind `k`.
pub open spec fn prune_removed(n: NodeV, t: Tag, k: AttrKind, ids: Seq<u64>) -> bool {
    (n.tag == t && n.children.len() == 0) || has_ref_into(n, k, ids)
}

/// The cascade over a forest.
pub open spec fn prune_forest(s: Seq<NodeV>, t: Tag, k: AttrKind, ids: Seq<u64>) -> Seq<NodeV>
    decreases s,
{
    if s.len() == 0 {
        Seq::empty()
    } else if prune_removed(s[0], t, k, ids) {
        prune_forest(s.drop_first(), t, k, ids)
    } else {
        seq![prune_node(s[0], t, k, ids)] + prune_forest(s.drop_first(), t, k, ids)
    }
}

/// The cascade over a kept node: only its children change.
pub open spec fn prune_node(n: NodeV, t: Tag, k: AttrKind, ids: Seq<u64>) -> NodeV
    decreases n,
{
    NodeV { children: prune_forest(n.children, t, k, ids), ..n }
}

/// Did the cascade remove anything in the forest?
pub open spec fn prune_forest_removes(s: Seq<NodeV>, t: Tag, k: AttrKind, ids: Seq<u64>) -> bool
    decreases s,
{
    s.len() > 0 && (prune_removed(s[0], t, k, ids) || prune_node_removes(s[0], t, k, ids)
        || prune_forest_removes(s.drop_first(), t, k, ids))
}

/// Did the cascade remove anything below a kept node?
pub open spec fn prune_node_removes(n: NodeV, t: Tag, k: AttrKind, ids: Seq<u64>) -> bool
    decreases n,
{
    prune_forest_removes(n.children, t, k, ids)
}

pub proof fn lemma_prune_forest_push(s: Seq<NodeV>, x: NodeV, t: Tag, k: AttrKind, ids: Seq<u64>)
    ensures
        prune_forest(s.push(x), t, k, ids) == prune_forest(s, t, k, ids) + (if prune_removed(
            x,
            t,
            k,
            ids,
        ) {
            Seq::<NodeV>::empty()
        } else {
            seq![prune_node(x, t, k, ids)]
        }),
        prune_forest_removes(s.push(x), t, k, ids) == (prune_forest_removes(s, t, k, ids)
            || prune_removed(x, t, k, ids) || prune_node_removes(x, t, k, ids)),
    decreases s.len(),
{
    let tail = (if prune_removed(x, t, k, ids) {
        Seq::<NodeV>::empty()
    } else {
        seq![prune_node(x, t, k, ids)]
    });
    if s.len() == 0 {
        assert(s.push(x).drop_first() =~= Seq::<NodeV>::empty());
        assert(s.push(x)[0] == x);
        if prune_removed(x, t, k, ids) {
            assert(prune_forest(s.push(x), t, k, ids) == prune_forest(
                s.push(x).drop_first(),
                t,
                k,
                ids,
            ));
        } else {
            assert(prune_forest(s.push(x), t, k, ids) == seq![prune_node(x, t, k, ids)]
                + prune_forest(s.push(x).drop_first(), t, k, ids));
        }
        assert(prune_forest(s.push(x), t, k, ids) =~= prune_forest(s, t, k, ids) + tail);
        assert(prune_forest_removes(s.push(x), t, k, ids) == (prune_removed(x, t, k, ids)
            || prune_node_removes(x, t, k, ids) || prune_forest_removes(
            s.push(x).drop_first(),
            t,
            k,
            ids,
        )));
        assert(!prune_forest_removes(s.push(x).drop_first(), t, k, ids));
    } else {
        lemma_prune_forest_push(s.drop_first(), x, t, k, ids);
        assert(s.push(x).drop_first() =~= s.drop_first().push(x));
        assert(s.push(x)[0] == s[0]);
        if prune_removed(s[0], t, k, ids) {
            assert(prune_forest(s.push(x), t, k, ids) == prune_forest(
                s.drop_first().push(x),
                t,
                k,
                ids,
            ));
        } else {
            assert(prune_forest(s.push(x), t, k, ids) == seq![prune_node(s[0], t, k, ids)]
                + prune_forest(s.drop_first().push(x), t, k, ids));
        }
        assert(prune_forest(s.push(x), t, k, ids) =~= prune_forest(s, t, k, ids) + tail);
        assert(prune_forest_removes(s.push(x), t, k, ids) == (prune_removed(s[0], t, k, ids)
            || prune_node_removes(s[0], t, k, ids) || prune_forest_removes(
            s.drop_first().push(x),
            t,
            k,
            ids,
        )));
    }
}

/// Rewrite a forest under the cascade rule.
pub fn prune_rewrite(cs: &Vec<Node>, t: Tag, k: AttrKind, ids: &Vec<u64>) -> (r: (Vec<Node>, bool))
    ensures
        nodes_view(r.0@) == prune_forest(nodes_view(cs@), t, k, ids@),
        r.1 == prune_forest_removes(nodes_view(cs@), t, k, ids@),
    decreases cs,
{
    let ghost fv = nodes_view(cs@);
    proof {
        lemma_nodes_view_len(cs@);
    }
    let mut out: Vec<Node> = Vec::new();
    let mut any: bool = false;
    let mut c: usize = 0;
    while c < cs.len()
        invariant
            0 <= c <= cs@.len(),
            fv == nodes_view(cs@),
            fv.len() == cs@.len(),
            nodes_view(out@) == prune_forest(fv.subrange(0, c as int), t, k, ids@),
            any == prune_forest_removes(fv.subrange(0, c as int), t, k, ids@),
        decreases cs@.len() - c,
    {
        proof {
            lemma_nodes_view_index(cs@, c as int);
            assert(fv.subrange(0, c + 1 as int) =~= fv.subrange(0, c as int).push(fv[c as int]));
            lemma_prune_forest_push(fv.subrange(0, c as int), fv[c as int], t, k, ids@);
        }
        let n = &cs[c];
        proof {
            lemma_nodes_view_len(n.children@);
        }
        if (n.tag == t && n.children.len() == 0) || node_has_ref_into(n, k, ids) {
            any = true;
        } else {
            let (kids, kids_removed) = prune_rewrite(&n.children, t, k, ids);
            let rebuilt = Node { tag: n.tag, id: n.id, attrs: copy_attrs(&n.attrs), children: kids };
            proof {
                assert(node_view(rebuilt) =~= prune_node(fv[c as int], t, k, ids@));
                lemma_nodes_view_push(out@, rebuilt);
            }
            out.push(rebuilt);
            assert(nodes_view(out@) =~= prune_forest(fv.subrange(0, c + 1 as int), t, k, ids@));
            if kids_removed {
                any = true;
            }
        }
        c += 1;
    }
    assert(fv.subrange(0, fv.len() as int) =~= fv);
    (out, any)
}

} // verus!

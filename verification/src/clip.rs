//! The clip-path pass.  Phase one walks every clip-path node and strips the
//! direct children that cannot establish a clipping area: valid children are
//! basic shapes, paths, text elements, and references resolving to one of
//! those kinds (resolution is judged against the tree as it stands when the
//! pass begins).  Phase two, run only after phase one has finished for every
//! clip-path node, removes each clip path left without children together with
//! every node that references it through a clip-path-reference attribute — an
//! element clipped to nothing renders nothing.

use vstd::prelude::*;

use crate::index::{
    IdTag, childless_ids, forest_childless_ids, forest_id_tags, id_tags, lookup_tag, lookup_tag_x,
};
use crate::prune::{prune_forest, prune_forest_removes, prune_rewrite};
use crate::tree::{
    AttrKind, AttrValue, AttrValueV, Node, NodeV, Tag, Tree, copy_attrs, is_clip_shape,
    lemma_nodes_view_index, lemma_nodes_view_len, lemma_nodes_view_push, node_view, nodes_view,
};

verus! {

/// A valid direct child of a clip-path node: a basic shape, a path, a text
/// element, or a reference element whose link resolves to one of those kinds.
pub open spec fn valid_clip_child(n: NodeV, pairs: Seq<IdTag>) -> bool {
    is_clip_shape(n.tag) || (n.tag == Tag::Use && exists|j: int|
        0 <= j < n.attrs.len() && n.attrs[j].kind == AttrKind::Href && (n.attrs[j].value matches
        AttrValueV::Link(i) && (lookup_tag(pairs, i) matches Some(t) && is_clip_shape(t))))
}

/// Phase one over a forest: every node keeps its place; clip-path nodes have
/// their invalid children stripped, recursively.
pub open spec fn cc_forest(s: Seq<NodeV>, pairs: Seq<IdTag>) -> Seq<NodeV>
    decreases s,
{
    if s.len() == 0 {
        Seq::empty()
    } else {
        seq![cc_node(s[0], pairs)] + cc_forest(s.drop_first(), pairs)
    }
}

/// Phase one over one node.
pub open spec fn cc_node(n: NodeV, pairs: Seq<IdTag>) -> NodeV
    decreases n,
{
    if n.tag == Tag::ClipPath {
        NodeV { children: cc_clip_children(n.children, pairs), ..n }
    } else {
        NodeV { children: cc_forest(n.children, pairs), ..n }
    }
}

/// Phase one over the children of a clip-path node: invalid children vanish
/// with their subtrees, valid ones are rewritten recursively.
pub open spec fn cc_clip_children(s: Seq<NodeV>, pairs: Seq<IdTag>) -> Seq<NodeV>
    decreases s,
{
    if s.len() == 0 {
        Seq::empty()
    } else if !valid_clip_child(s[0], pairs) {
        cc_clip_children(s.drop_first(), pairs)
    } else {
        seq![cc_node(s[0], pairs)] + cc_clip_children(s.drop_first(), pairs)
    }
}

/// Did phase one remove anything in the forest?
pub open spec fn cc_forest_removes(s: Seq<NodeV>, pairs: Seq<IdTag>) -> bool
    decreases s,
{
    s.len() > 0 && (cc_node_removes(s[0], pairs) || cc_forest_removes(s.drop_first(), pairs))
}

/// Did phase one remove anything below this node?
pub open spec fn cc_node_removes(n: NodeV, pairs: Seq<IdTag>) -> bool
    decreases n,
{
    if n.tag == Tag::ClipPath {
        cc_clip_children_removes(n.children, pairs)
    } else {
        cc_forest_removes(n.children, pairs)
    }
}

/// Did phase one remove anything among these clip-path children?
pub open spec fn cc_clip_children_removes(s: Seq<NodeV>, pairs: Seq<IdTag>) -> bool
    decreases s,
{
    s.len() > 0 && (!valid_clip_child(s[0], pairs) || cc_node_removes(s[0], pairs)
        || cc_clip_children_removes(s.drop_first(), pairs))
}

/// The forest rewrite that phase one applies to a child list: filtering for
/// the children of a clip-path node, plain recursion elsewhere.
pub open spec fn cc_sel(s: Seq<NodeV>, pairs: Seq<IdTag>, in_clip: bool) -> Seq<NodeV> {
    if in_clip {
        cc_clip_children(s, pairs)
    } else {
        cc_forest(s, pairs)
    }
}

/// The matching removal flag.
pub open spec fn cc_sel_removes(s: Seq<NodeV>, pairs: Seq<IdTag>, in_clip: bool) -> bool {
    if in_clip {
        cc_clip_children_removes(s, pairs)
    } else {
        cc_forest_removes(s, pairs)
    }
}

/// The whole pass: phase one against the resolution index of the unmodified
/// tree, then the cascade for the clip paths that phase one left childless.
pub open spec fn clip_pass(s: Seq<NodeV>) -> Seq<NodeV> {
    let mid = cc_forest(s, forest_id_tags(s));
    prune_forest(mid, Tag::ClipPath, AttrKind::ClipPathRef, forest_childless_ids(
        mid,
        Tag::ClipPath,
    ))
}

/// Whether the whole pass removes anything.
pub open spec fn clip_pass_removes(s: Seq<NodeV>) -> bool {
    let mid = cc_forest(s, forest_id_tags(s));
    cc_forest_removes(s, forest_id_tags(s)) || prune_forest_removes(
        mid,
        Tag::ClipPath,
        AttrKind::ClipPathRef,
        forest_childless_ids(mid, Tag::ClipPath),
    )
}

pub proof fn lemma_cc_sel_push(s: Seq<NodeV>, x: NodeV, pairs: Seq<IdTag>, in_clip: bool)
    ensures
        cc_sel(s.push(x), pairs, in_clip) == cc_sel(s, pairs, in_clip) + (if in_clip
            && !valid_clip_child(x, pairs) {
            Seq::<NodeV>::empty()
        } else {
            seq![cc_node(x, pairs)]
        }),
        cc_sel_removes(s.push(x), pairs, in_clip) == (cc_sel_removes(s, pairs, in_clip) || (in_clip
            && !valid_clip_child(x, pairs)) || cc_node_removes(x, pairs)),
    decreases s.len(),
{
    let tail = (if in_clip && !valid_clip_child(x, pairs) {
        Seq::<NodeV>::empty()
    } else {
        seq![cc_node(x, pairs)]
    });
    if s.len() == 0 {
        assert(s.push(x).drop_first() =~= Seq::<NodeV>::empty());
        assert(s.push(x)[0] == x);
        if in_clip {
            if !valid_clip_child(x, pairs) {
                assert(cc_clip_children(s.push(x), pairs) == cc_clip_children(
                    s.push(x).drop_first(),
                    pairs,
                ));
            } else {
                assert(cc_clip_children(s.push(x), pairs) == seq![cc_node(x, pairs)]
                    + cc_clip_children(s.push(x).drop_first(), pairs));
            }
            assert(cc_clip_children_removes(s.push(x), pairs) == (!valid_clip_child(x, pairs)
                || cc_node_removes(x, pairs) || cc_clip_children_removes(
                s.push(x).drop_first(),
                pairs,
            )));
            assert(!cc_clip_children_removes(s.push(x).drop_first(), pairs));
        } else {
            assert(cc_forest(s.push(x), pairs) == seq![cc_node(x, pairs)] + cc_forest(
                s.push(x).drop_first(),
                pairs,
            ));
            assert(cc_forest_removes(s.push(x), pairs) == (cc_node_removes(x, pairs)
                || cc_forest_removes(s.push(x).drop_first(), pairs)));
            assert(!cc_forest_removes(s.push(x).drop_first(), pairs));
        }
        assert(cc_sel(s.push(x), pairs, in_clip) =~= cc_sel(s, pairs, in_clip) + tail);
    } else {
        lemma_cc_sel_push(s.drop_first(), x, pairs, in_clip);
        assert(s.push(x).drop_first() =~= s.drop_first().push(x));
        assert(s.push(x)[0] == s[0]);
        if in_clip {
            if !valid_clip_child(s[0], pairs) {
                assert(cc_clip_children(s.push(x), pairs) == cc_clip_children(
                    s.drop_first().push(x),
                    pairs,
                ));
            } else {
                assert(cc_clip_children(s.push(x), pairs) == seq![cc_node(s[0], pairs)]
                    + cc_clip_children(s.drop_first().push(x), pairs));
            }
            assert(cc_clip_children_removes(s.push(x), pairs) == (!valid_clip_child(s[0], pairs)
                || cc_node_removes(s[0], pairs) || cc_clip_children_removes(
                s.drop_first().push(x),
                pairs,
            )));
        } else {
            assert(cc_forest(s.push(x), pairs) == seq![cc_node(s[0], pairs)] + cc_forest(
                s.drop_first().push(x),
                pairs,
            ));
            assert(cc_forest_removes(s.push(x), pairs) == (cc_node_removes(s[0], pairs)
                || cc_forest_removes(s.drop_first().push(x), pairs)));
        }
        assert(cc_sel(s.push(x), pairs, in_clip) =~= cc_sel(s, pairs, in_clip) + tail);
    }
}

/// Is this element kind a basic shape, a path, or a text element?
pub fn tag_is_clip_shape(t: Tag) -> (b: bool)
    ensures
        b == is_clip_shape(t),
{
    match t {
        Tag::Rect => true,
        Tag::Circle => true,
        Tag::Ellipse => true,
        Tag::Line => true,
        Tag::Polyline => true,
        Tag::Polygon => true,
        Tag::Path => true,
        Tag::Text => true,
        _ => false,
    }
}

/// Can this node stand as a direct child of a clip-path node?
pub fn is_valid_clip_path_elem(n: &Node, pairs: &Vec<IdTag>) -> (b: bool)
    ensures
        b == valid_clip_child(n@, pairs@),
{
    if tag_is_clip_shape(n.tag) {
        return true;
    }
    if n.tag != Tag::Use {
        return false;
    }
    let mut j: usize = 0;
    while j < n.attrs.len()
        invariant
            0 <= j <= n.attrs@.len(),
            n@.tag == Tag::Use,
            !is_clip_shape(n@.tag),
            forall|k: int|
                0 <= k < j ==> !(n@.attrs[k].kind == AttrKind::Href && (n@.attrs[k].value matches
                    AttrValueV::Link(i) && (lookup_tag(pairs@, i) matches Some(t) && is_clip_shape(
                    t,
                )))),
        decreases n.attrs@.len() - j,
    {
        let a = &n.attrs[j];
        if a.kind == AttrKind::Href {
            match &a.value {
                AttrValue::Link(i) => {
                    match lookup_tag_x(pairs, *i) {
                        Some(t) => {
                            if tag_is_clip_shape(t) {
                                assert(n@.attrs[j as int].kind == AttrKind::Href);
                                return true;
                            }
                        },
                        None => {},
                    }
                },
                _ => {},
            }
        }
        j += 1;
    }
    false
}

/// Rewrite a child list under phase one; `in_clip` says whether the list is
/// the children of a clip-path node and so subject to validity filtering.
fn cc_rewrite(cs: &Vec<Node>, pairs: &Vec<IdTag>, in_clip: bool) -> (r: (Vec<Node>, bool))
    ensures
        nodes_view(r.0@) == cc_sel(nodes_view(cs@), pairs@, in_clip),
        r.1 == cc_sel_removes(nodes_view(cs@), pairs@, in_clip),
    decreases cs,
{
    let ghost fv = nodes_view(cs@);
    proof {
        lemma_nodes_view_len(cs@);
    }
    let mut out: Vec<Node> = Vec::new();
    let mut any: bool = false;
    let mut c: usize = 0;
    while c < cs.len()
        invariant
            0 <= c <= cs@.len(),
            fv == nodes_view(cs@),
            fv.len() == cs@.len(),
            nodes_view(out@) == cc_sel(fv.subrange(0, c as int), pairs@, in_clip),
            any == cc_sel_removes(fv.subrange(0, c as int), pairs@, in_clip),
        decreases cs@.len() - c,
    {
        proof {
            lemma_nodes_view_index(cs@, c as int);
            assert(fv.subrange(0, c + 1 as int) =~= fv.subrange(0, c as int).push(fv[c as int]));
            lemma_cc_sel_push(fv.subrange(0, c as int), fv[c as int], pairs@, in_clip);
        }
        let n = &cs[c];
        if in_clip && !is_valid_clip_path_elem(n, pairs) {
            any = true;
        } else {
            let (kids, kids_removed) = cc_rewrite(&n.children, pairs, n.tag == Tag::ClipPath);
            let rebuilt = Node { tag: n.tag, id: n.id, attrs: copy_attrs(&n.attrs), children: kids };
            proof {
                assert(node_view(rebuilt) =~= cc_node(fv[c as int], pairs@));
                lemma_nodes_view_push(out@, rebuilt);
            }
            out.push(rebuilt);
            assert(nodes_view(out@) =~= cc_sel(fv.subrange(0, c + 1 as int), pairs@, in_clip));
            if kids_removed {
                any = true;
            }
        }
        c += 1;
    }
    assert(fv.subrange(0, fv.len() as int) =~= fv);
    (out, any)
}

/// Strip invalid children from every clip-path node, then remove each clip
/// path left childless together with every node that references it through a
/// clip-path-reference attribute.  Returns whether anything was removed.
pub fn process_clip_paths(tree: &mut Tree) -> (removed: bool)
    ensures
        final(tree)@ == clip_pass(old(tree)@),
        removed == clip_pass_removes(old(tree)@),
{
    let pairs = id_tags(&tree.nodes);
    let (mid, stripped) = cc_rewrite(&tree.nodes, &pairs, false);
    let empties = childless_ids(&mid, Tag::ClipPath);
    let (out, cascaded) = prune_rewrite(&mid, Tag::ClipPath, AttrKind::ClipPathRef, &empties);
    tree.nodes = out;
    stripped || cascaded
}

} // verus!

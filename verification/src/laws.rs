//! Laws of the passes, stated over the pass models and proved once and for
//! all: what survives a run, what never survives one, and which passes are
//! idempotent.

use vstd::prelude::*;

use crate::clip::{
    cc_clip_children, cc_clip_children_removes, cc_forest, cc_forest_removes, cc_node,
    cc_node_removes, clip_pass, valid_clip_child,
};
use crate::display::{
    display_pass, dn_forest, dn_forest_removes, dn_node, dn_node_removes, dn_removed,
};
use crate::index::{
    IdTag, forest_childless_ids, forest_id_tags, forest_link_ids, node_used, subtree_used,
};
use crate::paths::{
    ep_forest, ep_forest_removes, ep_node, ep_node_removes, path_pass, path_pass_removes,
    path_removed,
};
use crate::{pipeline, pipeline_removes};
use crate::prune::{prune_forest, prune_forest_removes, prune_node, prune_node_removes, prune_removed};
use crate::tree::{
    AttrKind, NodeV, Tag, has_display_none, has_drawable_path_data, has_ref_into,
};

verus! {

// ---------------------------------------------------------------------------
// Membership: a node value occurring somewhere in a forest.
// ---------------------------------------------------------------------------

/// `m` occurs in the subtree rooted at `n`, counting `n` itself.
pub open spec fn in_node(n: NodeV, m: NodeV) -> bool
    decreases n,
{
    m == n || exists|i: int| 0 <= i < n.children.len() && in_node(#[trigger] n.children[i], m)
}

/// `m` occurs somewhere in the forest.
pub open spec fn in_forest(s: Seq<NodeV>, m: NodeV) -> bool {
    exists|i: int| 0 <= i < s.len() && in_node(#[trigger] s[i], m)
}

// ---------------------------------------------------------------------------
// Every path node carries drawable path data.
// ---------------------------------------------------------------------------

/// Every path node in the subtree under `n` has drawable path data.
pub open spec fn paths_drawable_node(n: NodeV) -> bool
    decreases n,
{
    &&& (n.tag == Tag::Path ==> has_drawable_path_data(n))
    &&& forall|i: int|
        0 <= i < n.children.len() ==> paths_drawable_node(#[trigger] n.children[i])
}

/// Every path node in the forest has drawable path data.
pub open spec fn paths_drawable_forest(s: Seq<NodeV>) -> bool {
    forall|i: int| 0 <= i < s.len() ==> paths_drawable_node(#[trigger] s[i])
}

proof fn lemma_ep_node_drawable(n: NodeV)
    requires
        !path_removed(n),
    ensures
        paths_drawable_node(ep_node(n)),
    decreases n,
{
    lemma_ep_forest_drawable(n.children);
}

proof fn lemma_ep_forest_drawable(s: Seq<NodeV>)
    ensures
        paths_drawable_forest(ep_forest(s)),
    decreases s,
{
    if s.len() > 0 {
        lemma_ep_forest_drawable(s.drop_first());
        if !path_removed(s[0]) {
            lemma_ep_node_drawable(s[0]);
            assert forall|i: int|
                0 <= i < ep_forest(s).len() implies paths_drawable_node(
                #[trigger] ep_forest(s)[i],
            ) by {
                if i == 0 {
                    assert(ep_forest(s)[0] == ep_node(s[0]));
                } else {
                    assert(ep_forest(s)[i] == ep_forest(s.drop_first())[i - 1]);
                }
            }
        }
    }
}

proof fn lemma_cc_node_keeps_drawable(n: NodeV, pairs: Seq<IdTag>)
    requires
        paths_drawable_node(n),
    ensures
        paths_drawable_node(cc_node(n, pairs)),
    decreases n,
{
    if n.tag == Tag::ClipPath {
        lemma_cc_clip_children_keep_drawable(n.children, pairs);
    } else {
        lemma_cc_forest_keeps_drawable(n.children, pairs);
    }
}

proof fn lemma_cc_forest_keeps_drawable(s: Seq<NodeV>, pairs: Seq<IdTag>)
    requires
        paths_drawable_forest(s),
    ensures
        paths_drawable_forest(cc_forest(s, pairs)),
    decreases s,
{
    if s.len() > 0 {
        assert(paths_drawable_forest(s.drop_first()));
        lemma_cc_forest_keeps_drawable(s.drop_first(), pairs);
        lemma_cc_node_keeps_drawable(s[0], pairs);
        assert forall|i: int|
            0 <= i < cc_forest(s, pairs).len() implies paths_drawable_node(
            #[trigger] cc_forest(s, pairs)[i],
        ) by {
            if i == 0 {
                assert(cc_forest(s, pairs)[0] == cc_node(s[0], pairs));
            } else {
                assert(cc_forest(s, pairs)[i] == cc_forest(s.drop_first(), pairs)[i - 1]);
            }
        }
    }
}

proof fn lemma_cc_clip_children_keep_drawable(s: Seq<NodeV>, pairs: Seq<IdTag>)
    requires
        paths_drawable_forest(s),
    ensures
        paths_drawable_forest(cc_clip_children(s, pairs)),
    decreases s,
{
    if s.len() > 0 {
        assert(paths_drawable_forest(s.drop_first()));
        lemma_cc_clip_children_keep_drawable(s.drop_first(), pairs);
        if valid_clip_child(s[0], pairs) {
            lemma_cc_node_keeps_drawable(s[0], pairs);
            assert forall|i: int|
                0 <= i < cc_clip_children(s, pairs).len() implies paths_drawable_node(
                #[trigger] cc_clip_children(s, pairs)[i],
            ) by {
                if i == 0 {
                    assert(cc_clip_children(s, pairs)[0] == cc_node(s[0], pairs));
                } else {
                    assert(cc_clip_children(s, pairs)[i] == cc_clip_children(
                        s.drop_first(),
                        pairs,
                    )[i - 1]);
                }
            }
        }
    }
}

proof fn lemma_prune_node_keeps_drawable(n: NodeV, t: Tag, k: AttrKind, ids: Seq<u64>)
    requires
        paths_drawable_node(n),
    ensures
        paths_drawable_node(prune_node(n, t, k, ids)),
    decreases n,
{
    lemma_prune_forest_keeps_drawable(n.children, t, k, ids);
}

proof fn lemma_prune_forest_keeps_drawable(s: Seq<NodeV>, t: Tag, k: AttrKind, ids: Seq<u64>)
    requires
        paths_drawable_forest(s),
    ensures
        paths_drawable_forest(prune_forest(s, t, k, ids)),
    decreases s,
{
    if s.len() > 0 {
        assert(paths_drawable_forest(s.drop_first()));
        lemma_prune_forest_keeps_drawable(s.drop_first(), t, k, ids);
        if !prune_removed(s[0], t, k, ids) {
            lemma_prune_node_keeps_drawable(s[0], t, k, ids);
            assert forall|i: int|
                0 <= i < prune_forest(s, t, k, ids).len() implies paths_drawable_node(
                #[trigger] prune_forest(s, t, k, ids)[i],
            ) by {
                if i == 0 {
                    assert(prune_forest(s, t, k, ids)[0] == prune_node(s[0], t, k, ids));
                } else {
                    assert(prune_forest(s, t, k, ids)[i] == prune_forest(
                        s.drop_first(),
                        t,
                        k,
                        ids,
                    )[i - 1]);
                }
            }
        }
    }
}

proof fn lemma_drawable_member_node(n: NodeV, m: NodeV)
    requires
        paths_drawable_node(n),
        in_node(n, m),
    ensures
        m.tag == Tag::Path ==> has_drawable_path_data(m),
    decreases n,
{
    if m != n {
        let i = choose|i: int| 0 <= i < n.children.len() && in_node(#[trigger] n.children[i], m);
        lemma_drawable_member_node(n.children[i], m);
    }
}

/// Law: every path node remaining after the whole run carries non-empty,
/// well-typed path data, no matter how often it is referenced.
pub proof fn lemma_remaining_paths_drawable(s: Seq<NodeV>, m: NodeV)
    requires
        in_forest(pipeline(s), m),
        m.tag == Tag::Path,
    ensures
        has_drawable_path_data(m),
{
    let s2 = path_pass(display_pass(s));
    let mid = cc_forest(s2, forest_id_tags(s2));
    let s3 = clip_pass(s2);
    lemma_ep_forest_drawable(display_pass(s));
    lemma_cc_forest_keeps_drawable(s2, forest_id_tags(s2));
    lemma_prune_forest_keeps_drawable(
        mid,
        Tag::ClipPath,
        AttrKind::ClipPathRef,
        forest_childless_ids(mid, Tag::ClipPath),
    );
    lemma_prune_forest_keeps_drawable(
        s3,
        Tag::Filter,
        AttrKind::FilterRef,
        forest_childless_ids(s3, Tag::Filter),
    );
    let i = choose|i: int|
        0 <= i < pipeline(s).len() && in_node(#[trigger] pipeline(s)[i], m);
    lemma_drawable_member_node(pipeline(s)[i], m);
}

// ---------------------------------------------------------------------------
// Idempotence of the empty-path pass.
// ---------------------------------------------------------------------------

proof fn lemma_ep_identity_node(n: NodeV)
    requires
        paths_drawable_node(n),
    ensures
        ep_node(n) == n,
        !ep_node_removes(n),
    decreases n,
{
    lemma_ep_identity_forest(n.children);
    assert(ep_node(n) =~= n);
}

proof fn lemma_ep_identity_forest(s: Seq<NodeV>)
    requires
        paths_drawable_forest(s),
    ensures
        ep_forest(s) == s,
        !ep_forest_removes(s),
    decreases s,
{
    if s.len() > 0 {
        assert(paths_drawable_forest(s.drop_first()));
        lemma_ep_identity_forest(s.drop_first());
        assert(paths_drawable_node(s[0]));
        lemma_ep_identity_node(s[0]);
        assert(ep_forest(s) =~= s);
    } else {
        assert(ep_forest(s) =~= s);
    }
}

/// Law (idempotence of the empty-path pass): a second run over the pass's own
/// output removes nothing further and leaves the tree unchanged.
pub proof fn lemma_path_pass_idempotent(s: Seq<NodeV>)
    ensures
        path_pass(path_pass(s)) == path_pass(s),
        !path_pass_removes(path_pass(s)),
{
    lemma_ep_forest_drawable(s);
    lemma_ep_identity_forest(ep_forest(s));
}

// ---------------------------------------------------------------------------
// Every clip-path node holds only valid children.
// ---------------------------------------------------------------------------

/// In the subtree under `n`, every child of every clip-path node is valid.
pub open spec fn clip_children_valid_node(n: NodeV, pairs: Seq<IdTag>) -> bool
    decreases n,
{
    &&& (n.tag == Tag::ClipPath ==> forall|j: int|
        0 <= j < n.children.len() ==> valid_clip_child(#[trigger] n.children[j], pairs))
    &&& forall|i: int|
        0 <= i < n.children.len() ==> clip_children_valid_node(#[trigger] n.children[i], pairs)
}

/// In the whole forest, every child of every clip-path node is valid.
pub open spec fn clip_children_valid_forest(s: Seq<NodeV>, pairs: Seq<IdTag>) -> bool {
    forall|i: int| 0 <= i < s.len() ==> clip_children_valid_node(#[trigger] s[i], pairs)
}

proof fn lemma_cc_node_valid(n: NodeV, pairs: Seq<IdTag>)
    ensures
        clip_children_valid_node(cc_node(n, pairs), pairs),
    decreases n,
{
    if n.tag == Tag::ClipPath {
        lemma_cc_clip_children_valid(n.children, pairs);
    } else {
        lemma_cc_forest_valid(n.children, pairs);
    }
}

proof fn lemma_cc_forest_valid(s: Seq<NodeV>, pairs: Seq<IdTag>)
    ensures
        clip_children_valid_forest(cc_forest(s, pairs), pairs),
    decreases s,
{
    if s.len() > 0 {
        lemma_cc_forest_valid(s.drop_first(), pairs);
        lemma_cc_node_valid(s[0], pairs);
        assert forall|i: int|
            0 <= i < cc_forest(s, pairs).len() implies clip_children_valid_node(
            #[trigger] cc_forest(s, pairs)[i],
            pairs,
        ) by {
            if i == 0 {
                assert(cc_forest(s, pairs)[0] == cc_node(s[0], pairs));
            } else {
                assert(cc_forest(s, pairs)[i] == cc_forest(s.drop_first(), pairs)[i - 1]);
            }
        }
    }
}

proof fn lemma_cc_clip_children_valid(s: Seq<NodeV>, pairs: Seq<IdTag>)
    ensures
        clip_children_valid_forest(cc_clip_children(s, pairs), pairs),
        forall|j: int|
            0 <= j < cc_clip_children(s, pairs).len() ==> valid_clip_child(
                #[trigger] cc_clip_children(s, pairs)[j],
                pairs,
            ),
    decreases s,
{
    if s.len() > 0 {
        lemma_cc_clip_children_valid(s.drop_first(), pairs);
        if valid_clip_child(s[0], pairs) {
            lemma_cc_node_valid(s[0], pairs);
            assert(valid_clip_child(cc_node(s[0], pairs), pairs));
            assert forall|i: int|
                0 <= i < cc_clip_children(s, pairs).len() implies clip_children_valid_node(
                #[trigger] cc_clip_children(s, pairs)[i],
                pairs,
            ) && valid_clip_child(cc_clip_children(s, pairs)[i], pairs) by {
                if i == 0 {
                    assert(cc_clip_children(s, pairs)[0] == cc_node(s[0], pairs));
                } else {
                    assert(cc_clip_children(s, pairs)[i] == cc_clip_children(
                        s.drop_first(),
                        pairs,
                    )[i - 1]);
                }
            }
        }
    }
}

proof fn lemma_prune_forest_elements_valid(
    s: Seq<NodeV>,
    pairs: Seq<IdTag>,
    t: Tag,
    k: AttrKind,
    ids: Seq<u64>,
)
    requires
        forall|j: int| 0 <= j < s.len() ==> valid_clip_child(#[trigger] s[j], pairs),
    ensures
        forall|j: int|
            0 <= j < prune_forest(s, t, k, ids).len() ==> valid_clip_child(
                #[trigger] prune_forest(s, t, k, ids)[j],
                pairs,
            ),
    decreases s,
{
    if s.len() > 0 {
        assert(forall|j: int|
            0 <= j < s.drop_first().len() ==> valid_clip_child(
                #[trigger] s.drop_first()[j],
                pairs,
            ));
        lemma_prune_forest_elements_valid(s.drop_first(), pairs, t, k, ids);
        if !prune_removed(s[0], t, k, ids) {
            assert(valid_clip_child(s[0], pairs));
            assert(valid_clip_child(prune_node(s[0], t, k, ids), pairs));
            assert forall|j: int|
                0 <= j < prune_forest(s, t, k, ids).len() implies valid_clip_child(
                #[trigger] prune_forest(s, t, k, ids)[j],
                pairs,
            ) by {
                if j == 0 {
                    assert(prune_forest(s, t, k, ids)[0] == prune_node(s[0], t, k, ids));
                } else {
                    assert(prune_forest(s, t, k, ids)[j] == prune_forest(
                        s.drop_first(),
                        t,
                        k,
                        ids,
                    )[j - 1]);
                }
            }
        } else {
            assert(prune_forest(s, t, k, ids) == prune_forest(s.drop_first(), t, k, ids));
        }
    }
}

proof fn lemma_prune_node_keeps_valid(
    n: NodeV,
    pairs: Seq<IdTag>,
    t: Tag,
    k: AttrKind,
    ids: Seq<u64>,
)
    requires
        clip_children_valid_node(n, pairs),
    ensures
        clip_children_valid_node(prune_node(n, t, k, ids), pairs),
    decreases n,
{
    lemma_prune_forest_keeps_valid(n.children, pairs, t, k, ids);
    if n.tag == Tag::ClipPath {
        lemma_prune_forest_elements_valid(n.children, pairs, t, k, ids);
    }
}

proof fn lemma_prune_forest_keeps_valid(
    s: Seq<NodeV>,
    pairs: Seq<IdTag>,
    t: Tag,
    k: AttrKind,
    ids: Seq<u64>,
)
    requires
        clip_children_valid_forest(s, pairs),
    ensures
        clip_children_valid_forest(prune_forest(s, t, k, ids), pairs),
    decreases s,
{
    if s.len() > 0 {
        assert(clip_children_valid_forest(s.drop_first(), pairs));
        lemma_prune_forest_keeps_valid(s.drop_first(), pairs, t, k, ids);
        if !prune_removed(s[0], t, k, ids) {
            lemma_prune_node_keeps_valid(s[0], pairs, t, k, ids);
            assert forall|i: int|
                0 <= i < prune_forest(s, t, k, ids).len() implies clip_children_valid_node(
                #[trigger] prune_forest(s, t, k, ids)[i],
                pairs,
            ) by {
                if i == 0 {
                    assert(prune_forest(s, t, k, ids)[0] == prune_node(s[0], t, k, ids));
                } else {
                    assert(prune_forest(s, t, k, ids)[i] == prune_forest(
                        s.drop_first(),
                        t,
                        k,
                        ids,
                    )[i - 1]);
                }
            }
        }
    }
}

proof fn lemma_valid_member_node(n: NodeV, m: NodeV, pairs: Seq<IdTag>)
    requires
        clip_children_valid_node(n, pairs),
        in_node(n, m),
    ensures
        m.tag == Tag::ClipPath ==> forall|j: int|
            0 <= j < m.children.len() ==> valid_clip_child(#[trigger] m.children[j], pairs),
    decreases n,
{
    if m != n {
        let i = choose|i: int| 0 <= i < n.children.len() && in_node(#[trigger] n.children[i], m);
        lemma_valid_member_node(n.children[i], m, pairs);
    }
}

/// Law: after the whole run, every child of every remaining clip-path node is
/// a basic shape, a path, a text element, or a reference element whose link
/// resolved, in the tree the clip-path pass started from, to one of those.
pub proof fn lemma_clip_children_valid_after_run(s: Seq<NodeV>, m: NodeV, j: int)
    requires
        in_forest(pipeline(s), m),
        m.tag == Tag::ClipPath,
        0 <= j < m.children.len(),
    ensures
        valid_clip_child(m.children[j], forest_id_tags(path_pass(display_pass(s)))),
{
    let s2 = path_pass(display_pass(s));
    let pairs = forest_id_tags(s2);
    let mid = cc_forest(s2, pairs);
    let s3 = clip_pass(s2);
    lemma_cc_forest_valid(s2, pairs);
    lemma_prune_forest_keeps_valid(
        mid,
        pairs,
        Tag::ClipPath,
        AttrKind::ClipPathRef,
        forest_childless_ids(mid, Tag::ClipPath),
    );
    lemma_prune_forest_keeps_valid(
        s3,
        pairs,
        Tag::Filter,
        AttrKind::FilterRef,
        forest_childless_ids(s3, Tag::Filter),
    );
    let i = choose|i: int|
        0 <= i < pipeline(s).len() && in_node(#[trigger] pipeline(s)[i], m);
    lemma_valid_member_node(pipeline(s)[i], m, pairs);
}

// ---------------------------------------------------------------------------
// The display-none pass: what goes and what stays.
// ---------------------------------------------------------------------------

/// No node in the subtree is both hidden by display:none and entirely unused.
pub open spec fn no_hidden_unused_node(n: NodeV, u: Seq<u64>) -> bool
    decreases n,
{
    &&& !(has_display_none(n) && !subtree_used(n, u))
    &&& forall|i: int|
        0 <= i < n.children.len() ==> no_hidden_unused_node(#[trigger] n.children[i], u)
}

/// No node in the forest is both hidden by display:none and entirely unused.
pub open spec fn no_hidden_unused_forest(s: Seq<NodeV>, u: Seq<u64>) -> bool {
    forall|i: int| 0 <= i < s.len() ==> no_hidden_unused_node(#[trigger] s[i], u)
}

proof fn lemma_used_member_mono(n: NodeV, m: NodeV, u: Seq<u64>)
    requires
        in_node(n, m),
        subtree_used(m, u),
    ensures
        subtree_used(n, u),
    decreases n,
{
    if m != n {
        let i = choose|i: int| 0 <= i < n.children.len() && in_node(#[trigger] n.children[i], m);
        lemma_used_member_mono(n.children[i], m, u);
        assert(subtree_used(n.children[i], u));
    }
}

proof fn lemma_dn_node_keeps_used(n: NodeV, u: Seq<u64>)
    requires
        subtree_used(n, u),
    ensures
        subtree_used(dn_node(n, u), u),
    decreases n,
{
    if !node_used(n, u) {
        lemma_dn_forest_keeps_used(n.children, u);
        let j = choose|j: int|
            0 <= j < dn_forest(n.children, u).len() && subtree_used(
                #[trigger] dn_forest(n.children, u)[j],
                u,
            );
        assert(subtree_used(dn_node(n, u).children[j], u));
    }
}

proof fn lemma_dn_forest_keeps_used(s: Seq<NodeV>, u: Seq<u64>)
    requires
        exists|i: int| 0 <= i < s.len() && subtree_used(#[trigger] s[i], u),
    ensures
        exists|i: int|
            0 <= i < dn_forest(s, u).len() && subtree_used(#[trigger] dn_forest(s, u)[i], u),
    decreases s,
{
    let w = choose|w: int| 0 <= w < s.len() && subtree_used(#[trigger] s[w], u);
    if w == 0 {
        assert(!dn_removed(s[0], u));
        lemma_dn_node_keeps_used(s[0], u);
        assert(dn_forest(s, u)[0] == dn_node(s[0], u));
        assert(subtree_used(dn_forest(s, u)[0], u));
    } else {
        assert(subtree_used(s.drop_first()[w - 1], u));
        lemma_dn_forest_keeps_used(s.drop_first(), u);
        let j = choose|j: int|
            0 <= j < dn_forest(s.drop_first(), u).len() && subtree_used(
                #[trigger] dn_forest(s.drop_first(), u)[j],
                u,
            );
        if dn_removed(s[0], u) {
            assert(dn_forest(s, u) == dn_forest(s.drop_first(), u));
            assert(subtree_used(dn_forest(s, u)[j], u));
        } else {
            assert(dn_forest(s, u)[j + 1] == dn_forest(s.drop_first(), u)[j]);
            assert(subtree_used(dn_forest(s, u)[j + 1], u));
        }
    }
}

proof fn lemma_dn_node_clean(n: NodeV, u: Seq<u64>)
    requires
        !dn_removed(n, u),
    ensures
        no_hidden_unused_node(dn_node(n, u), u),
    decreases n,
{
    lemma_dn_forest_clean(n.children, u);
    if has_display_none(n) {
        lemma_dn_node_keeps_used(n, u);
    }
}

proof fn lemma_dn_forest_clean(s: Seq<NodeV>, u: Seq<u64>)
    ensures
        no_hidden_unused_forest(dn_forest(s, u), u),
    decreases s,
{
    if s.len() > 0 {
        lemma_dn_forest_clean(s.drop_first(), u);
        if dn_removed(s[0], u) {
            assert(dn_forest(s, u) == dn_forest(s.drop_first(), u));
        } else {
            lemma_dn_node_clean(s[0], u);
            assert forall|i: int|
                0 <= i < dn_forest(s, u).len() implies no_hidden_unused_node(
                #[trigger] dn_forest(s, u)[i],
                u,
            ) by {
                if i == 0 {
                    assert(dn_forest(s, u)[0] == dn_node(s[0], u));
                } else {
                    assert(dn_forest(s, u)[i] == dn_forest(s.drop_first(), u)[i - 1]);
                }
            }
        }
    }
}

proof fn lemma_hidden_unused_member_node(n: NodeV, m: NodeV, u: Seq<u64>)
    requires
        no_hidden_unused_node(n, u),
        in_node(n, m),
    ensures
        !(has_display_none(m) && !subtree_used(m, u)),
    decreases n,
{
    if m != n {
        let i = choose|i: int| 0 <= i < n.children.len() && in_node(#[trigger] n.children[i], m);
        lemma_hidden_unused_member_node(n.children[i], m, u);
    }
}

/// Law: a display:none node that is not itself referenced and has no
/// referenced descendant is absent from the display-none pass's result.
/// Usage is judged on the tree the pass started from.
pub proof fn lemma_hidden_unused_gone(s: Seq<NodeV>, m: NodeV)
    requires
        in_forest(display_pass(s), m),
    ensures
        !(has_display_none(m) && !subtree_used(m, forest_link_ids(s))),
{
    lemma_dn_forest_clean(s, forest_link_ids(s));
    let i = choose|i: int|
        0 <= i < display_pass(s).len() && in_node(#[trigger] display_pass(s)[i], m);
    lemma_hidden_unused_member_node(display_pass(s)[i], m, forest_link_ids(s));
}

proof fn lemma_dn_node_survives(t: NodeV, m: NodeV, u: Seq<u64>)
    requires
        in_node(t, m),
        subtree_used(m, u),
    ensures
        in_node(dn_node(t, u), dn_node(m, u)),
    decreases t,
{
    if m != t {
        let i = choose|i: int| 0 <= i < t.children.len() && in_node(#[trigger] t.children[i], m);
        lemma_dn_forest_survives(t.children, m, u);
        let j = choose|j: int|
            0 <= j < dn_forest(t.children, u).len() && in_node(
                #[trigger] dn_forest(t.children, u)[j],
                dn_node(m, u),
            );
        assert(in_node(dn_node(t, u).children[j], dn_node(m, u)));
    }
}

proof fn lemma_dn_forest_survives(s: Seq<NodeV>, m: NodeV, u: Seq<u64>)
    requires
        exists|i: int| 0 <= i < s.len() && in_node(#[trigger] s[i], m),
        subtree_used(m, u),
    ensures
        exists|i: int|
            0 <= i < dn_forest(s, u).len() && in_node(
                #[trigger] dn_forest(s, u)[i],
                dn_node(m, u),
            ),
    decreases s,
{
    let w = choose|w: int| 0 <= w < s.len() && in_node(#[trigger] s[w], m);
    if w == 0 {
        lemma_used_member_mono(s[0], m, u);
        assert(!dn_removed(s[0], u));
        lemma_dn_node_survives(s[0], m, u);
        assert(dn_forest(s, u)[0] == dn_node(s[0], u));
        assert(in_node(dn_forest(s, u)[0], dn_node(m, u)));
    } else {
        assert(in_node(s.drop_first()[w - 1], m));
        lemma_dn_forest_survives(s.drop_first(), m, u);
        let j = choose|j: int|
            0 <= j < dn_forest(s.drop_first(), u).len() && in_node(
                #[trigger] dn_forest(s.drop_first(), u)[j],
                dn_node(m, u),
            );
        if dn_removed(s[0], u) {
            assert(dn_forest(s, u) == dn_forest(s.drop_first(), u));
            assert(in_node(dn_forest(s, u)[j], dn_node(m, u)));
        } else {
            assert(dn_forest(s, u)[j + 1] == dn_forest(s.drop_first(), u)[j]);
            assert(in_node(dn_forest(s, u)[j + 1], dn_node(m, u)));
        }
    }
}

/// Law: a node that is referenced, or holds a referenced descendant, is never
/// removed by the display-none pass, display:none or not; it survives with
/// only its children rewritten.
pub proof fn lemma_hidden_used_survives(s: Seq<NodeV>, m: NodeV)
    requires
        in_forest(s, m),
        subtree_used(m, forest_link_ids(s)),
    ensures
        in_forest(display_pass(s), dn_node(m, forest_link_ids(s))),
{
    lemma_dn_forest_survives(s, m, forest_link_ids(s));
}

// ---------------------------------------------------------------------------
// Cascades remove every referencer of a disqualified definition.
// ---------------------------------------------------------------------------

/// No node in the subtree references one of `ids` through kind `k`.
pub open spec fn no_ref_node(n: NodeV, k: AttrKind, ids: Seq<u64>) -> bool
    decreases n,
{
    &&& !has_ref_into(n, k, ids)
    &&& forall|i: int|
        0 <= i < n.children.len() ==> no_ref_node(#[trigger] n.children[i], k, ids)
}

/// No node in the forest references one of `ids` through kind `k`.
pub open spec fn no_ref_forest(s: Seq<NodeV>, k: AttrKind, ids: Seq<u64>) -> bool {
    forall|i: int| 0 <= i < s.len() ==> no_ref_node(#[trigger] s[i], k, ids)
}

proof fn lemma_prune_node_no_ref(n: NodeV, t: Tag, k: AttrKind, ids: Seq<u64>)
    requires
        !prune_removed(n, t, k, ids),
    ensures
        no_ref_node(prune_node(n, t, k, ids), k, ids),
    decreases n,
{
    lemma_prune_forest_no_ref(n.children, t, k, ids);
}

proof fn lemma_prune_forest_no_ref(s: Seq<NodeV>, t: Tag, k: AttrKind, ids: Seq<u64>)
    ensures
        no_ref_forest(prune_forest(s, t, k, ids), k, ids),
    decreases s,
{
    if s.len() > 0 {
        lemma_prune_forest_no_ref(s.drop_first(), t, k, ids);
        if prune_removed(s[0], t, k, ids) {
            assert(prune_forest(s, t, k, ids) == prune_forest(s.drop_first(), t, k, ids));
        } else {
            lemma_prune_node_no_ref(s[0], t, k, ids);
            assert forall|i: int|
                0 <= i < prune_forest(s, t, k, ids).len() implies no_ref_node(
                #[trigger] prune_forest(s, t, k, ids)[i],
                k,
                ids,
            ) by {
                if i == 0 {
                    assert(prune_forest(s, t, k, ids)[0] == prune_node(s[0], t, k, ids));
                } else {
                    assert(prune_forest(s, t, k, ids)[i] == prune_forest(
                        s.drop_first(),
                        t,
                        k,
                        ids,
                    )[i - 1]);
                }
            }
        }
    }
}

proof fn lemma_prune_node_keeps_no_ref(
    n: NodeV,
    k0: AttrKind,
    ids0: Seq<u64>,
    t: Tag,
    k: AttrKind,
    ids: Seq<u64>,
)
    requires
        no_ref_node(n, k0, ids0),
    ensures
        no_ref_node(prune_node(n, t, k, ids), k0, ids0),
    decreases n,
{
    lemma_prune_forest_keeps_no_ref(n.children, k0, ids0, t, k, ids);
}

proof fn lemma_prune_forest_keeps_no_ref(
    s: Seq<NodeV>,
    k0: AttrKind,
    ids0: Seq<u64>,
    t: Tag,
    k: AttrKind,
    ids: Seq<u64>,
)
    requires
        no_ref_forest(s, k0, ids0),
    ensures
        no_ref_forest(prune_forest(s, t, k, ids), k0, ids0),
    decreases s,
{
    if s.len() > 0 {
        assert(no_ref_forest(s.drop_first(), k0, ids0));
        lemma_prune_forest_keeps_no_ref(s.drop_first(), k0, ids0, t, k, ids);
        if prune_removed(s[0], t, k, ids) {
            assert(prune_forest(s, t, k, ids) == prune_forest(s.drop_first(), t, k, ids));
        } else {
            lemma_prune_node_keeps_no_ref(s[0], k0, ids0, t, k, ids);
            assert forall|i: int|
                0 <= i < prune_forest(s, t, k, ids).len() implies no_ref_node(
                #[trigger] prune_forest(s, t, k, ids)[i],
                k0,
                ids0,
            ) by {
                if i == 0 {
                    assert(prune_forest(s, t, k, ids)[0] == prune_node(s[0], t, k, ids));
                } else {
                    assert(prune_forest(s, t, k, ids)[i] == prune_forest(
                        s.drop_first(),
                        t,
                        k,
                        ids,
                    )[i - 1]);
                }
            }
        }
    }
}

proof fn lemma_no_ref_member_node(n: NodeV, m: NodeV, k: AttrKind, ids: Seq<u64>)
    requires
        no_ref_node(n, k, ids),
        in_node(n, m),
    ensures
        !has_ref_into(m, k, ids),
    decreases n,
{
    if m != n {
        let i = choose|i: int| 0 <= i < n.children.len() && in_node(#[trigger] n.children[i], m);
        lemma_no_ref_member_node(n.children[i], m, k, ids);
    }
}

/// Law: after the whole run, no remaining node references, through a
/// clip-path-reference attribute, a clip path that the clip-path pass found
/// or left childless — the emptied clip path's referencers went with it.
pub proof fn lemma_no_clip_referencer_survives(s: Seq<NodeV>, m: NodeV)
    requires
        in_forest(pipeline(s), m),
    ensures
        !has_ref_into(
            m,
            AttrKind::ClipPathRef,
            forest_childless_ids(
                cc_forest(
                    path_pass(display_pass(s)),
                    forest_id_tags(path_pass(display_pass(s))),
                ),
                Tag::ClipPath,
            ),
        ),
{
    let s2 = path_pass(display_pass(s));
    let mid = cc_forest(s2, forest_id_tags(s2));
    let empties = forest_childless_ids(mid, Tag::ClipPath);
    let s3 = clip_pass(s2);
    lemma_prune_forest_no_ref(mid, Tag::ClipPath, AttrKind::ClipPathRef, empties);
    lemma_prune_forest_keeps_no_ref(
        s3,
        AttrKind::ClipPathRef,
        empties,
        Tag::Filter,
        AttrKind::FilterRef,
        forest_childless_ids(s3, Tag::Filter),
    );
    let i = choose|i: int|
        0 <= i < pipeline(s).len() && in_node(#[trigger] pipeline(s)[i], m);
    lemma_no_ref_member_node(pipeline(s)[i], m, AttrKind::ClipPathRef, empties);
}

/// Law: after the whole run, no remaining node references, through a
/// filter-reference attribute, a filter that the filter pass found childless
/// — the no-op filter's referencers went with it.
pub proof fn lemma_no_filter_referencer_survives(s: Seq<NodeV>, m: NodeV)
    requires
        in_forest(pipeline(s), m),
    ensures
        !has_ref_into(
            m,
            AttrKind::FilterRef,
            forest_childless_ids(clip_pass(path_pass(display_pass(s))), Tag::Filter),
        ),
{
    let s3 = clip_pass(path_pass(display_pass(s)));
    lemma_prune_forest_no_ref(
        s3,
        Tag::Filter,
        AttrKind::FilterRef,
        forest_childless_ids(s3, Tag::Filter),
    );
    let i = choose|i: int|
        0 <= i < pipeline(s).len() && in_node(#[trigger] pipeline(s)[i], m);
    lemma_no_ref_member_node(
        pipeline(s)[i],
        m,
        AttrKind::FilterRef,
        forest_childless_ids(s3, Tag::Filter),
    );
}

// ---------------------------------------------------------------------------
// Cascades remove the disqualified definition itself.
// ---------------------------------------------------------------------------

/// Identifiers are unambiguous: two nodes of the forest carrying the same
/// identifier are the same node.  Parsers of the host format guarantee this.
pub open spec fn unique_ids(s: Seq<NodeV>) -> bool {
    forall|m1: NodeV, m2: NodeV|
        #![trigger in_forest(s, m1), in_forest(s, m2)]
        in_forest(s, m1) && in_forest(s, m2) && m1.id is Some && m1.id == m2.id ==> m1 == m2
}

proof fn lemma_prune_provenance_node(n: NodeV, t: Tag, k: AttrKind, ids: Seq<u64>, m: NodeV)
    requires
        in_node(prune_node(n, t, k, ids), m),
    ensures
        exists|w: NodeV|
            in_node(n, w) && w.id == m.id && (w == n || !prune_removed(w, t, k, ids)),
    decreases n,
{
    if m == prune_node(n, t, k, ids) {
        assert(in_node(n, n) && n.id == m.id && (n == n || !prune_removed(n, t, k, ids)));
    } else {
        let j = choose|j: int|
            0 <= j < prune_node(n, t, k, ids).children.len() && in_node(
                #[trigger] prune_node(n, t, k, ids).children[j],
                m,
            );
        assert(in_forest(prune_forest(n.children, t, k, ids), m));
        lemma_prune_provenance_forest(n.children, t, k, ids, m);
        let w = choose|w: NodeV|
            in_forest(n.children, w) && w.id == m.id && !prune_removed(w, t, k, ids);
        let c = choose|c: int| 0 <= c < n.children.len() && in_node(#[trigger] n.children[c], w);
        assert(in_node(n, w) && w.id == m.id && (w == n || !prune_removed(w, t, k, ids)));
    }
}

proof fn lemma_prune_provenance_forest(s: Seq<NodeV>, t: Tag, k: AttrKind, ids: Seq<u64>, m: NodeV)
    requires
        in_forest(prune_forest(s, t, k, ids), m),
    ensures
        exists|w: NodeV| in_forest(s, w) && w.id == m.id && !prune_removed(w, t, k, ids),
    decreases s,
{
    let i = choose|i: int|
        0 <= i < prune_forest(s, t, k, ids).len() && in_node(
            #[trigger] prune_forest(s, t, k, ids)[i],
            m,
        );
    if prune_removed(s[0], t, k, ids) {
        assert(prune_forest(s, t, k, ids) == prune_forest(s.drop_first(), t, k, ids));
        lemma_prune_provenance_forest(s.drop_first(), t, k, ids, m);
        let w = choose|w: NodeV|
            in_forest(s.drop_first(), w) && w.id == m.id && !prune_removed(w, t, k, ids);
        let j = choose|j: int|
            0 <= j < s.drop_first().len() && in_node(#[trigger] s.drop_first()[j], w);
        assert(s.drop_first()[j] == s[j + 1]);
        assert(in_node(s[j + 1], w));
        assert(in_forest(s, w) && w.id == m.id && !prune_removed(w, t, k, ids));
    } else {
        if i == 0 {
            assert(prune_forest(s, t, k, ids)[0] == prune_node(s[0], t, k, ids));
            lemma_prune_provenance_node(s[0], t, k, ids, m);
            let w = choose|w: NodeV|
                in_node(s[0], w) && w.id == m.id && (w == s[0] || !prune_removed(w, t, k, ids));
            assert(in_node(s[0], w));
            assert(in_forest(s, w) && w.id == m.id && !prune_removed(w, t, k, ids));
        } else {
            assert(prune_forest(s, t, k, ids)[i] == prune_forest(s.drop_first(), t, k, ids)[i
                - 1]);
            assert(in_forest(prune_forest(s.drop_first(), t, k, ids), m));
            lemma_prune_provenance_forest(s.drop_first(), t, k, ids, m);
            let w = choose|w: NodeV|
                in_forest(s.drop_first(), w) && w.id == m.id && !prune_removed(w, t, k, ids);
            let j = choose|j: int|
                0 <= j < s.drop_first().len() && in_node(#[trigger] s.drop_first()[j], w);
            assert(s.drop_first()[j] == s[j + 1]);
            assert(in_node(s[j + 1], w));
            assert(in_forest(s, w) && w.id == m.id && !prune_removed(w, t, k, ids));
        }
    }
}

proof fn lemma_childless_ids_witness_node(n: NodeV, t: Tag, i: u64)
    requires
        crate::index::node_childless_ids(n, t).contains(i),
    ensures
        exists|e: NodeV| in_node(n, e) && e.id == Some(i) && e.tag == t && e.children.len() == 0,
    decreases n,
{
    let own = (if n.tag == t && n.children.len() == 0 && n.id matches Some(j) {
        seq![n.id->0]
    } else {
        Seq::<u64>::empty()
    });
    let idx = choose|idx: int|
        0 <= idx < crate::index::node_childless_ids(n, t).len()
            && crate::index::node_childless_ids(n, t)[idx] == i;
    if idx < own.len() {
        assert(n.id == Some(i));
        assert(in_node(n, n) && n.id == Some(i) && n.tag == t && n.children.len() == 0);
    } else {
        assert(crate::index::forest_childless_ids(n.children, t)[idx - own.len()] == i);
        lemma_childless_ids_witness_forest(n.children, t, i);
        let e = choose|e: NodeV|
            in_forest(n.children, e) && e.id == Some(i) && e.tag == t && e.children.len() == 0;
        let c = choose|c: int| 0 <= c < n.children.len() && in_node(#[trigger] n.children[c], e);
        assert(in_node(n, e) && e.id == Some(i) && e.tag == t && e.children.len() == 0);
    }
}

proof fn lemma_childless_ids_witness_forest(s: Seq<NodeV>, t: Tag, i: u64)
    requires
        forest_childless_ids(s, t).contains(i),
    ensures
        exists|e: NodeV| in_forest(s, e) && e.id == Some(i) && e.tag == t && e.children.len() == 0,
    decreases s,
{
    let idx = choose|idx: int|
        0 <= idx < forest_childless_ids(s, t).len() && forest_childless_ids(s, t)[idx] == i;
    let own = crate::index::node_childless_ids(s[0], t);
    if idx < own.len() {
        assert(own.contains(i));
        lemma_childless_ids_witness_node(s[0], t, i);
        let e = choose|e: NodeV|
            in_node(s[0], e) && e.id == Some(i) && e.tag == t && e.children.len() == 0;
        assert(in_forest(s, e) && e.id == Some(i) && e.tag == t && e.children.len() == 0);
    } else {
        assert(forest_childless_ids(s.drop_first(), t)[idx - own.len()] == i);
        assert(forest_childless_ids(s.drop_first(), t).contains(i));
        lemma_childless_ids_witness_forest(s.drop_first(), t, i);
        let e = choose|e: NodeV|
            in_forest(s.drop_first(), e) && e.id == Some(i) && e.tag == t && e.children.len()
                == 0;
        let j = choose|j: int|
            0 <= j < s.drop_first().len() && in_node(#[trigger] s.drop_first()[j], e);
        assert(s.drop_first()[j] == s[j + 1]);
        assert(in_node(s[j + 1], e));
        assert(in_forest(s, e) && e.id == Some(i) && e.tag == t && e.children.len() == 0);
    }
}

/// With unambiguous identifiers, no node of the cascade's result carries the
/// identifier of a childless definition node the cascade was seeded with.
pub proof fn lemma_childless_definition_gone(
    s: Seq<NodeV>,
    t: Tag,
    k: AttrKind,
    m: NodeV,
    i: u64,
)
    requires
        unique_ids(s),
        forest_childless_ids(s, t).contains(i),
        in_forest(prune_forest(s, t, k, forest_childless_ids(s, t)), m),
    ensures
        m.id != Some(i),
{
    let ids = forest_childless_ids(s, t);
    lemma_childless_ids_witness_forest(s, t, i);
    let e = choose|e: NodeV|
        in_forest(s, e) && e.id == Some(i) && e.tag == t && e.children.len() == 0;
    if m.id == Some(i) {
        lemma_prune_provenance_forest(s, t, k, ids, m);
        let w = choose|w: NodeV| in_forest(s, w) && w.id == m.id && !prune_removed(w, t, k, ids);
        assert(w == e);
        assert(prune_removed(e, t, k, ids));
        assert(false);
    }
}

/// Law (removed together): after the whole run, if the tree the clip-path
/// cascade started from had unambiguous identifiers, then no remaining node
/// carries the identifier of a clip path that phase one found or left
/// childless; with `lemma_no_clip_referencer_survives`, the emptied clip path
/// and all of its referencers are gone together.
pub proof fn lemma_emptied_clip_path_gone(s: Seq<NodeV>, m: NodeV, i: u64)
    requires
        unique_ids(
            cc_forest(path_pass(display_pass(s)), forest_id_tags(path_pass(display_pass(s)))),
        ),
        forest_childless_ids(
            cc_forest(path_pass(display_pass(s)), forest_id_tags(path_pass(display_pass(s)))),
            Tag::ClipPath,
        ).contains(i),
        in_forest(pipeline(s), m),
    ensures
        m.id != Some(i),
{
    let s2 = path_pass(display_pass(s));
    let mid = cc_forest(s2, forest_id_tags(s2));
    let s3 = clip_pass(s2);
    let filter_ids = forest_childless_ids(s3, Tag::Filter);
    lemma_prune_provenance_forest(s3, Tag::Filter, AttrKind::FilterRef, filter_ids, m);
    let w = choose|w: NodeV|
        in_forest(s3, w) && w.id == m.id && !prune_removed(
            w,
            Tag::Filter,
            AttrKind::FilterRef,
            filter_ids,
        );
    lemma_childless_definition_gone(mid, Tag::ClipPath, AttrKind::ClipPathRef, w, i);
}

/// Law (removed together): after the whole run, if the tree the filter
/// cascade started from had unambiguous identifiers, then no remaining node
/// carries the identifier of a filter that the filter pass found childless;
/// with `lemma_no_filter_referencer_survives`, the no-op filter and all of
/// its referencers are gone together.
pub proof fn lemma_childless_filter_gone(s: Seq<NodeV>, m: NodeV, i: u64)
    requires
        unique_ids(clip_pass(path_pass(display_pass(s)))),
        forest_childless_ids(clip_pass(path_pass(display_pass(s))), Tag::Filter).contains(i),
        in_forest(pipeline(s), m),
    ensures
        m.id != Some(i),
{
    let s3 = clip_pass(path_pass(display_pass(s)));
    lemma_childless_definition_gone(s3, Tag::Filter, AttrKind::FilterRef, m, i);
}

// ---------------------------------------------------------------------------
// Idempotence of the display-none pass at fixed usage.
// ---------------------------------------------------------------------------

proof fn lemma_dn_identity_node(n: NodeV, u: Seq<u64>)
    requires
        no_hidden_unused_node(n, u),
    ensures
        dn_node(n, u) == n,
        !dn_node_removes(n, u),
    decreases n,
{
    lemma_dn_identity_forest(n.children, u);
    assert(dn_node(n, u) =~= n);
}

proof fn lemma_dn_identity_forest(s: Seq<NodeV>, u: Seq<u64>)
    requires
        no_hidden_unused_forest(s, u),
    ensures
        dn_forest(s, u) == s,
        !dn_forest_removes(s, u),
    decreases s,
{
    if s.len() > 0 {
        assert(no_hidden_unused_node(s[0], u));
        assert(no_hidden_unused_forest(s.drop_first(), u));
        lemma_dn_identity_forest(s.drop_first(), u);
        lemma_dn_identity_node(s[0], u);
        assert(dn_forest(s, u) =~= s);
    } else {
        assert(dn_forest(s, u) =~= s);
    }
}

/// Law (idempotence of the display-none pass at fixed usage): rerunning the
/// rule with usage judged against the same reference tree removes nothing
/// further and leaves the result unchanged.  A full second run judges usage
/// afresh, so this holds of it whenever the later passes removed no
/// referencing node.
pub proof fn lemma_dn_forest_idempotent_fixed_usage(s: Seq<NodeV>, u: Seq<u64>)
    ensures
        dn_forest(dn_forest(s, u), u) == dn_forest(s, u),
        !dn_forest_removes(dn_forest(s, u), u),
{
    lemma_dn_forest_clean(s, u);
    lemma_dn_identity_forest(dn_forest(s, u), u);
}

// ---------------------------------------------------------------------------
// Idempotence of clip-path child stripping at fixed resolution.
// ---------------------------------------------------------------------------

proof fn lemma_cc_identity_node(n: NodeV, pairs: Seq<IdTag>)
    requires
        clip_children_valid_node(n, pairs),
    ensures
        cc_node(n, pairs) == n,
        !cc_node_removes(n, pairs),
    decreases n,
{
    lemma_cc_identity_forest(n.children, pairs);
    if n.tag == Tag::ClipPath {
        lemma_cc_identity_clip_children(n.children, pairs);
    }
    assert(cc_node(n, pairs) =~= n);
}

proof fn lemma_cc_identity_forest(s: Seq<NodeV>, pairs: Seq<IdTag>)
    requires
        clip_children_valid_forest(s, pairs),
    ensures
        cc_forest(s, pairs) == s,
        !cc_forest_removes(s, pairs),
    decreases s,
{
    if s.len() > 0 {
        assert(clip_children_valid_node(s[0], pairs));
        assert(clip_children_valid_forest(s.drop_first(), pairs));
        lemma_cc_identity_forest(s.drop_first(), pairs);
        lemma_cc_identity_node(s[0], pairs);
        assert(cc_forest(s, pairs) =~= s);
    } else {
        assert(cc_forest(s, pairs) =~= s);
    }
}

proof fn lemma_cc_identity_clip_children(s: Seq<NodeV>, pairs: Seq<IdTag>)
    requires
        clip_children_valid_forest(s, pairs),
        forall|j: int| 0 <= j < s.len() ==> valid_clip_child(#[trigger] s[j], pairs),
    ensures
        cc_clip_children(s, pairs) == s,
        !cc_clip_children_removes(s, pairs),
    decreases s,
{
    if s.len() > 0 {
        assert(clip_children_valid_node(s[0], pairs));
        assert(clip_children_valid_forest(s.drop_first(), pairs));
        lemma_cc_identity_clip_children(s.drop_first(), pairs);
        lemma_cc_identity_node(s[0], pairs);
        assert(cc_clip_children(s, pairs) =~= s);
    } else {
        assert(cc_clip_children(s, pairs) =~= s);
    }
}

/// Law (idempotence of clip-path child stripping at fixed resolution):
/// rerunning phase one against the same resolution index removes nothing
/// further and leaves its own output unchanged.
pub proof fn lemma_cc_forest_idempotent_fixed_resolution(s: Seq<NodeV>, pairs: Seq<IdTag>)
    ensures
        cc_forest(cc_forest(s, pairs), pairs) == cc_forest(s, pairs),
        !cc_forest_removes(cc_forest(s, pairs), pairs),
{
    lemma_cc_forest_valid(s, pairs);
    lemma_cc_identity_forest(cc_forest(s, pairs), pairs);
}

// ---------------------------------------------------------------------------
// The changed flag is exact: a pass that reports no removal changed nothing.
// ---------------------------------------------------------------------------

proof fn lemma_dn_noremove_identity_node(n: NodeV, u: Seq<u64>)
    requires
        !dn_node_removes(n, u),
    ensures
        dn_node(n, u) == n,
    decreases n,
{
    lemma_dn_noremove_identity_forest(n.children, u);
    assert(dn_node(n, u) =~= n);
}

proof fn lemma_dn_noremove_identity_forest(s: Seq<NodeV>, u: Seq<u64>)
    requires
        !dn_forest_removes(s, u),
    ensures
        dn_forest(s, u) == s,
    decreases s,
{
    if s.len() > 0 {
        lemma_dn_noremove_identity_forest(s.drop_first(), u);
        lemma_dn_noremove_identity_node(s[0], u);
        assert(dn_forest(s, u) =~= s);
    } else {
        assert(dn_forest(s, u) =~= s);
    }
}

proof fn lemma_ep_noremove_identity_node(n: NodeV)
    requires
        !ep_node_removes(n),
    ensures
        ep_node(n) == n,
    decreases n,
{
    lemma_ep_noremove_identity_forest(n.children);
    assert(ep_node(n) =~= n);
}

proof fn lemma_ep_noremove_identity_forest(s: Seq<NodeV>)
    requires
        !ep_forest_removes(s),
    ensures
        ep_forest(s) == s,
    decreases s,
{
    if s.len() > 0 {
        lemma_ep_noremove_identity_forest(s.drop_first());
        lemma_ep_noremove_identity_node(s[0]);
        assert(ep_forest(s) =~= s);
    } else {
        assert(ep_forest(s) =~= s);
    }
}

proof fn lemma_cc_noremove_identity_node(n: NodeV, pairs: Seq<IdTag>)
    requires
        !cc_node_removes(n, pairs),
    ensures
        cc_node(n, pairs) == n,
    decreases n,
{
    if n.tag == Tag::ClipPath {
        lemma_cc_noremove_identity_clip_children(n.children, pairs);
    } else {
        lemma_cc_noremove_identity_forest(n.children, pairs);
    }
    assert(cc_node(n, pairs) =~= n);
}

proof fn lemma_cc_noremove_identity_forest(s: Seq<NodeV>, pairs: Seq<IdTag>)
    requires
        !cc_forest_removes(s, pairs),
    ensures
        cc_forest(s, pairs) == s,
    decreases s,
{
    if s.len() > 0 {
        lemma_cc_noremove_identity_forest(s.drop_first(), pairs);
        lemma_cc_noremove_identity_node(s[0], pairs);
        assert(cc_forest(s, pairs) =~= s);
    } else {
        assert(cc_forest(s, pairs) =~= s);
    }
}

proof fn lemma_cc_noremove_identity_clip_children(s: Seq<NodeV>, pairs: Seq<IdTag>)
    requires
        !cc_clip_children_removes(s, pairs),
    ensures
        cc_clip_children(s, pairs) == s,
    decreases s,
{
    if s.len() > 0 {
        lemma_cc_noremove_identity_clip_children(s.drop_first(), pairs);
        lemma_cc_noremove_identity_node(s[0], pairs);
        assert(cc_clip_children(s, pairs) =~= s);
    } else {
        assert(cc_clip_children(s, pairs) =~= s);
    }
}

proof fn lemma_prune_noremove_identity_node(n: NodeV, t: Tag, k: AttrKind, ids: Seq<u64>)
    requires
        !prune_node_removes(n, t, k, ids),
    ensures
        prune_node(n, t, k, ids) == n,
    decreases n,
{
    lemma_prune_noremove_identity_forest(n.children, t, k, ids);
    assert(prune_node(n, t, k, ids) =~= n);
}

proof fn lemma_prune_noremove_identity_forest(s: Seq<NodeV>, t: Tag, k: AttrKind, ids: Seq<u64>)
    requires
        !prune_forest_removes(s, t, k, ids),
    ensures
        prune_forest(s, t, k, ids) == s,
    decreases s,
{
    if s.len() > 0 {
        lemma_prune_noremove_identity_forest(s.drop_first(), t, k, ids);
        lemma_prune_noremove_identity_node(s[0], t, k, ids);
        assert(prune_forest(s, t, k, ids) =~= s);
    } else {
        assert(prune_forest(s, t, k, ids) =~= s);
    }
}

/// Law (the changed flag is exact): when the whole run reports that nothing
/// was removed, the tree is unchanged, so the caller may skip its cleanup of
/// unreferenced definition nodes.
pub proof fn lemma_unchanged_when_nothing_removed(s: Seq<NodeV>)
    requires
        !pipeline_removes(s),
    ensures
        pipeline(s) == s,
{
    lemma_dn_noremove_identity_forest(s, forest_link_ids(s));
    assert(display_pass(s) == s);
    lemma_ep_noremove_identity_forest(s);
    assert(path_pass(display_pass(s)) == s);
    lemma_cc_noremove_identity_forest(s, forest_id_tags(s));
    let mid = cc_forest(s, forest_id_tags(s));
    lemma_prune_noremove_identity_forest(
        mid,
        Tag::ClipPath,
        AttrKind::ClipPathRef,
        forest_childless_ids(mid, Tag::ClipPath),
    );
    assert(clip_pass(path_pass(display_pass(s))) == s);
    lemma_prune_noremove_identity_forest(
        s,
        Tag::Filter,
        AttrKind::FilterRef,
        forest_childless_ids(s, Tag::Filter),
    );
    assert(pipeline(s) == s);
}

} // verus!

//! The usage index: which identifiers are referenced from anywhere in the
//! tree, how a link resolves to the kind of element it names, and which
//! elements of a given kind are childless.  Each index is collected in one
//! read-only walk before a pass mutates anything.

use vstd::prelude::*;

use crate::tree::{
    Attr, AttrKind, AttrV, AttrValue, AttrValueV, Node, NodeV, Tag, attrs_view, nodes_view,
    lemma_nodes_view_index, lemma_nodes_view_len,
};

verus! {

// ---------------------------------------------------------------------------
// Identifiers referenced by link attributes (the reverse index's domain).
// ---------------------------------------------------------------------------

/// The identifiers one attribute links to.
pub open spec fn attr_link_ids(a: AttrV) -> Seq<u64> {
    match a.value {
        AttrValueV::Link(i) => seq![i],
        AttrValueV::PaintServerLink(i) => seq![i],
        _ => Seq::empty(),
    }
}

/// The identifiers an attribute list links to, in order.
pub open spec fn attrs_link_ids(s: Seq<AttrV>) -> Seq<u64>
    decreases s.len(),
{
    if s.len() == 0 {
        Seq::empty()
    } else {
        attr_link_ids(s[0]) + attrs_link_ids(s.drop_first())
    }
}

/// The identifiers a whole subtree links to.
pub open spec fn node_link_ids(n: NodeV) -> Seq<u64>
    decreases n,
{
    attrs_link_ids(n.attrs) + forest_link_ids(n.children)
}

/// The identifiers a forest links to.  A node is *used* exactly when its
/// identifier occurs here for the whole document.
pub open spec fn forest_link_ids(s: Seq<NodeV>) -> Seq<u64>
    decreases s,
{
    if s.len() == 0 {
        Seq::empty()
    } else {
        node_link_ids(s[0]) + forest_link_ids(s.drop_first())
    }
}

/// The node itself carries an identifier that is referenced.
pub open spec fn node_used(n: NodeV, used: Seq<u64>) -> bool {
    n.id matches Some(i) && used.contains(i)
}

/// The node, or some descendant at any depth, is referenced.
pub open spec fn subtree_used(n: NodeV, used: Seq<u64>) -> bool
    decreases n,
{
    node_used(n, used) || exists|i: int|
        0 <= i < n.children.len() && subtree_used(n.children[i], used)
}

proof fn lemma_attrs_link_ids_push(s: Seq<AttrV>, x: AttrV)
    ensures
        attrs_link_ids(s.push(x)) == attrs_link_ids(s) + attr_link_ids(x),
    decreases s.len(),
{
    if s.len() == 0 {
        assert(s.push(x).drop_first() =~= Seq::<AttrV>::empty());
        assert(s.push(x)[0] == x);
        assert(attrs_link_ids(s.push(x)) == attr_link_ids(x) + attrs_link_ids(
            s.push(x).drop_first(),
        ));
        assert(attrs_link_ids(s.push(x)) =~= attrs_link_ids(s) + attr_link_ids(x));
    } else {
        lemma_attrs_link_ids_push(s.drop_first(), x);
        assert(s.push(x).drop_first() =~= s.drop_first().push(x));
        assert(s.push(x)[0] == s[0]);
        assert(attrs_link_ids(s.push(x)) == attr_link_ids(s[0]) + attrs_link_ids(
            s.drop_first().push(x),
        ));
        assert(attrs_link_ids(s.push(x)) =~= attrs_link_ids(s) + attr_link_ids(x));
    }
}

proof fn lemma_forest_link_ids_push(s: Seq<NodeV>, x: NodeV)
    ensures
        forest_link_ids(s.push(x)) == forest_link_ids(s) + node_link_ids(x),
    decreases s.len(),
{
    if s.len() == 0 {
        assert(s.push(x).drop_first() =~= Seq::<NodeV>::empty());
        assert(s.push(x)[0] == x);
        assert(forest_link_ids(s.push(x)) == node_link_ids(x) + forest_link_ids(
            s.push(x).drop_first(),
        ));
        assert(forest_link_ids(s.push(x)) =~= forest_link_ids(s) + node_link_ids(x));
    } else {
        lemma_forest_link_ids_push(s.drop_first(), x);
        assert(s.push(x).drop_first() =~= s.drop_first().push(x));
        assert(s.push(x)[0] == s[0]);
        assert(forest_link_ids(s.push(x)) == node_link_ids(s[0]) + forest_link_ids(
            s.drop_first().push(x),
        ));
        assert(forest_link_ids(s.push(x)) =~= forest_link_ids(s) + node_link_ids(x));
    }
}

/// Append the identifiers one attribute links to.
fn push_attr_links(a: &Attr, acc: &mut Vec<u64>)
    ensures
        final(acc)@ == old(acc)@ + attr_link_ids(a@),
{
    match &a.value {
        AttrValue::Link(i) => {
            acc.push(*i);
            assert(acc@ =~= old(acc)@ + attr_link_ids(a@));
        },
        AttrValue::PaintServerLink(i) => {
            acc.push(*i);
            assert(acc@ =~= old(acc)@ + attr_link_ids(a@));
        },
        _ => {
            assert(acc@ =~= old(acc)@ + attr_link_ids(a@));
        },
    }
}

/// Append every identifier the subtree under `n` links to.
fn collect_link_ids(n: &Node, acc: &mut Vec<u64>)
    ensures
        final(acc)@ == old(acc)@ + node_link_ids(n@),
    decreases n,
{
    let ghost base = acc@;
    let ghost av = attrs_view(n.attrs@);
    let mut j: usize = 0;
    while j < n.attrs.len()
        invariant
            0 <= j <= n.attrs@.len(),
            av == attrs_view(n.attrs@),
            av.len() == n.attrs@.len(),
            acc@ == base + attrs_link_ids(av.subrange(0, j as int)),
        decreases n.attrs@.len() - j,
    {
        proof {
            assert(av.subrange(0, j + 1 as int) =~= av.subrange(0, j as int).push(av[j as int]));
            lemma_attrs_link_ids_push(av.subrange(0, j as int), av[j as int]);
        }
        push_attr_links(&n.attrs[j], acc);
        assert(acc@ =~= base + attrs_link_ids(av.subrange(0, j + 1 as int)));
        j += 1;
    }
    assert(av.subrange(0, av.len() as int) =~= av);
    let ghost mid = acc@;
    let ghost cv = nodes_view(n.children@);
    proof {
        lemma_nodes_view_len(n.children@);
    }
    let mut c: usize = 0;
    while c < n.children.len()
        invariant
            0 <= c <= n.children@.len(),
            cv == nodes_view(n.children@),
            cv.len() == n.children@.len(),
            acc@ == mid + forest_link_ids(cv.subrange(0, c as int)),
        decreases n.children@.len() - c,
    {
        proof {
            lemma_nodes_view_index(n.children@, c as int);
            assert(cv.subrange(0, c + 1 as int) =~= cv.subrange(0, c as int).push(cv[c as int]));
            lemma_forest_link_ids_push(cv.subrange(0, c as int), cv[c as int]);
        }
        collect_link_ids(&n.children[c], acc);
        assert(acc@ =~= mid + forest_link_ids(cv.subrange(0, c + 1 as int)));
        c += 1;
    }
    assert(cv.subrange(0, cv.len() as int) =~= cv);
    assert(acc@ =~= base + node_link_ids(n@));
}

/// Every identifier referenced anywhere in the forest, in document order.
pub fn used_ids(nodes: &Vec<Node>) -> (r: Vec<u64>)
    ensures
        r@ == forest_link_ids(nodes_view(nodes@)),
{
    let ghost fv = nodes_view(nodes@);
    proof {
        lemma_nodes_view_len(nodes@);
    }
    let mut r: Vec<u64> = Vec::new();
    let mut c: usize = 0;
    while c < nodes.len()
        invariant
            0 <= c <= nodes@.len(),
            fv == nodes_view(nodes@),
            fv.len() == nodes@.len(),
            r@ == forest_link_ids(fv.subrange(0, c as int)),
        decreases nodes@.len() - c,
    {
        proof {
            lemma_nodes_view_index(nodes@, c as int);
            assert(fv.subrange(0, c + 1 as int) =~= fv.subrange(0, c as int).push(fv[c as int]));
            lemma_forest_link_ids_push(fv.subrange(0, c as int), fv[c as int]);
        }
        collect_link_ids(&nodes[c], &mut r);
        assert(r@ =~= forest_link_ids(fv.subrange(0, c + 1 as int)));
        c += 1;
    }
    assert(fv.subrange(0, fv.len() as int) =~= fv);
    r
}

/// Is the node, or any of its descendants, referenced from elsewhere?
pub fn subtree_used_x(n: &Node, used: &Vec<u64>) -> (b: bool)
    ensures
        b == subtree_used(n@, used@),
    decreases n,
{
    match n.id {
        Some(i) => {
            if crate::tree::contains_u64(used, i) {
                return true;
            }
        },
        None => {},
    }
    let ghost cv = nodes_view(n.children@);
    proof {
        lemma_nodes_view_len(n.children@);
    }
    let mut c: usize = 0;
    while c < n.children.len()
        invariant
            0 <= c <= n.children@.len(),
            cv == nodes_view(n.children@),
            cv.len() == n.children@.len(),
            !node_used(n@, used@),
            forall|k: int| 0 <= k < c ==> !subtree_used(cv[k], used@),
        decreases n.children@.len() - c,
    {
        proof {
            lemma_nodes_view_index(n.children@, c as int);
        }
        if subtree_used_x(&n.children[c], used) {
            assert(subtree_used(n@.children[c as int], used@));
            return true;
        }
        c += 1;
    }
    false
}

// ---------------------------------------------------------------------------
// Link resolution: identifier to element kind, first holder in document order.
// ---------------------------------------------------------------------------

/// One entry of the resolution index.
#[derive(Clone, Copy, PartialEq, Eq, Structural, Debug)]
pub struct IdTag {
    pub id: u64,
    pub tag: Tag,
}

/// The resolution entries a subtree contributes, in document order.
pub open spec fn node_id_tags(n: NodeV) -> Seq<IdTag>
    decreases n,
{
    (match n.id {
        Some(i) => seq![IdTag { id: i, tag: n.tag }],
        None => Seq::empty(),
    }) + forest_id_tags(n.children)
}

/// The resolution entries of a forest, in document order.
pub open spec fn forest_id_tags(s: Seq<NodeV>) -> Seq<IdTag>
    decreases s,
{
    if s.len() == 0 {
        Seq::empty()
    } else {
        node_id_tags(s[0]) + forest_id_tags(s.drop_first())
    }
}

/// What an identifier resolves to: the kind of its first holder, or nothing.
pub open spec fn lookup_tag(pairs: Seq<IdTag>, i: u64) -> Option<Tag>
    decreases pairs.len(),
{
    if pairs.len() == 0 {
        None
    } else if pairs[0].id == i {
        Some(pairs[0].tag)
    } else {
        lookup_tag(pairs.drop_first(), i)
    }
}

proof fn lemma_forest_id_tags_push(s: Seq<NodeV>, x: NodeV)
    ensures
        forest_id_tags(s.push(x)) == forest_id_tags(s) + node_id_tags(x),
    decreases s.len(),
{
    if s.len() == 0 {
        assert(s.push(x).drop_first() =~= Seq::<NodeV>::empty());
        assert(s.push(x)[0] == x);
        assert(forest_id_tags(s.push(x)) == node_id_tags(x) + forest_id_tags(
            s.push(x).drop_first(),
        ));
        assert(forest_id_tags(s.push(x)) =~= forest_id_tags(s) + node_id_tags(x));
    } else {
        lemma_forest_id_tags_push(s.drop_first(), x);
        assert(s.push(x).drop_first() =~= s.drop_first().push(x));
        assert(s.push(x)[0] == s[0]);
        assert(forest_id_tags(s.push(x)) == node_id_tags(s[0]) + forest_id_tags(
            s.drop_first().push(x),
        ));
        assert(forest_id_tags(s.push(x)) =~= forest_id_tags(s) + node_id_tags(x));
    }
}

/// Append the resolution entries of the subtree under `n`.
fn collect_id_tags(n: &Node, acc: &mut Vec<IdTag>)
    ensures
        final(acc)@ == old(acc)@ + node_id_tags(n@),
    decreases n,
{
    let ghost base = acc@;
    match n.id {
        Some(i) => {
            acc.push(IdTag { id: i, tag: n.tag });
        },
        None => {},
    }
    let ghost mid = acc@;
    proof {
        assert(mid =~= base + (match n@.id {
            Some(i) => seq![IdTag { id: i, tag: n@.tag }],
            None => Seq::<IdTag>::empty(),
        }));
    }
    let ghost cv = nodes_view(n.children@);
    proof {
        lemma_nodes_view_len(n.children@);
    }
    let mut c: usize = 0;
    while c < n.children.len()
        invariant
            0 <= c <= n.children@.len(),
            cv == nodes_view(n.children@),
            cv.len() == n.children@.len(),
            acc@ == mid + forest_id_tags(cv.subrange(0, c as int)),
        decreases n.children@.len() - c,
    {
        proof {
            lemma_nodes_view_index(n.children@, c as int);
            assert(cv.subrange(0, c + 1 as int) =~= cv.subrange(0, c as int).push(cv[c as int]));
            lemma_forest_id_tags_push(cv.subrange(0, c as int), cv[c as int]);
        }
        collect_id_tags(&n.children[c], acc);
        assert(acc@ =~= mid + forest_id_tags(cv.subrange(0, c + 1 as int)));
        c += 1;
    }
    assert(cv.subrange(0, cv.len() as int) =~= cv);
    assert(acc@ =~= base + node_id_tags(n@));
}

/// The resolution index of the whole forest.
pub fn id_tags(nodes: &Vec<Node>) -> (r: Vec<IdTag>)
    ensures
        r@ == forest_id_tags(nodes_view(nodes@)),
{
    let ghost fv = nodes_view(nodes@);
    proof {
        lemma_nodes_view_len(nodes@);
    }
    let mut r: Vec<IdTag> = Vec::new();
    let mut c: usize = 0;
    while c < nodes.len()
        invariant
            0 <= c <= nodes@.len(),
            fv == nodes_view(nodes@),
            fv.len() == nodes@.len(),
            r@ == forest_id_tags(fv.subrange(0, c as int)),
        decreases nodes@.len() - c,
    {
        proof {
            lemma_nodes_view_index(nodes@, c as int);
            assert(fv.subrange(0, c + 1 as int) =~= fv.subrange(0, c as int).push(fv[c as int]));
            lemma_forest_id_tags_push(fv.subrange(0, c as int), fv[c as int]);
        }
        collect_id_tags(&nodes[c], &mut r);
        assert(r@ =~= forest_id_tags(fv.subrange(0, c + 1 as int)));
        c += 1;
    }
    assert(fv.subrange(0, fv.len() as int) =~= fv);
    r
}

/// Resolve an identifier against the index.
pub fn lookup_tag_x(pairs: &Vec<IdTag>, i: u64) -> (r: Option<Tag>)
    ensures
        r == lookup_tag(pairs@, i),
{
    let mut j: usize = 0;
    assert(pairs@.subrange(0, pairs@.len() as int) =~= pairs@);
    while j < pairs.len()
        invariant
            0 <= j <= pairs@.len(),
            lookup_tag(pairs@, i) == lookup_tag(pairs@.subrange(j as int, pairs@.len() as int), i),
        decreases pairs@.len() - j,
    {
        let ghost suff = pairs@.subrange(j as int, pairs@.len() as int);
        if pairs[j].id == i {
            assert(suff[0] == pairs@[j as int]);
            return Some(pairs[j].tag);
        }
        proof {
            assert(suff[0] == pairs@[j as int]);
            assert(suff.drop_first() =~= pairs@.subrange(j + 1 as int, pairs@.len() as int));
        }
        j += 1;
    }
    assert(pairs@.subrange(pairs@.len() as int, pairs@.len() as int) =~= Seq::<IdTag>::empty());
    None
}

// ---------------------------------------------------------------------------
// Childless elements of a given kind, by identifier.
// ---------------------------------------------------------------------------

/// The identifiers of childless `t`-tagged nodes in the subtree under `n`.
pub open spec fn node_childless_ids(n: NodeV, t: Tag) -> Seq<u64>
    decreases n,
{
    (if n.tag == t && n.children.len() == 0 && n.id matches Some(i) {
        seq![n.id->0]
    } else {
        Seq::empty()
    }) + forest_childless_ids(n.children, t)
}

/// The identifiers of childless `t`-tagged nodes in a forest.
pub open spec fn forest_childless_ids(s: Seq<NodeV>, t: Tag) -> Seq<u64>
    decreases s,
{
    if s.len() == 0 {
        Seq::empty()
    } else {
        node_childless_ids(s[0], t) + forest_childless_ids(s.drop_first(), t)
    }
}

proof fn lemma_forest_childless_ids_push(s: Seq<NodeV>, x: NodeV, t: Tag)
    ensures
        forest_childless_ids(s.push(x), t) == forest_childless_ids(s, t) + node_childless_ids(x, t),
    decreases s.len(),
{
    if s.len() == 0 {
        assert(s.push(x).drop_first() =~= Seq::<NodeV>::empty());
        assert(s.push(x)[0] == x);
        assert(forest_childless_ids(s.push(x), t) == node_childless_ids(x, t)
            + forest_childless_ids(s.push(x).drop_first(), t));
        assert(forest_childless_ids(s.push(x), t) =~= forest_childless_ids(s, t)
            + node_childless_ids(x, t));
    } else {
        lemma_forest_childless_ids_push(s.drop_first(), x, t);
        assert(s.push(x).drop_first() =~= s.drop_first().push(x));
        assert(s.push(x)[0] == s[0]);
        assert(forest_childless_ids(s.push(x), t) == node_childless_ids(s[0], t)
            + forest_childless_ids(s.drop_first().push(x), t));
        assert(forest_childless_ids(s.push(x), t) =~= forest_childless_ids(s, t)
            + node_childless_ids(x, t));
    }
}

/// Append the identifiers of childless `t`-tagged nodes under `n`.
fn collect_childless_ids(n: &Node, t: Tag, acc: &mut Vec<u64>)
    ensures
        final(acc)@ == old(acc)@ + node_childless_ids(n@, t),
    decreases n,
{
    let ghost base = acc@;
    if n.tag == t && n.children.len() == 0 {
        match n.id {
            Some(i) => {
                acc.push(i);
            },
            None => {},
        }
    }
    let ghost mid = acc@;
    proof {
        lemma_nodes_view_len(n.children@);
        assert(mid =~= base + (if n@.tag == t && n@.children.len() == 0 && n@.id matches Some(i) {
            seq![n@.id->0]
        } else {
            Seq::<u64>::empty()
        }));
    }
    let ghost cv = nodes_view(n.children@);
    let mut c: usize = 0;
    while c < n.children.len()
        invariant
            0 <= c <= n.children@.len(),
            cv == nodes_view(n.children@),
            cv.len() == n.children@.len(),
            acc@ == mid + forest_childless_ids(cv.subrange(0, c as int), t),
        decreases n.children@.len() - c,
    {
        proof {
            lemma_nodes_view_index(n.children@, c as int);
            assert(cv.subrange(0, c + 1 as int) =~= cv.subrange(0, c as int).push(cv[c as int]));
            lemma_forest_childless_ids_push(cv.subrange(0, c as int), cv[c as int], t);
        }
        collect_childless_ids(&n.children[c], t, acc);
        assert(acc@ =~= mid + forest_childless_ids(cv.subrange(0, c + 1 as int), t));
        c += 1;
    }
    assert(cv.subrange(0, cv.len() as int) =~= cv);
    assert(acc@ =~= base + node_childless_ids(n@, t));
}

/// The identifiers of every childless `t`-tagged node in the forest.
pub fn childless_ids(nodes: &Vec<Node>, t: Tag) -> (r: Vec<u64>)
    ensures
        r@ == forest_childless_ids(nodes_view(nodes@), t),
{
    let ghost fv = nodes_view(nodes@);
    proof {
        lemma_nodes_view_len(nodes@);
    }
    let mut r: Vec<u64> = Vec::new();
    let mut c: usize = 0;
    while c < nodes.len()
        invariant
            0 <= c <= nodes@.len(),
            fv == nodes_view(nodes@),
            fv.len() == nodes@.len(),
            r@ == forest_childless_ids(fv.subrange(0, c as int), t),
        decreases nodes@.len() - c,
    {
        proof {
            lemma_nodes_view_index(nodes@, c as int);
            assert(fv.subrange(0, c + 1 as int) =~= fv.subrange(0, c as int).push(fv[c as int]));
            lemma_forest_childless_ids_push(fv.subrange(0, c as int), fv[c as int], t);
        }
        collect_childless_ids(&nodes[c], t, &mut r);
        assert(r@ =~= forest_childless_ids(fv.subrange(0, c + 1 as int), t));
        c += 1;
    }
    assert(fv.subrange(0, fv.len() as int) =~= fv);
    r
}

} // verus!

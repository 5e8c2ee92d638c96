//! The document tree: element kinds, typed attributes, nodes, and the
//! mathematical model (ghost mirror) that all contracts are stated over.

use vstd::prelude::*;

verus! {

/// Element kinds of the host document format that the passes must recognise.
#[derive(Clone, Copy, PartialEq, Eq, Structural, Debug)]
pub enum Tag {
    Svg,
    Group,
    Defs,
    ClipPath,
    Path,
    Filter,
    Use,
    Text,
    Rect,
    Circle,
    Ellipse,
    Line,
    Polyline,
    Polygon,
    LinearGradient,
}

/// Attribute kinds relevant to visibility: the display switch, path data,
/// the reference attribute of `use`-style elements, the clip-path and filter
/// reference attributes, and the paint-server reference carried by a fill.
#[derive(Clone, Copy, PartialEq, Eq, Structural, Debug)]
pub enum AttrKind {
    Display,
    D,
    Href,
    ClipPathRef,
    FilterRef,
    Fill,
}

/// Keyword attribute values; `KwNone` stands for the literal "none", the one
/// display keyword that triggers removal.
#[derive(Clone, Copy, PartialEq, Eq, Structural, Debug)]
pub enum Keyword {
    KwNone,
    KwOther,
}

/// A typed attribute value.  Path data is a sequence of encoded path
/// segments; the passes only ever ask whether it is empty.  A link names
/// another node by identifier and never owns it; a paint-server link is a
/// link embedded in a composite value such as a fill expression.
pub enum AttrValue {
    Keyword(Keyword),
    PathData(Vec<u64>),
    Link(u64),
    PaintServerLink(u64),
    Other,
}

/// One attribute: a kind and its typed value.
pub struct Attr {
    pub kind: AttrKind,
    pub value: AttrValue,
}

/// A node of the document tree.  A parent exclusively owns its children, and
/// children are kept and iterated in document order.  The optional identifier
/// is what link attributes elsewhere resolve against.
pub struct Node {
    pub tag: Tag,
    pub id: Option<u64>,
    pub attrs: Vec<Attr>,
    pub children: Vec<Node>,
}

/// A parsed document: its top-level elements in document order.
pub struct Tree {
    pub nodes: Vec<Node>,
}

/// Ghost mirror of an attribute value.
#[verifier::ext_equal]
pub enum AttrValueV {
    Keyword(Keyword),
    PathData(Seq<u64>),
    Link(u64),
    PaintServerLink(u64),
    Other,
}

/// Ghost mirror of an attribute.
#[verifier::ext_equal]
pub struct AttrV {
    pub kind: AttrKind,
    pub value: AttrValueV,
}

/// Ghost mirror of a node.
#[verifier::ext_equal]
pub struct NodeV {
    pub tag: Tag,
    pub id: Option<u64>,
    pub attrs: Seq<AttrV>,
    pub children: Seq<NodeV>,
}

impl View for AttrValue {
    type V = AttrValueV;

    open spec fn view(&self) -> AttrValueV {
        match self {
            AttrValue::Keyword(k) => AttrValueV::Keyword(*k),
            AttrValue::PathData(d) => AttrValueV::PathData(d@),
            AttrValue::Link(i) => AttrValueV::Link(*i),
            AttrValue::PaintServerLink(i) => AttrValueV::PaintServerLink(*i),
            AttrValue::Other => AttrValueV::Other,
        }
    }
}

impl View for Attr {
    type V = AttrV;

    open spec fn view(&self) -> AttrV {
        AttrV { kind: self.kind, value: self.value@ }
    }
}

/// The model of an attribute list.
pub open spec fn attrs_view(s: Seq<Attr>) -> Seq<AttrV> {
    s.map_values(|a: Attr| a@)
}

/// The model of a child list, element by element.
pub open spec fn nodes_view(s: Seq<Node>) -> Seq<NodeV>
    decreases s,
{
    if s.len() == 0 {
        Seq::empty()
    } else {
        seq![node_view(s[0])] + nodes_view(s.drop_first())
    }
}

/// The model of a node.
pub open spec fn node_view(n: Node) -> NodeV
    decreases n,
{
    NodeV { tag: n.tag, id: n.id, attrs: attrs_view(n.attrs@), children: nodes_view(n.children@) }
}

impl View for Node {
    type V = NodeV;

    open spec fn view(&self) -> NodeV {
        node_view(*self)
    }
}

impl View for Tree {
    type V = Seq<NodeV>;

    open spec fn view(&self) -> Seq<NodeV> {
        nodes_view(self.nodes@)
    }
}

pub proof fn lemma_nodes_view_len(s: Seq<Node>)
    ensures
        nodes_view(s).len() == s.len(),
    decreases s,
{
    if s.len() > 0 {
        lemma_nodes_view_len(s.drop_first());
    }
}

pub proof fn lemma_nodes_view_index(s: Seq<Node>, i: int)
    requires
        0 <= i < s.len(),
    ensures
        nodes_view(s).len() == s.len(),
        nodes_view(s)[i] == node_view(s[i]),
    decreases s,
{
    lemma_nodes_view_len(s);
    if i > 0 {
        lemma_nodes_view_index(s.drop_first(), i - 1);
    }
}

pub proof fn lemma_nodes_view_push(s: Seq<Node>, n: Node)
    ensures
        nodes_view(s.push(n)) == nodes_view(s) + seq![node_view(n)],
    decreases s,
{
    if s.len() == 0 {
        assert(s.push(n).drop_first() =~= Seq::<Node>::empty());
        assert(s.push(n)[0] == n);
        assert(nodes_view(s.push(n)) == seq![node_view(n)] + nodes_view(s.push(n).drop_first()));
        assert(nodes_view(s.push(n)) =~= nodes_view(s) + seq![node_view(n)]);
    } else {
        lemma_nodes_view_push(s.drop_first(), n);
        assert(s.push(n).drop_first() =~= s.drop_first().push(n));
        assert(s.push(n)[0] == s[0]);
        assert(nodes_view(s.push(n)) == seq![node_view(s[0])] + nodes_view(s.drop_first().push(n)));
        assert(nodes_view(s.push(n)) =~= nodes_view(s) + seq![node_view(n)]);
    }
}

// ---------------------------------------------------------------------------
// Node-local visibility predicates.
// ---------------------------------------------------------------------------

/// Basic-shape element kinds.
pub open spec fn is_basic_shape(t: Tag) -> bool {
    t == Tag::Rect || t == Tag::Circle || t == Tag::Ellipse || t == Tag::Line || t == Tag::Polyline
        || t == Tag::Polygon
}

/// Element kinds that may establish a clipping area on their own: a basic
/// shape, a path, or a text element.
pub open spec fn is_clip_shape(t: Tag) -> bool {
    is_basic_shape(t) || t == Tag::Path || t == Tag::Text
}

/// The node carries a display attribute whose value is the keyword "none".
pub open spec fn has_display_none(n: NodeV) -> bool {
    exists|j: int|
        0 <= j < n.attrs.len() && n.attrs[j].kind == AttrKind::Display && n.attrs[j].value
            == AttrValueV::Keyword(Keyword::KwNone)
}

/// The node carries well-typed, non-empty path data.
pub open spec fn has_drawable_path_data(n: NodeV) -> bool {
    exists|j: int|
        0 <= j < n.attrs.len() && n.attrs[j].kind == AttrKind::D && (n.attrs[j].value matches
        AttrValueV::PathData(d) && d.len() > 0)
}

/// The node references, through an attribute of kind `k` holding a plain
/// link, one of the identifiers in `ids`.
pub open spec fn has_ref_into(n: NodeV, k: AttrKind, ids: Seq<u64>) -> bool {
    exists|j: int|
        0 <= j < n.attrs.len() && n.attrs[j].kind == k && (n.attrs[j].value matches
        AttrValueV::Link(i) && ids.contains(i))
}

// ---------------------------------------------------------------------------
// Executable attribute scans, each matching its predicate exactly.
// ---------------------------------------------------------------------------

/// Does `v` hold `x`?
pub fn contains_u64(v: &Vec<u64>, x: u64) -> (b: bool)
    ensures
        b == v@.contains(x),
{
    let mut j: usize = 0;
    while j < v.len()
        invariant
            0 <= j <= v@.len(),
            forall|k: int| 0 <= k < j ==> v@[k] != x,
        decreases v@.len() - j,
    {
        if v[j] == x {
            return true;
        }
        j += 1;
    }
    false
}

/// Does the node carry `display` with the keyword "none"?
pub fn node_has_display_none(n: &Node) -> (b: bool)
    ensures
        b == has_display_none(n@),
{
    let mut j: usize = 0;
    while j < n.attrs.len()
        invariant
            0 <= j <= n.attrs@.len(),
            forall|k: int|
                0 <= k < j ==> !(n@.attrs[k].kind == AttrKind::Display && n@.attrs[k].value
                    == AttrValueV::Keyword(Keyword::KwNone)),
        decreases n.attrs@.len() - j,
    {
        let a = &n.attrs[j];
        if a.kind == AttrKind::Display {
            match &a.value {
                AttrValue::Keyword(kw) => {
                    if *kw == Keyword::KwNone {
                        assert(n@.attrs[j as int].kind == AttrKind::Display);
                        return true;
                    }
                },
                _ => {},
            }
        }
        j += 1;
    }
    false
}

/// Does the node carry well-typed, non-empty path data?
pub fn node_has_drawable_path_data(n: &Node) -> (b: bool)
    ensures
        b == has_drawable_path_data(n@),
{
    let mut j: usize = 0;
    while j < n.attrs.len()
        invariant
            0 <= j <= n.attrs@.len(),
            forall|k: int|
                0 <= k < j ==> !(n@.attrs[k].kind == AttrKind::D && (n@.attrs[k].value matches
                    AttrValueV::PathData(d) && d.len() > 0)),
        decreases n.attrs@.len() - j,
    {
        let a = &n.attrs[j];
        if a.kind == AttrKind::D {
            match &a.value {
                AttrValue::PathData(d) => {
                    if d.len() > 0 {
                        assert(n@.attrs[j as int].kind == AttrKind::D);
                        return true;
                    }
                },
                _ => {},
            }
        }
        j += 1;
    }
    false
}

/// Does the node reference one of `ids` through a plain link of kind `k`?
pub fn node_has_ref_into(n: &Node, k: AttrKind, ids: &Vec<u64>) -> (b: bool)
    ensures
        b == has_ref_into(n@, k, ids@),
{
    let mut j: usize = 0;
    while j < n.attrs.len()
        invariant
            0 <= j <= n.attrs@.len(),
            forall|kk: int|
                0 <= kk < j ==> !(n@.attrs[kk].kind == k && (n@.attrs[kk].value matches
                    AttrValueV::Link(i) && ids@.contains(i))),
        decreases n.attrs@.len() - j,
    {
        let a = &n.attrs[j];
        if a.kind == k {
            match &a.value {
                AttrValue::Link(i) => {
                    if contains_u64(ids, *i) {
                        assert(n@.attrs[j as int].kind == k);
                        return true;
                    }
                },
                _ => {},
            }
        }
        j += 1;
    }
    false
}

// ---------------------------------------------------------------------------
// Deep copies, each provably value-preserving on the model.
// ---------------------------------------------------------------------------

/// Copy a vector of path segments.
pub fn copy_u64s(v: &Vec<u64>) -> (r: Vec<u64>)
    ensures
        r@ == v@,
{
    let mut r: Vec<u64> = Vec::new();
    let mut j: usize = 0;
    while j < v.len()
        invariant
            0 <= j <= v@.len(),
            r@ == v@.subrange(0, j as int),
        decreases v@.len() - j,
    {
        r.push(v[j]);
        assert(r@ =~= v@.subrange(0, j + 1 as int));
        j += 1;
    }
    assert(r@ =~= v@);
    r
}

/// Copy one attribute.
pub fn copy_attr(a: &Attr) -> (r: Attr)
    ensures
        r@ == a@,
{
    let value = match &a.value {
        AttrValue::Keyword(kw) => AttrValue::Keyword(*kw),
        AttrValue::PathData(d) => AttrValue::PathData(copy_u64s(d)),
        AttrValue::Link(i) => AttrValue::Link(*i),
        AttrValue::PaintServerLink(i) => AttrValue::PaintServerLink(*i),
        AttrValue::Other => AttrValue::Other,
    };
    let r = Attr { kind: a.kind, value };
    assert(r@ =~= a@);
    r
}

/// Copy an attribute list; the model is unchanged.
pub fn copy_attrs(v: &Vec<Attr>) -> (r: Vec<Attr>)
    ensures
        attrs_view(r@) == attrs_view(v@),
{
    let mut r: Vec<Attr> = Vec::new();
    let mut j: usize = 0;
    while j < v.len()
        invariant
            0 <= j <= v@.len(),
            r@.len() == j,
            forall|k: int| 0 <= k < j ==> r@[k]@ == v@[k]@,
        decreases v@.len() - j,
    {
        r.push(copy_attr(&v[j]));
        j += 1;
    }
    assert(attrs_view(r@) =~= attrs_view(v@));
    r
}

} // verus!

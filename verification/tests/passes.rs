use svg_invisible::clip::{is_valid_clip_path_elem, process_clip_paths};
use svg_invisible::display::process_display_attribute;
use svg_invisible::filter::process_filter;
use svg_invisible::index::{childless_ids, id_tags, used_ids};
use svg_invisible::paths::process_paths;
use svg_invisible::remove_invisible_elements;
use svg_invisible::tree::{Attr, AttrKind, AttrValue, Keyword, Node, Tag, Tree};

fn el(tag: Tag) -> Node {
    Node { tag, id: None, attrs: Vec::new(), children: Vec::new() }
}

fn el_id(tag: Tag, id: u64) -> Node {
    Node { tag, id: Some(id), attrs: Vec::new(), children: Vec::new() }
}

fn with_children(mut n: Node, kids: Vec<Node>) -> Node {
    n.children = kids;
    n
}

fn with_attr(mut n: Node, kind: AttrKind, value: AttrValue) -> Node {
    n.attrs.push(Attr { kind, value });
    n
}

fn display_none(n: Node) -> Node {
    with_attr(n, AttrKind::Display, AttrValue::Keyword(Keyword::KwNone))
}

fn doc(kids: Vec<Node>) -> Tree {
    Tree { nodes: vec![with_children(el(Tag::Svg), kids)] }
}

fn svg(tree: &Tree) -> &Node {
    &tree.nodes[0]
}

/// Every remaining child of every clip-path node is a basic shape, a path, or
/// a text element (the reference case resolves to one of those, so a stricter
/// scan is fine for trees whose references all resolve or are stripped).
fn all_clip_children_shapelike(n: &Node) -> bool {
    let own = n.tag != Tag::ClipPath
        || n.children.iter().all(|c| {
            matches!(
                c.tag,
                Tag::Rect
                    | Tag::Circle
                    | Tag::Ellipse
                    | Tag::Line
                    | Tag::Polyline
                    | Tag::Polygon
                    | Tag::Path
                    | Tag::Text
                    | Tag::Use
            )
        });
    own && n.children.iter().all(all_clip_children_shapelike)
}

/// Every remaining path node carries non-empty, well-typed path data.
fn all_paths_drawable(n: &Node) -> bool {
    let own = n.tag != Tag::Path
        || n.attrs.iter().any(|a| {
            a.kind == AttrKind::D
                && match &a.value {
                    AttrValue::PathData(d) => !d.is_empty(),
                    _ => false,
                }
        });
    own && n.children.iter().all(all_paths_drawable)
}

#[test]
fn clip_path_strips_group_keeps_rect() {
    let clip = with_children(el(Tag::ClipPath), vec![el(Tag::Group), el(Tag::Rect)]);
    let mut tree = doc(vec![clip]);
    let removed = process_clip_paths(&mut tree);
    assert!(removed);
    assert_eq!(svg(&tree).children.len(), 1);
    let cp = &svg(&tree).children[0];
    assert_eq!(cp.tag, Tag::ClipPath);
    assert_eq!(cp.children.len(), 1);
    assert_eq!(cp.children[0].tag, Tag::Rect);
}

#[test]
fn clip_path_children_references() {
    // A bare reference, a reference to a group, and a reference to a rect:
    // only the last can establish a clipping area.
    let clip = with_children(
        el(Tag::ClipPath),
        vec![
            el(Tag::Use),
            with_attr(el(Tag::Use), AttrKind::Href, AttrValue::Link(1)),
            with_attr(el(Tag::Use), AttrKind::Href, AttrValue::Link(2)),
        ],
    );
    let mut tree = doc(vec![clip, el_id(Tag::Rect, 2), el_id(Tag::Group, 1)]);
    let removed = process_clip_paths(&mut tree);
    assert!(removed);
    assert_eq!(svg(&tree).children.len(), 3);
    let cp = &svg(&tree).children[0];
    assert_eq!(cp.children.len(), 1);
    assert_eq!(cp.children[0].tag, Tag::Use);
    match &cp.children[0].attrs[0].value {
        AttrValue::Link(i) => assert_eq!(*i, 2),
        _ => panic!("kept reference lost its link"),
    }
}

#[test]
fn empty_clip_path_cascades_to_referencers() {
    let clip = el_id(Tag::ClipPath, 7);
    let user1 = with_attr(el(Tag::Rect), AttrKind::ClipPathRef, AttrValue::Link(7));
    let user2 = with_attr(el(Tag::Rect), AttrKind::ClipPathRef, AttrValue::Link(7));
    let mut tree = doc(vec![clip, user1, user2]);
    let removed = process_clip_paths(&mut tree);
    assert!(removed);
    assert_eq!(svg(&tree).children.len(), 0);
}

#[test]
fn emptied_clip_path_cascades_after_stripping() {
    // The clip path's only child is invalid, so stripping empties it and the
    // cascade takes its referencer in the same run.
    let clip = with_children(el_id(Tag::ClipPath, 3), vec![el(Tag::Group)]);
    let user = with_attr(el(Tag::Rect), AttrKind::ClipPathRef, AttrValue::Link(3));
    let mut tree = doc(vec![clip, user]);
    let removed = process_clip_paths(&mut tree);
    assert!(removed);
    assert_eq!(svg(&tree).children.len(), 0);
}

#[test]
fn path_without_data_removed() {
    let mut tree = doc(vec![el(Tag::Path)]);
    let removed = process_paths(&mut tree);
    assert!(removed);
    assert_eq!(svg(&tree).children.len(), 0);
}

#[test]
fn path_with_empty_data_removed() {
    let p = with_attr(el(Tag::Path), AttrKind::D, AttrValue::PathData(Vec::new()));
    let mut tree = doc(vec![p]);
    let removed = process_paths(&mut tree);
    assert!(removed);
    assert_eq!(svg(&tree).children.len(), 0);
}

#[test]
fn path_with_wrong_kind_data_removed() {
    let p = with_attr(el(Tag::Path), AttrKind::D, AttrValue::Other);
    let mut tree = doc(vec![p]);
    let removed = process_paths(&mut tree);
    assert!(removed);
    assert_eq!(svg(&tree).children.len(), 0);
}

#[test]
fn path_with_data_kept_even_when_referenced_by_nothing() {
    let p = with_attr(el(Tag::Path), AttrKind::D, AttrValue::PathData(vec![10, 20]));
    let mut tree = doc(vec![p]);
    let removed = process_paths(&mut tree);
    assert!(!removed);
    assert_eq!(svg(&tree).children.len(), 1);
    assert_eq!(svg(&tree).children[0].tag, Tag::Path);
}

#[test]
fn referenced_empty_path_still_removed() {
    // The empty-path rule deliberately ignores the usage index.
    let p = with_attr(el_id(Tag::Path, 9), AttrKind::D, AttrValue::PathData(Vec::new()));
    let user = with_attr(el(Tag::Use), AttrKind::Href, AttrValue::Link(9));
    let mut tree = doc(vec![p, user]);
    let removed = process_paths(&mut tree);
    assert!(removed);
    assert_eq!(svg(&tree).children.len(), 1);
    assert_eq!(svg(&tree).children[0].tag, Tag::Use);
}

#[test]
fn display_none_unused_removed() {
    let mut tree = doc(vec![display_none(el(Tag::Path))]);
    let removed = process_display_attribute(&mut tree);
    assert!(removed);
    assert_eq!(svg(&tree).children.len(), 0);
}

#[test]
fn display_none_group_removed_with_subtree() {
    let g = with_children(display_none(el(Tag::Group)), vec![el(Tag::Rect)]);
    let mut tree = doc(vec![g]);
    let removed = process_display_attribute(&mut tree);
    assert!(removed);
    assert_eq!(svg(&tree).children.len(), 0);
}

#[test]
fn display_none_with_used_descendant_kept() {
    let g = with_children(display_none(el(Tag::Group)), vec![el_id(Tag::Rect, 1)]);
    let user = with_attr(el(Tag::Use), AttrKind::Href, AttrValue::Link(1));
    let mut tree = doc(vec![g, user]);
    let removed = remove_invisible_elements(&mut tree);
    assert!(!removed);
    assert_eq!(svg(&tree).children.len(), 2);
    assert_eq!(svg(&tree).children[0].tag, Tag::Group);
    assert_eq!(svg(&tree).children[0].children.len(), 1);
    assert_eq!(svg(&tree).children[1].tag, Tag::Use);
}

#[test]
fn display_none_used_through_paint_server_kept() {
    let grad = display_none(el_id(Tag::LinearGradient, 4));
    let user = with_attr(el(Tag::Rect), AttrKind::Fill, AttrValue::PaintServerLink(4));
    let mut tree = doc(vec![grad, user]);
    let removed = process_display_attribute(&mut tree);
    assert!(!removed);
    assert_eq!(svg(&tree).children.len(), 2);
}

#[test]
fn display_other_keyword_kept() {
    let g = with_attr(el(Tag::Group), AttrKind::Display, AttrValue::Keyword(Keyword::KwOther));
    let mut tree = doc(vec![g]);
    let removed = process_display_attribute(&mut tree);
    assert!(!removed);
    assert_eq!(svg(&tree).children.len(), 1);
}

#[test]
fn childless_filter_removed_when_unreferenced() {
    let mut tree = doc(vec![el(Tag::Filter)]);
    let removed = process_filter(&mut tree);
    assert!(removed);
    assert_eq!(svg(&tree).children.len(), 0);
}

#[test]
fn childless_filter_cascades_to_referencer() {
    let f = el_id(Tag::Filter, 5);
    let user = with_attr(el(Tag::Rect), AttrKind::FilterRef, AttrValue::Link(5));
    let mut tree = doc(vec![f, user]);
    let removed = process_filter(&mut tree);
    assert!(removed);
    assert_eq!(svg(&tree).children.len(), 0);
}

#[test]
fn filter_with_children_kept() {
    let f = with_children(el_id(Tag::Filter, 5), vec![el(Tag::Group)]);
    let user = with_attr(el(Tag::Rect), AttrKind::FilterRef, AttrValue::Link(5));
    let mut tree = doc(vec![f, user]);
    let removed = process_filter(&mut tree);
    assert!(!removed);
    assert_eq!(svg(&tree).children.len(), 2);
}

#[test]
fn whole_run_hidden_rect_empties_clip_path() {
    // The display-none pass removes the hidden rect; the clip-path pass then
    // finds the clip path childless and removes it.
    let clip = with_children(el(Tag::ClipPath), vec![display_none(el(Tag::Rect))]);
    let mut tree = doc(vec![clip]);
    let removed = remove_invisible_elements(&mut tree);
    assert!(removed);
    assert_eq!(svg(&tree).children.len(), 0);
}

#[test]
fn whole_run_reports_no_change_on_clean_tree() {
    let p = with_attr(el(Tag::Path), AttrKind::D, AttrValue::PathData(vec![1]));
    let mut tree = doc(vec![p, el(Tag::Text)]);
    let removed = remove_invisible_elements(&mut tree);
    assert!(!removed);
    assert_eq!(svg(&tree).children.len(), 2);
}

#[test]
fn second_run_removes_nothing_further() {
    let clip = with_children(el(Tag::ClipPath), vec![el(Tag::Group), el(Tag::Rect)]);
    let p = el(Tag::Path);
    let mut tree = doc(vec![clip, p]);
    let first = remove_invisible_elements(&mut tree);
    assert!(first);
    let second = remove_invisible_elements(&mut tree);
    assert!(!second);
    assert_eq!(svg(&tree).children.len(), 1);
    assert_eq!(svg(&tree).children[0].children.len(), 1);
}

#[test]
fn whole_run_post_conditions_hold() {
    let clip = with_children(
        el_id(Tag::ClipPath, 1),
        vec![el(Tag::Group), el(Tag::Rect), with_attr(el(Tag::Path), AttrKind::D, AttrValue::Other)],
    );
    let empty_filter = el_id(Tag::Filter, 2);
    let filtered = with_attr(el(Tag::Circle), AttrKind::FilterRef, AttrValue::Link(2));
    let good_path = with_attr(el(Tag::Path), AttrKind::D, AttrValue::PathData(vec![3, 4]));
    let mut tree = doc(vec![clip, empty_filter, filtered, good_path]);
    let removed = remove_invisible_elements(&mut tree);
    assert!(removed);
    assert!(all_clip_children_shapelike(svg(&tree)));
    assert!(all_paths_drawable(svg(&tree)));
    // The clip path kept its rect; the filter and its referencer are gone.
    assert_eq!(svg(&tree).children.len(), 2);
    assert_eq!(svg(&tree).children[0].tag, Tag::ClipPath);
    assert_eq!(svg(&tree).children[0].children.len(), 1);
    assert_eq!(svg(&tree).children[1].tag, Tag::Path);
}

#[test]
fn valid_clip_path_elem_judgements() {
    let nodes = vec![el_id(Tag::Rect, 2), el_id(Tag::Group, 1)];
    let pairs = id_tags(&nodes);
    assert!(is_valid_clip_path_elem(&el(Tag::Rect), &pairs));
    assert!(is_valid_clip_path_elem(&el(Tag::Text), &pairs));
    assert!(is_valid_clip_path_elem(&el(Tag::Path), &pairs));
    assert!(!is_valid_clip_path_elem(&el(Tag::Group), &pairs));
    assert!(!is_valid_clip_path_elem(&el(Tag::Use), &pairs));
    assert!(is_valid_clip_path_elem(
        &with_attr(el(Tag::Use), AttrKind::Href, AttrValue::Link(2)),
        &pairs,
    ));
    assert!(!is_valid_clip_path_elem(
        &with_attr(el(Tag::Use), AttrKind::Href, AttrValue::Link(1)),
        &pairs,
    ));
    assert!(!is_valid_clip_path_elem(
        &with_attr(el(Tag::Use), AttrKind::Href, AttrValue::Link(99)),
        &pairs,
    ));
}

#[test]
fn usage_index_collects_all_link_kinds() {
    let a = with_attr(el(Tag::Use), AttrKind::Href, AttrValue::Link(1));
    let b = with_attr(el(Tag::Rect), AttrKind::Fill, AttrValue::PaintServerLink(2));
    let c = with_attr(el(Tag::Rect), AttrKind::ClipPathRef, AttrValue::Link(3));
    let nodes = vec![with_children(el(Tag::Svg), vec![a, b, c])];
    let ids = used_ids(&nodes);
    assert_eq!(ids, vec![1, 2, 3]);
}

#[test]
fn childless_index_finds_nested_filters() {
    let inner = el_id(Tag::Filter, 8);
    let outer = with_children(el(Tag::Group), vec![inner, with_children(el_id(Tag::Filter, 9), vec![el(Tag::Group)])]);
    let nodes = vec![outer];
    let ids = childless_ids(&nodes, Tag::Filter);
    assert_eq!(ids, vec![8]);
}

#[test]
fn link_resolves_to_first_holder_in_document_order() {
    let clip = with_children(
        el(Tag::ClipPath),
        vec![with_attr(el(Tag::Use), AttrKind::Href, AttrValue::Link(5))],
    );
    let mut tree = doc(vec![clip, el_id(Tag::Rect, 5), el_id(Tag::Group, 5)]);
    let removed = process_clip_paths(&mut tree);
    assert!(!removed);
    assert_eq!(svg(&tree).children[0].children.len(), 1);
}

#[test]
fn nested_clip_path_is_an_invalid_child_and_empties_its_parent() {
    let inner = el(Tag::ClipPath);
    let outer = with_children(el(Tag::ClipPath), vec![inner]);
    let mut tree = doc(vec![outer]);
    let removed = process_clip_paths(&mut tree);
    assert!(removed);
    assert_eq!(svg(&tree).children.len(), 0);
}

#[test]
fn deeply_nested_empty_path_removed() {
    let deep = with_children(
        el(Tag::Group),
        vec![with_children(el(Tag::Group), vec![el(Tag::Path), el(Tag::Circle)])],
    );
    let mut tree = doc(vec![deep]);
    let removed = process_paths(&mut tree);
    assert!(removed);
    assert_eq!(svg(&tree).children[0].children[0].children.len(), 1);
    assert_eq!(svg(&tree).children[0].children[0].children[0].tag, Tag::Circle);
}

#[test]
fn display_none_node_referenced_itself_kept() {
    let g = display_none(el_id(Tag::Group, 6));
    let user = with_attr(el(Tag::Use), AttrKind::Href, AttrValue::Link(6));
    let mut tree = doc(vec![g, user]);
    let removed = process_display_attribute(&mut tree);
    assert!(!removed);
    assert_eq!(svg(&tree).children.len(), 2);
}

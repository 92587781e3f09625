use wavefront_obj::compose::{is_text_composable, CompositorInstructions};
use wavefront_obj::parser::parse_str;
use wavefront_obj::object::{
    DisplayObjectSetCompositor, Element, Group, Object, ObjectSet, ShapeEntry, SmoothingGroup,
    TextObjectSetCompositor, VTNIndex, Vertex,
};

fn text(s: &str) -> String {
    String::from(s)
}

fn sample_object(groups_of: &[u32]) -> Object {
    let vertex_set = vec![Vertex::new(text("1"), text("2"), text("3"), text("1"))];
    let element_set: Vec<Element> = (1..=groups_of.len() as u32).map(|i| Element::Point(VTNIndex::V(i))).collect();
    let shape_set: Vec<ShapeEntry> = groups_of
        .iter()
        .enumerate()
        .map(|(i, g)| ShapeEntry::new(i as u32 + 1, &[*g], 1))
        .collect();
    Object::new(
        text("Object1"),
        vertex_set,
        vec![],
        vec![],
        vec![Group::new("a"), Group::new("b"), Group::new("c")],
        vec![SmoothingGroup::new(1)],
        element_set,
        shape_set,
    )
}

#[test]
fn display_compositor_summarizes_each_set() {
    let set = ObjectSet::new(vec![sample_object(&[1, 1, 2, 2, 3])]);
    let expected = [
        "ObjectSet {\n",
        "Object {\n",
        "    name: Object1\n",
        "    vertex set:\n        data: [(v  1  2  3  1) ... (v  1  2  3  1)]\n        length: 1\n",
        "    texture vertex set:\n        data: []\n        length: 0\n",
        "    normal vertex set:\n        data: []\n        length: 0\n",
        "    group set:\n        data: [(a) ... (c)]\n        length: 3\n",
        "    smoothing group set:\n        data: [(1) ... (1)]\n        length: 1\n",
        "    element set:\n        data: [(p  1) ... (p  5)]\n        length: 5\n",
        "}\n",
        "\n",
        "}\n",
    ]
    .concat();
    assert_eq!(DisplayObjectSetCompositor::new().compose(&set), expected);
}

#[test]
fn display_compositor_of_empty_set() {
    let set = ObjectSet::new(vec![]);
    assert_eq!(DisplayObjectSetCompositor::new().compose(&set), "ObjectSet {\n}\n");
}

#[test]
fn display_compositor_writes_index_forms() {
    let mut object = sample_object(&[1, 2]);
    object.element_set = vec![
        Element::Line(VTNIndex::VT(1, 2), VTNIndex::VT(3, 4)),
        Element::Face(VTNIndex::VN(1, 12), VTNIndex::VTN(2, 3, 4), VTNIndex::V(305)),
    ];
    let summary = DisplayObjectSetCompositor::new().compose(&ObjectSet::new(vec![object]));
    assert!(summary.contains("        data: [(l  1/2  3/4) ... (f  1//12  2/3/4  305)]\n        length: 2\n"));
}

#[test]
fn generate_splits_at_changes_of_grouping() {
    let object = sample_object(&[1, 1, 2, 2, 3]);
    let plan = CompositorInstructions::generate(&object);
    let intervals: Vec<(usize, usize)> = plan.instructions.iter().map(|e| e.0).collect();
    assert_eq!(intervals, vec![(0, 2), (2, 4), (4, 5)]);
    let counts: Vec<usize> = plan.instructions.iter().map(|e| e.1.len()).collect();
    assert_eq!(counts, vec![2, 1, 1]);

    let object = sample_object(&[1, 1, 1]);
    let plan = CompositorInstructions::generate(&object);
    let intervals: Vec<(usize, usize)> = plan.instructions.iter().map(|e| e.0).collect();
    assert_eq!(intervals, vec![(0, 3)]);

    let object = sample_object(&[]);
    assert!(CompositorInstructions::generate(&object).instructions.is_empty());
}

#[test]
fn text_composability() {
    assert!(is_text_composable(&sample_object(&[])));
    assert!(is_text_composable(&sample_object(&[1, 1, 1])));
    assert!(is_text_composable(&sample_object(&[1, 2])));
    assert!(!is_text_composable(&sample_object(&[1, 4])));
    let mut object = sample_object(&[1, 1, 2, 2, 3]);
    object.element_set.truncate(1);
    assert!(!is_text_composable(&object));
}

fn sample_text() -> String {
    [
        "#### BEGIN Object 0\n",
        "o  Object1 \n",
        "v  1  2  3 \n",
        "# 1 vertices\n\n",
        "# 0 texture vertices\n\n",
        "# 0 normal vertices\n\n",
        "g  a  \n",
        "s  1 \n",
        "p  1\n",
        "p  2\n",
        "# 2 elements\n\n",
        "g  b  \n",
        "p  3\n",
        "p  4\n",
        "# 2 elements\n\n",
        "g  c  \n",
        "p  5\n",
        "# 1 elements\n\n",
        "#### END Object 0\n",
        "\n",
    ]
    .concat()
}

#[test]
fn text_compositor_writes_obj_text() {
    let set = ObjectSet::new(vec![sample_object(&[1, 1, 2, 2, 3])]);
    assert_eq!(TextObjectSetCompositor::new().compose(&set, &vec![vec![true]]), sample_text());
}

#[test]
fn text_compositor_keeps_a_weight_other_than_one() {
    let set = ObjectSet::new(vec![sample_object(&[1, 2, 3])]);
    let out = TextObjectSetCompositor::new().compose(&set, &vec![vec![false]]);
    assert!(out.contains("v  1  2  3  1 \n"));
    assert!(out.contains("g  c  \np  3\n# 1 elements\n\n"));
}

#[test]
fn parsing_the_text_gives_the_set_back() {
    let set = ObjectSet::new(vec![sample_object(&[1, 1, 2, 2, 3])]);
    let text = TextObjectSetCompositor::new().compose(&set, &vec![vec![true]]);
    assert_eq!(parse_str(&text).unwrap(), set);
}

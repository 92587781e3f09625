use wavefront_obj::lexer::{Lexer, ObjectLexer};
use wavefront_obj::object::{
    Element, Group, NormalVertex, Object, ObjectSet, ShapeEntry, SmoothingGroup, TextObjectSetCompositor,
    TextureVertex, VTNIndex, Vertex,
};
use wavefront_obj::parser::{parse_str, Parser};

fn text(s: &str) -> String {
    String::from(s)
}

fn tokens_of(data: &str) -> Vec<String> {
    let mut lexer = ObjectLexer::new(Lexer::new(data));
    let mut out = Vec::new();
    while let Some(token) = lexer.next_token() {
        out.push(token.into_iter().collect::<String>());
    }
    out
}

#[test]
fn blanks_between_tokens_change_no_token() {
    let plain = tokens_of("vn 1 2 3\nf 1 2 3\n");
    assert_eq!(plain, vec!["vn", "1", "2", "3", "\n", "f", "1", "2", "3", "\n"]);
    assert_eq!(tokens_of("  vn    1 2   3  \n\tf 1\t2 3   \n   "), plain);
}

#[test]
fn comment_at_end_of_line_changes_no_token() {
    let plain = tokens_of("vn 1 2 3\nf 1 2 3\n");
    assert_eq!(tokens_of("vn 1 2 3# normal\nf 1 2 3 # face\n# end"), plain);
}

#[test]
fn blanks_and_comments_leave_the_parse_unchanged() {
    let plain = parse_str("o a\nv 1 2 3\nvn 1 2 3\nf 1//1 1//1 1//1\n");
    let spaced = parse_str("  o   a # name\n v 1  2 3\t\nvn    1 2   3 # normal\n f 1//1  1//1 1//1   \n");
    assert!(plain.is_ok());
    assert_eq!(plain, spaced);
}

#[test]
fn index_text_reads_back() {
    let cases = [
        (VTNIndex::V(1291), "1291"),
        (VTNIndex::VT(1291, 1315), "1291/1315"),
        (VTNIndex::VN(1291, 1315), "1291//1315"),
        (VTNIndex::VTN(1291, 1315, 1314), "1291/1315/1314"),
        (VTNIndex::VTN(0, 4294967295, 7), "0/4294967295/7"),
    ];
    for (index, written) in cases.iter() {
        assert_eq!(Parser::new(written).parse_vtn_index(), Ok(*index));
    }
}

fn vertex(x: &str, y: &str, z: &str, w: &str) -> Vertex {
    Vertex::new(text(x), text(y), text(z), text(w))
}

/// An object with points, lines and faces, whose groups and smoothing
/// groups change between its elements.
fn sample_object(name: &str) -> (Object, Vec<bool>) {
    let vertex_set = vec![vertex("1", "2", "3", "1"), vertex("-0.5", "1e3", "0.25", "0.5"), vertex("4", "5", "6", "1")];
    let unit_w = vec![true, false, true];
    let texture_vertex_set = vec![TextureVertex::new(text("0.5"), text("0.25"), text("0"))];
    let normal_vertex_set = vec![NormalVertex::new(text("0"), text("0"), text("1"))];
    let element_set = vec![
        Element::Point(VTNIndex::V(1)),
        Element::Line(VTNIndex::VT(1, 1), VTNIndex::VT(2, 1)),
        Element::Face(VTNIndex::VN(1, 1), VTNIndex::VN(2, 1), VTNIndex::VN(3, 1)),
        Element::Face(VTNIndex::VTN(1, 1, 1), VTNIndex::VTN(2, 1, 1), VTNIndex::VTN(3, 1, 1)),
        Element::Point(VTNIndex::V(3)),
    ];
    let shape_set = vec![
        ShapeEntry::new(1, &[1, 2], 1),
        ShapeEntry::new(2, &[1, 2], 1),
        ShapeEntry::new(3, &[1, 2], 2),
        ShapeEntry::new(4, &[3], 2),
        ShapeEntry::new(5, &[4, 5], 3),
    ];
    let object = Object::new(
        text(name),
        vertex_set,
        texture_vertex_set,
        normal_vertex_set,
        vec![Group::new("a"), Group::new("b"), Group::new("c"), Group::new("d"), Group::new("default")],
        vec![SmoothingGroup::new(0), SmoothingGroup::new(7), SmoothingGroup::new(1)],
        element_set,
        shape_set,
    );
    (object, unit_w)
}

#[test]
fn composed_text_parses_back_to_the_object_set() {
    let (first, w1) = sample_object("first");
    let (second, w2) = sample_object("second");
    let set = ObjectSet::new(vec![first, second]);
    let text = TextObjectSetCompositor::new().compose(&set, &vec![w1, w2]);
    assert_eq!(Parser::new(&text).parse(), Ok(set));
}

#[test]
fn composed_text_of_an_object_without_elements_parses_back() {
    let object = Object::new(
        text("empty"),
        vec![vertex("1", "2", "3", "1")],
        vec![],
        vec![],
        vec![],
        vec![],
        vec![],
        vec![],
    );
    let set = ObjectSet::new(vec![object]);
    let text = TextObjectSetCompositor::new().compose(&set, &vec![vec![true]]);
    assert_eq!(Parser::new(&text).parse(), Ok(set));
}

#[test]
fn composed_text_of_an_empty_set_parses_back() {
    let set = ObjectSet::new(vec![]);
    let text = TextObjectSetCompositor::new().compose(&set, &vec![]);
    assert_eq!(text, "");
    assert_eq!(Parser::new(&text).parse(), Ok(set));
}

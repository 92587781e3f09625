use wavefront_obj::object::{
    Element, Group, NormalVertex, ObjectBuilder, ObjectSet, ShapeEntry, SmoothingGroup, TextureVertex, VTNIndex,
    Vertex,
};
use wavefront_obj::parser::{parse_str, try_parse_str, ParseError, Parser};

fn num(s: &str) -> f32 {
    s.parse::<f32>().unwrap()
}

fn vertex(v: &Vertex) -> (f32, f32, f32, f32) {
    (num(&v.x), num(&v.y), num(&v.z), num(&v.w))
}

fn texture_vertex(v: &TextureVertex) -> (f32, f32, f32) {
    (num(&v.u), num(&v.v), num(&v.w))
}

fn normal_vertex(v: &NormalVertex) -> (f32, f32, f32) {
    (num(&v.i), num(&v.j), num(&v.k))
}

fn token(t: Option<Vec<char>>) -> Option<String> {
    t.map(|t| t.into_iter().collect())
}

#[test]
fn parser_test_parse_f32() {
    let mut parser = Parser::new("-1.929448");
    assert_eq!(parser.parse_f32().map(|s| num(&s)), Ok(-1.929448));
}

#[test]
fn parser_test_parse_u32() {
    let mut parser = Parser::new("    763   ");
    assert_eq!(parser.parse_u32(), Ok(763));
}

#[test]
fn parser_test_parse_vertex1() {
    let mut parser = Parser::new("v -1.929448 13.329624 -5.221914\n");
    assert_eq!(vertex(&parser.parse_vertex().unwrap()), (-1.929448, 13.329624, -5.221914, 1.0));
}

#[test]
fn parser_test_parse_vertex2() {
    let mut parser = Parser::new("v -1.929448 13.329624 -5.221914 1.329624\n");
    assert_eq!(vertex(&parser.parse_vertex().unwrap()), (-1.929448, 13.329624, -5.221914, 1.329624));
}

#[test]
fn parser_test_parse_vertex3() {
    let mut parser = Parser::new("v -1.929448 13.329624 \n");
    assert!(parser.parse_vertex().is_err());
}

#[test]
fn parser_test_parse_vertex4() {
    let mut parser = Parser::new("v -1.929448 13.329624 -5.221914 1.329624\n v");
    assert!(parser.parse_vertex().is_ok());
}

#[test]
fn parser_test_parse_vertex5() {
    let mut parser = Parser::new(
        "v -6.207583 1.699077 8.466142
              v -14.299248 1.700244 8.468981 1.329624",
    );
    assert_eq!(vertex(&parser.parse_vertex().unwrap()), (-6.207583, 1.699077, 8.466142, 1.0));
    assert_eq!(token(parser.next()), Some(String::from("\n")));
    assert_eq!(vertex(&parser.parse_vertex().unwrap()), (-14.299248, 1.700244, 8.468981, 1.329624));
}

#[test]
fn parser_test_parse_texture_vertex1() {
    let mut parser = Parser::new("vt -1.929448");
    assert_eq!(texture_vertex(&parser.parse_texture_vertex().unwrap()), (-1.929448, 0.0, 0.0));
}

#[test]
fn parser_test_parse_texture_vertex2() {
    let mut parser = Parser::new("vt -1.929448 13.329624 -5.221914");
    assert_eq!(texture_vertex(&parser.parse_texture_vertex().unwrap()), (-1.929448, 13.329624, -5.221914));
}

#[test]
fn parser_test_parse_texture_vertex3() {
    let mut parser = Parser::new(
        "vt -1.929448 13.329624 -5.221914
             vt -27.6068  31.1438    27.2099",
    );
    assert_eq!(texture_vertex(&parser.parse_texture_vertex().unwrap()), (-1.929448, 13.329624, -5.221914));
    assert_eq!(token(parser.next()), Some(String::from("\n")));
    assert_eq!(texture_vertex(&parser.parse_texture_vertex().unwrap()), (-27.6068, 31.1438, 27.2099));
}

#[test]
fn parser_test_parse_normal_vertex1() {
    let mut parser = Parser::new("vn  -0.966742  -0.255752  9.97231e-09");
    assert_eq!(normal_vertex(&parser.parse_normal_vertex().unwrap()), (-0.966742, -0.255752, 9.97231e-09));
}

#[test]
fn parser_test_parse_normal_vertex2() {
    let mut parser = Parser::new(
        "vn -1.929448 13.329624 -5.221914
             vn -27.6068  31.1438    27.2099",
    );
    assert_eq!(normal_vertex(&parser.parse_normal_vertex().unwrap()), (-1.929448, 13.329624, -5.221914));
    assert_eq!(token(parser.next()), Some(String::from("\n")));
    assert_eq!(normal_vertex(&parser.parse_normal_vertex().unwrap()), (-27.6068, 31.1438, 27.2099));
}

#[test]
fn parser_test_parse_object_name1() {
    let mut parser = Parser::new("o object_name \n\n");
    assert_eq!(parser.parse_object_name(), Ok(String::from("object_name")));
}

#[test]
fn parser_test_parse_object_name2() {
    let mut parser = Parser::new("o object_name");
    assert!(parser.parse_object_name().is_err());
}

#[test]
fn parser_test_parse_vtn_index1() {
    let mut parser = Parser::new("1291");
    assert_eq!(parser.parse_vtn_index(), Ok(VTNIndex::V(1291)));
}

#[test]
fn parser_test_parse_vtn_index2() {
    let mut parser = Parser::new("1291/1315");
    assert_eq!(parser.parse_vtn_index(), Ok(VTNIndex::VT(1291, 1315)));
}

#[test]
fn parser_test_parse_vtn_index3() {
    let mut parser = Parser::new("1291/1315/1314");
    assert_eq!(parser.parse_vtn_index(), Ok(VTNIndex::VTN(1291, 1315, 1314)));
}

#[test]
fn parser_test_parse_vtn_index4() {
    let mut parser = Parser::new("1291//1315");
    assert_eq!(parser.parse_vtn_index(), Ok(VTNIndex::VN(1291, 1315)));
}

#[test]
fn parser_test_parse_point1() {
    let mut parser = Parser::new("p 1 2 3 4 \n");
    let mut result = vec![];
    let expected = vec![
        Element::Point(VTNIndex::V(1)),
        Element::Point(VTNIndex::V(2)),
        Element::Point(VTNIndex::V(3)),
        Element::Point(VTNIndex::V(4)),
    ];
    assert!(parser.parse_elements(&mut result).is_ok());
    assert_eq!(result, expected);
}

#[test]
fn parser_test_parse_point2() {
    let mut parser = Parser::new("p 1 1/2 3 4/5");
    let mut result = vec![];
    assert!(parser.parse_elements(&mut result).is_err());
}

#[test]
fn parser_test_parse_line1() {
    let mut parser = Parser::new("l 297 38 118 108 \n");
    let mut result = vec![];
    let expected = vec![
        Element::Line(VTNIndex::V(297), VTNIndex::V(38)),
        Element::Line(VTNIndex::V(38), VTNIndex::V(118)),
        Element::Line(VTNIndex::V(118), VTNIndex::V(108)),
    ];
    assert!(parser.parse_elements(&mut result).is_ok());
    assert_eq!(result, expected);
}

#[test]
fn parser_test_parse_line2() {
    let mut parser = Parser::new("l 297/38 118/108 \n");
    let mut result = vec![];
    let expected = vec![Element::Line(VTNIndex::VT(297, 38), VTNIndex::VT(118, 108))];
    assert!(parser.parse_elements(&mut result).is_ok());
    assert_eq!(result, expected);
}

#[test]
fn parser_test_parse_line3() {
    let mut parser = Parser::new("l 297/38 118/108 324/398 \n");
    let mut result = vec![];
    let expected = vec![
        Element::Line(VTNIndex::VT(297, 38), VTNIndex::VT(118, 108)),
        Element::Line(VTNIndex::VT(118, 108), VTNIndex::VT(324, 398)),
    ];
    assert!(parser.parse_elements(&mut result).is_ok());
    assert_eq!(result, expected);
}

#[test]
fn parser_test_parse_line4() {
    let mut parser = Parser::new("l 297/38 118 324 \n");
    let mut result = vec![];
    assert!(parser.parse_elements(&mut result).is_err());
}

#[test]
fn parser_test_parse_line5() {
    let mut parser = Parser::new("l 297 118/108 324/398 \n");
    let mut result = vec![];
    assert!(parser.parse_elements(&mut result).is_err());
}

#[test]
fn parser_test_parse_face1() {
    let mut parser = Parser::new("f 297 118 108\n");
    let mut result = vec![];
    let expected = vec![Element::Face(VTNIndex::V(297), VTNIndex::V(118), VTNIndex::V(108))];
    assert!(parser.parse_elements(&mut result).is_ok());
    assert_eq!(result, expected);
}

#[test]
fn parser_test_parse_face2() {
    let mut parser = Parser::new("f 297 118 108 324\n");
    let mut result = vec![];
    let expected = vec![
        Element::Face(VTNIndex::V(297), VTNIndex::V(118), VTNIndex::V(108)),
        Element::Face(VTNIndex::V(297), VTNIndex::V(108), VTNIndex::V(324)),
    ];
    assert!(parser.parse_elements(&mut result).is_ok());
    assert_eq!(result, expected);
}

#[test]
fn parser_test_parse_face3() {
    let mut parser = Parser::new("f 297 118 108 324 398 \n");
    let mut result = vec![];
    let expected = vec![
        Element::Face(VTNIndex::V(297), VTNIndex::V(118), VTNIndex::V(108)),
        Element::Face(VTNIndex::V(297), VTNIndex::V(108), VTNIndex::V(324)),
        Element::Face(VTNIndex::V(297), VTNIndex::V(324), VTNIndex::V(398)),
    ];
    assert!(parser.parse_elements(&mut result).is_ok());
    assert_eq!(result, expected);
}

#[test]
fn parser_test_parse_face4() {
    let mut parser = Parser::new("f 297 118 \n");
    let mut result = vec![];
    assert!(parser.parse_face(&mut result).is_err());
}

#[test]
fn parser_test_parse_face5() {
    let mut parser =
        Parser::new("f 34184//34184 34088//34088 34079//34079 34084//34084 34091//34091 34076//34076\n");
    let mut result = vec![];
    let expected = vec![
        Element::Face(VTNIndex::VN(34184, 34184), VTNIndex::VN(34088, 34088), VTNIndex::VN(34079, 34079)),
        Element::Face(VTNIndex::VN(34184, 34184), VTNIndex::VN(34079, 34079), VTNIndex::VN(34084, 34084)),
        Element::Face(VTNIndex::VN(34184, 34184), VTNIndex::VN(34084, 34084), VTNIndex::VN(34091, 34091)),
        Element::Face(VTNIndex::VN(34184, 34184), VTNIndex::VN(34091, 34091), VTNIndex::VN(34076, 34076)),
    ];
    parser.parse_elements(&mut result).unwrap();
    assert_eq!(result, expected);
}

#[test]
fn parser_parse_group_name1() {
    let mut parser = Parser::new("g group");
    let mut result = vec![];
    let parsed = parser.parse_groups(&mut result);
    assert!(parsed.is_ok());
    assert_eq!(result, vec![Group::new("group")]);
}

#[test]
fn parser_parse_group_name2() {
    let mut parser = Parser::new("g group1 group2 group3");
    let mut result = vec![];
    let parsed = parser.parse_groups(&mut result);
    assert!(parsed.is_ok());
    assert_eq!(result, vec![Group::new("group1"), Group::new("group2"), Group::new("group3")]);
}

#[test]
fn parser_test_smoothing_group_name1() {
    let mut parser = Parser::new("s off");
    let mut result = vec![];
    let parsed = parser.parse_smoothing_group(&mut result);
    assert!(parsed.is_ok());
    assert_eq!(result, vec![SmoothingGroup::new(0)]);
}

#[test]
fn parser_test_smoothing_group_name2() {
    let mut parser = Parser::new("s 0");
    let mut result = vec![];
    let parsed = parser.parse_smoothing_group(&mut result);
    assert!(parsed.is_ok());
    assert_eq!(result, vec![SmoothingGroup::new(0)]);
}

#[test]
fn parser_test_smoothing_group_name3() {
    let mut parser = Parser::new("s 3434");
    let mut result = vec![];
    let parsed = parser.parse_smoothing_group(&mut result);
    assert!(parsed.is_ok());
    assert_eq!(result, vec![SmoothingGroup::new(3434)]);
}

fn text_vertex(x: &str, y: &str, z: &str) -> Vertex {
    Vertex::new(x.to_string(), y.to_string(), z.to_string(), "1".to_string())
}

fn text_normal(i: &str, j: &str, k: &str) -> NormalVertex {
    NormalVertex::new(i.to_string(), j.to_string(), k.to_string())
}

/// The cube of the object set tests: what the parser gives, and what it is
/// expected to give.
fn object_set_case() -> (Result<ObjectSet, ParseError>, Result<ObjectSet, ParseError>) {
    let obj_file = r"                      \
            o object1                         \
            g cube                            \
            v  0.0  0.0  0.0                  \
            v  0.0  0.0  1.0                  \
            v  0.0  1.0  0.0                  \
            v  0.0  1.0  1.0                  \
            v  1.0  0.0  0.0                  \
            v  1.0  0.0  1.0                  \
            v  1.0  1.0  0.0                  \
            v  1.0  1.0  1.0                  \
                                              \
            vn  0.0  0.0  1.0                 \
            vn  0.0  0.0 -1.0                 \
            vn  0.0  1.0  0.0                 \
            vn  0.0 -1.0  0.0                 \
            vn  1.0  0.0  0.0                 \
            vn -1.0  0.0  0.0                 \
                                              \
            f  1//2  7//2  5//2               \
            f  1//2  3//2  7//2               \
            f  1//6  4//6  3//6               \
            f  1//6  2//6  4//6               \
            f  3//3  8//3  7//3               \
            f  3//3  4//3  8//3               \
            f  5//5  7//5  8//5               \
            f  5//5  8//5  6//5               \
            f  1//4  5//4  6//4               \
            f  1//4  6//4  2//4               \
            f  2//1  6//1  8//1               \
            f  2//1  8//1  4//1               \
        ";
    let mut builder = ObjectBuilder::new(
        vec![
            text_vertex("0.0", "0.0", "0.0"),
            text_vertex("0.0", "0.0", "1.0"),
            text_vertex("0.0", "1.0", "0.0"),
            text_vertex("0.0", "1.0", "1.0"),
            text_vertex("1.0", "0.0", "0.0"),
            text_vertex("1.0", "0.0", "1.0"),
            text_vertex("1.0", "1.0", "0.0"),
            text_vertex("1.0", "1.0", "1.0"),
        ],
        vec![
            Element::Face(VTNIndex::VN(1, 2), VTNIndex::VN(7, 2), VTNIndex::VN(5, 2)),
            Element::Face(VTNIndex::VN(1, 2), VTNIndex::VN(3, 2), VTNIndex::VN(7, 2)),
            Element::Face(VTNIndex::VN(1, 6), VTNIndex::VN(4, 6), VTNIndex::VN(3, 6)),
            Element::Face(VTNIndex::VN(1, 6), VTNIndex::VN(2, 6), VTNIndex::VN(4, 6)),
            Element::Face(VTNIndex::VN(3, 3), VTNIndex::VN(8, 3), VTNIndex::VN(7, 3)),
            Element::Face(VTNIndex::VN(3, 3), VTNIndex::VN(4, 3), VTNIndex::VN(8, 3)),
            Element::Face(VTNIndex::VN(5, 5), VTNIndex::VN(7, 5), VTNIndex::VN(8, 5)),
            Element::Face(VTNIndex::VN(5, 5), VTNIndex::VN(8, 5), VTNIndex::VN(6, 5)),
            Element::Face(VTNIndex::VN(1, 4), VTNIndex::VN(5, 4), VTNIndex::VN(6, 4)),
            Element::Face(VTNIndex::VN(1, 4), VTNIndex::VN(6, 4), VTNIndex::VN(2, 4)),
            Element::Face(VTNIndex::VN(2, 1), VTNIndex::VN(6, 1), VTNIndex::VN(8, 1)),
            Element::Face(VTNIndex::VN(2, 1), VTNIndex::VN(8, 1), VTNIndex::VN(4, 1)),
        ],
    );
    builder
        .with_name(String::from("object1"))
        .with_normal_vertex_set(vec![
            text_normal("0.0", "0.0", "1.0"),
            text_normal("0.0", "0.0", "-1.0"),
            text_normal("0.0", "1.0", "0.0"),
            text_normal("0.0", "-1.0", "0.0"),
            text_normal("1.0", "0.0", "0.0"),
            text_normal("-1.0", "0.0", "0.0"),
        ])
        .with_group_set(vec![Group::new("cube")])
        .with_smoothing_group_set(vec![SmoothingGroup::new(0)])
        .with_shape_set((1..13).map(|i| ShapeEntry { element: i, groups: vec![1], smoothing_group: 1 }).collect());
    let expected = ObjectSet::new(vec![builder.build()]);
    let mut parser = Parser::new(obj_file);
    (parser.parse(), Ok(expected))
}

#[test]
fn parser_test_parse_object_set1() {
    let (result, expected) = object_set_case();
    assert_eq!(result, expected);
}

#[test]
fn parser_test_parse_object_set1_tokenwise() {
    let (result_set, expected_set) = object_set_case();
    let result_set = result_set.unwrap();
    let expected_set = expected_set.unwrap();
    for (result, expected) in result_set.iter().iter().zip(expected_set.iter().iter()) {
        assert_eq!(result.name, expected.name);
        assert_eq!(result.vertex_set, expected.vertex_set);
        assert_eq!(result.texture_vertex_set, expected.texture_vertex_set);
        assert_eq!(result.normal_vertex_set, expected.normal_vertex_set);
        assert_eq!(result.group_set, expected.group_set);
        assert_eq!(result.smoothing_group_set, expected.smoothing_group_set);
        assert_eq!(result.element_set, expected.element_set);
        assert_eq!(result.shape_set, expected.shape_set);
    }
}

// Tests of the library's own.

#[test]
fn parser_error_messages_and_lines() {
    let err = parse_str("v 1 2 3\nf 1 2\n").unwrap_err();
    assert_eq!(err.kind(), "A face element must have at least three vertices.");
    assert_eq!(err.line_number(), 3);
    let err = parse_str("curv 1\n").unwrap_err();
    assert_eq!(err.kind(), "Parse error: Invalid element declaration in obj file. Got `curv`");
    let err = parse_str("s x\n").unwrap_err();
    assert_eq!(err.kind(), "Expected integer or `off` for smoothing group name but got `x`");
    let err = parse_str("l 1/2 3\n").unwrap_err();
    assert_eq!(err.kind(), "Every vertex/texture/normal index must have the same form.");
    let mut parser = Parser::new("x/y");
    assert_eq!(parser.parse_vtn_index().unwrap_err().kind(), "Expected `vertex/texture/normal` index but got `x/y`");
    let mut parser = Parser::new("g");
    assert_eq!(parser.expect("v").unwrap_err().kind(), "Expected `v` statement but got: `g`.");
    let mut parser = Parser::new("");
    assert_eq!(parser.parse_u32().unwrap_err().kind(), "Expected string but got `end of file`.");
}

#[test]
fn parser_vtn_forms_and_zero_indices() {
    let mut parser = Parser::new("0 1/0 2//3 +4/5/6 1/2/3/4");
    assert_eq!(parser.parse_vtn_index(), Ok(VTNIndex::V(0)));
    assert_eq!(parser.parse_vtn_index(), Ok(VTNIndex::VT(1, 0)));
    assert_eq!(parser.parse_vtn_index(), Ok(VTNIndex::VN(2, 3)));
    assert_eq!(parser.parse_vtn_index(), Ok(VTNIndex::VTN(4, 5, 6)));
    assert!(parser.parse_vtn_index().is_err());
}

#[test]
fn parser_shape_entries_count_from_one() {
    let set = parse_str("v 0 0 0\ng a b\ns 2\nf 1 1 1\np 1\ng c\ns off\nl 1 1\n").unwrap();
    assert_eq!(set.len(), 1);
    let object = set.get(0);
    assert_eq!(object.group_set, vec![Group::new("a"), Group::new("b"), Group::new("c")]);
    assert_eq!(object.smoothing_group_set, vec![SmoothingGroup::new(2), SmoothingGroup::new(0)]);
    assert_eq!(
        object.shape_set,
        vec![
            ShapeEntry::new(1, &[1, 2], 1),
            ShapeEntry::new(2, &[1, 2], 1),
            ShapeEntry::new(3, &[3], 2),
        ]
    );
    assert!(try_parse_str("v 0 0 0\n").is_some());
}

#[test]
fn parser_every_element_belongs_to_a_group() {
    let set = parse_str("v 0 0 0\nf 1 1 1\ng a\np 1\ng b c\nl 1 1\n").unwrap();
    let object = set.get(0);
    assert_eq!(object.group_set, vec![Group::new("default"), Group::new("a"), Group::new("b"), Group::new("c")]);
    assert_eq!(
        object.shape_set,
        vec![ShapeEntry::new(1, &[1], 1), ShapeEntry::new(2, &[2], 1), ShapeEntry::new(3, &[3, 4], 1)]
    );
    assert!(object.shape_set.iter().all(|e| !e.groups.is_empty()));
    assert_eq!(object.smoothing_group_set, vec![SmoothingGroup::new(0)]);
}

#[test]
fn parser_group_statement_without_names_is_the_default_group() {
    let set = parse_str("v 0 0 0\ng a\nf 1 1 1\ng\nf 1 1 1\n").unwrap();
    let object = set.get(0);
    assert_eq!(object.group_set, vec![Group::new("a"), Group::new("default")]);
    assert_eq!(object.shape_set, vec![ShapeEntry::new(1, &[1], 1), ShapeEntry::new(2, &[2], 1)]);
}

#[test]
fn parser_objects_without_elements_may_have_no_groups() {
    let set = parse_str("o a\nv 0 0 0\no b\nv 1 1 1\nf 1 1 1\n").unwrap();
    assert_eq!(set.len(), 2);
    assert!(set.get(0).group_set.is_empty());
    assert!(set.get(0).smoothing_group_set.is_empty());
    assert!(set.get(0).shape_set.is_empty());
    assert_eq!(set.get(1).group_set, vec![Group::new("default")]);
    assert_eq!(set.get(1).shape_set, vec![ShapeEntry::new(1, &[1], 1)]);
}

#[test]
fn object_builder_fills_in_defaults() {
    let object = ObjectBuilder::new(vec![text_vertex("1", "2", "3")], vec![Element::Point(VTNIndex::V(1))]).build();
    assert_eq!(object.name, "");
    assert!(object.texture_vertex_set.is_empty());
    assert!(object.normal_vertex_set.is_empty());
    assert!(object.group_set.is_empty());
    assert_eq!(object.smoothing_group_set, vec![SmoothingGroup::new(0)]);
    assert!(object.shape_set.is_empty());

    let mut builder = ObjectBuilder::new(vec![], vec![]);
    builder
        .with_name(String::from("tex"))
        .with_texture_vertex_set(vec![TextureVertex::new(String::from("0.5"), String::from("0"), String::from("0"))]);
    let object = builder.build();
    assert_eq!(object.name, "tex");
    assert_eq!(object.texture_vertex_set.len(), 1);
    assert_eq!(texture_vertex(&object.texture_vertex_set[0]), (0.5, 0.0, 0.0));
}

#[test]
fn parser_reads_back_the_text_of_an_index() {
    let cases = [
        ("1291", VTNIndex::V(1291)),
        ("1291/1315", VTNIndex::VT(1291, 1315)),
        ("1291//1315", VTNIndex::VN(1291, 1315)),
        ("1291/1315/1314", VTNIndex::VTN(1291, 1315, 1314)),
        ("4294967295/0", VTNIndex::VT(4294967295, 0)),
    ];
    for (text, index) in cases {
        let mut parser = Parser::new(text);
        assert_eq!(parser.parse_vtn_index(), Ok(index));
    }
}

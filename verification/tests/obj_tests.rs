use wavefront_obj::obj::{
    parse, try_parse, Element, ErrorKind, Geometry, Group, NormalVertex, Object, ObjectSet, ParseError, Parser,
    ShapeEntry, SmoothingGroup, TextureVertex, VTNIndex, Vertex,
};

fn num(s: &str) -> f64 {
    s.parse::<f64>().unwrap()
}

fn vertex(v: &Vertex) -> (f64, f64, f64, f64) {
    (num(&v.x), num(&v.y), num(&v.z), num(&v.w))
}

fn texture_vertex(v: &TextureVertex) -> (f64, f64, f64) {
    (num(&v.u), num(&v.v), num(&v.w))
}

fn normal_vertex(v: &NormalVertex) -> (f64, f64, f64) {
    (num(&v.i), num(&v.j), num(&v.k))
}

fn token(t: Option<Vec<char>>) -> Option<String> {
    t.map(|t| t.into_iter().collect())
}

#[test]
fn obj_test_parse_f64() {
    let mut parser = Parser::new("-1.929448");
    assert_eq!(parser.parse_f64().map(|s| num(&s)), Ok(-1.929448));
}

#[test]
fn obj_test_parse_usize() {
    let mut parser = Parser::new("    763   ");
    assert_eq!(parser.parse_usize(), Ok(763));
}

#[test]
fn obj_test_parse_vertex1() {
    let mut parser = Parser::new("v -1.929448 13.329624 -5.221914\n");
    let vertex_v = parser.parse_vertex().unwrap();
    assert_eq!(vertex(&vertex_v), (-1.929448, 13.329624, -5.221914, 1.0));
}

#[test]
fn obj_test_parse_vertex2() {
    let mut parser = Parser::new("v -1.929448 13.329624 -5.221914 1.329624\n");
    let vertex_v = parser.parse_vertex().unwrap();
    assert_eq!(vertex(&vertex_v), (-1.929448, 13.329624, -5.221914, 1.329624));
}

#[test]
fn obj_test_parse_vertex3() {
    let mut parser = Parser::new("v -1.929448 13.329624 \n");
    assert!(parser.parse_vertex().is_err());
}

#[test]
fn obj_test_parse_vertex4() {
    let mut parser = Parser::new("v -1.929448 13.329624 -5.221914 1.329624\n v");
    assert!(parser.parse_vertex().is_ok());
}

#[test]
fn obj_test_parse_vertex5() {
    let mut parser = Parser::new(
        "v -6.207583 1.699077 8.466142
              v -14.299248 1.700244 8.468981 1.329624",
    );
    assert_eq!(vertex(&parser.parse_vertex().unwrap()), (-6.207583, 1.699077, 8.466142, 1.0));
    assert_eq!(token(parser.next()), Some(String::from("\n")));
    assert_eq!(vertex(&parser.parse_vertex().unwrap()), (-14.299248, 1.700244, 8.468981, 1.329624));
}

#[test]
fn obj_test_parse_texture_vertex1() {
    let mut parser = Parser::new("vt -1.929448");
    assert_eq!(texture_vertex(&parser.parse_texture_vertex().unwrap()), (-1.929448, 0.0, 0.0));
}

#[test]
fn obj_test_parse_texture_vertex2() {
    let mut parser = Parser::new("vt -1.929448 13.329624 -5.221914");
    assert_eq!(texture_vertex(&parser.parse_texture_vertex().unwrap()), (-1.929448, 13.329624, -5.221914));
}

#[test]
fn obj_test_parse_texture_vertex3() {
    let mut parser = Parser::new(
        "vt -1.929448 13.329624 -5.221914
             vt -27.6068  31.1438    27.2099",
    );
    assert_eq!(texture_vertex(&parser.parse_texture_vertex().unwrap()), (-1.929448, 13.329624, -5.221914));
    assert_eq!(token(parser.next()), Some(String::from("\n")));
    assert_eq!(texture_vertex(&parser.parse_texture_vertex().unwrap()), (-27.6068, 31.1438, 27.2099));
}

#[test]
fn obj_test_parse_normal_vertex1() {
    let mut parser = Parser::new("vn  -0.966742  -0.255752  9.97231e-09");
    assert_eq!(normal_vertex(&parser.parse_normal_vertex().unwrap()), (-0.966742, -0.255752, 9.97231e-09));
}

#[test]
fn obj_test_parse_normal_vertex2() {
    let mut parser = Parser::new(
        "vn -1.929448 13.329624 -5.221914
             vn -27.6068  31.1438    27.2099",
    );
    assert_eq!(normal_vertex(&parser.parse_normal_vertex().unwrap()), (-1.929448, 13.329624, -5.221914));
    assert_eq!(token(parser.next()), Some(String::from("\n")));
    assert_eq!(normal_vertex(&parser.parse_normal_vertex().unwrap()), (-27.6068, 31.1438, 27.2099));
}

#[test]
fn obj_test_parse_object_name1() {
    let mut parser = Parser::new("o object_name \n\n");
    assert_eq!(parser.parse_object_name(), Ok(String::from("object_name")));
}

#[test]
fn obj_test_parse_object_name2() {
    let mut parser = Parser::new("o object_name");
    assert!(parser.parse_object_name().is_err());
}

#[test]
fn obj_test_parse_vtn_index1() {
    let mut parser = Parser::new("1291");
    assert_eq!(parser.parse_vtn_index(), Ok(VTNIndex::V(1290)));
}

#[test]
fn obj_test_parse_vtn_index2() {
    let mut parser = Parser::new("1291/1315");
    assert_eq!(parser.parse_vtn_index(), Ok(VTNIndex::VT(1290, 1314)));
}

#[test]
fn obj_test_parse_vtn_index3() {
    let mut parser = Parser::new("1291/1315/1314");
    assert_eq!(parser.parse_vtn_index(), Ok(VTNIndex::VTN(1290, 1314, 1313)));
}

#[test]
fn obj_test_parse_vtn_index4() {
    let mut parser = Parser::new("1291//1315");
    assert_eq!(parser.parse_vtn_index(), Ok(VTNIndex::VN(1290, 1314)));
}

#[test]
fn obj_test_parse_point1() {
    let mut parser = Parser::new("p 1 2 3 4 \n");
    let mut result = vec![];
    let expected = vec![
        Element::Point(VTNIndex::V(0)),
        Element::Point(VTNIndex::V(1)),
        Element::Point(VTNIndex::V(2)),
        Element::Point(VTNIndex::V(3)),
    ];
    assert!(parser.parse_elements(&mut result).is_ok());
    assert_eq!(result, expected);
}

#[test]
fn obj_test_parse_point2() {
    let mut parser = Parser::new("p 1 1/2 3 4/5");
    let mut result = vec![];
    assert!(parser.parse_elements(&mut result).is_err());
}

#[test]
fn obj_test_parse_line1() {
    let mut parser = Parser::new("l 297 38 118 108 \n");
    let mut result = vec![];
    let expected = vec![
        Element::Line(VTNIndex::V(296), VTNIndex::V(37)),
        Element::Line(VTNIndex::V(37), VTNIndex::V(117)),
        Element::Line(VTNIndex::V(117), VTNIndex::V(107)),
    ];
    assert!(parser.parse_elements(&mut result).is_ok());
    assert_eq!(result, expected);
}

#[test]
fn obj_test_parse_line2() {
    let mut parser = Parser::new("l 297/38 118/108 \n");
    let mut result = vec![];
    let expected = vec![Element::Line(VTNIndex::VT(296, 37), VTNIndex::VT(117, 107))];
    assert!(parser.parse_elements(&mut result).is_ok());
    assert_eq!(result, expected);
}

#[test]
fn obj_test_parse_line3() {
    let mut parser = Parser::new("l 297/38 118/108 324/398 \n");
    let mut result = vec![];
    let expected = vec![
        Element::Line(VTNIndex::VT(296, 37), VTNIndex::VT(117, 107)),
        Element::Line(VTNIndex::VT(117, 107), VTNIndex::VT(323, 397)),
    ];
    assert!(parser.parse_elements(&mut result).is_ok());
    assert_eq!(result, expected);
}

#[test]
fn obj_test_parse_line4() {
    let mut parser = Parser::new("l 297/38 118 324 \n");
    let mut result = vec![];
    assert!(parser.parse_elements(&mut result).is_err());
}

#[test]
fn obj_test_parse_line5() {
    let mut parser = Parser::new("l 297 118/108 324/398 \n");
    let mut result = vec![];
    assert!(parser.parse_elements(&mut result).is_err());
}

#[test]
fn obj_test_parse_face1() {
    let mut parser = Parser::new("f 297 118 108\n");
    let mut result = vec![];
    let expected = vec![Element::Face(VTNIndex::V(296), VTNIndex::V(117), VTNIndex::V(107))];
    assert!(parser.parse_elements(&mut result).is_ok());
    assert_eq!(result, expected);
}

#[test]
fn obj_test_parse_face2() {
    let mut parser = Parser::new("f 297 118 108 324\n");
    let mut result = vec![];
    let expected = vec![
        Element::Face(VTNIndex::V(296), VTNIndex::V(117), VTNIndex::V(107)),
        Element::Face(VTNIndex::V(296), VTNIndex::V(107), VTNIndex::V(323)),
    ];
    assert!(parser.parse_elements(&mut result).is_ok());
    assert_eq!(result, expected);
}

#[test]
fn obj_test_parse_face3() {
    let mut parser = Parser::new("f 297 118 108 324 398 \n");
    let mut result = vec![];
    let expected = vec![
        Element::Face(VTNIndex::V(296), VTNIndex::V(117), VTNIndex::V(107)),
        Element::Face(VTNIndex::V(296), VTNIndex::V(107), VTNIndex::V(323)),
        Element::Face(VTNIndex::V(296), VTNIndex::V(323), VTNIndex::V(397)),
    ];
    assert!(parser.parse_elements(&mut result).is_ok());
    assert_eq!(result, expected);
}

#[test]
fn obj_test_parse_face4() {
    let mut parser = Parser::new("f 297 118 \n");
    let mut result = vec![];
    assert!(parser.parse_face(&mut result).is_err());
}

#[test]
fn obj_test_parse_face5() {
    let mut parser =
        Parser::new("f 34184//34184 34088//34088 34079//34079 34084//34084 34091//34091 34076//34076\n");
    let mut result = vec![];
    let expected = vec![
        Element::Face(VTNIndex::VN(34183, 34183), VTNIndex::VN(34087, 34087), VTNIndex::VN(34078, 34078)),
        Element::Face(VTNIndex::VN(34183, 34183), VTNIndex::VN(34078, 34078), VTNIndex::VN(34083, 34083)),
        Element::Face(VTNIndex::VN(34183, 34183), VTNIndex::VN(34083, 34083), VTNIndex::VN(34090, 34090)),
        Element::Face(VTNIndex::VN(34183, 34183), VTNIndex::VN(34090, 34090), VTNIndex::VN(34075, 34075)),
    ];
    parser.parse_elements(&mut result).unwrap();
    assert_eq!(result, expected);
}

#[test]
fn obj_parse_group_name1() {
    let mut parser = Parser::new("g group");
    let mut result = vec![];
    let expected = vec![Group::new("group")];
    let parsed = parser.parse_groups(&mut result);
    assert!(parsed.is_ok());
    assert_eq!(result, expected);
}

#[test]
fn obj_parse_group_name2() {
    let mut parser = Parser::new("g group1 group2 group3");
    let mut result = vec![];
    let parsed = parser.parse_groups(&mut result);
    let expected = vec![Group::new("group1"), Group::new("group2"), Group::new("group3")];
    assert!(parsed.is_ok());
    assert_eq!(result, expected);
}

#[test]
fn obj_test_smoothing_group_name1() {
    let mut parser = Parser::new("s off");
    let mut result = vec![];
    let parsed = parser.parse_smoothing_group(&mut result);
    assert!(parsed.is_ok());
    assert_eq!(result, vec![SmoothingGroup::new(0)]);
}

#[test]
fn obj_test_smoothing_group_name2() {
    let mut parser = Parser::new("s 0");
    let mut result = vec![];
    let parsed = parser.parse_smoothing_group(&mut result);
    assert!(parsed.is_ok());
    assert_eq!(result, vec![SmoothingGroup::new(0)]);
}

#[test]
fn obj_test_smoothing_group_name3() {
    let mut parser = Parser::new("s 3434");
    let mut result = vec![];
    let parsed = parser.parse_smoothing_group(&mut result);
    assert!(parsed.is_ok());
    assert_eq!(result, vec![SmoothingGroup::new(3434)]);
}

#[test]
fn test_mtllib_empty() {
    let mut parser = Parser::new("mtllib       ");
    let expected: Vec<String> = vec![];
    let mut result = vec![];
    let result_count = parser.parse_material_library_line(&mut result);
    assert_eq!(result, expected);
    assert_eq!(result_count, Ok(0));
}

#[test]
fn test_mtllib1() {
    let mut parser = Parser::new("mtllib library1.mtl");
    let expected: Vec<String> = vec![String::from("library1.mtl")];
    let mut result = vec![];
    let result_count = parser.parse_material_library_line(&mut result);
    assert_eq!(result, expected);
    assert_eq!(result_count, Ok(1));
}

#[test]
fn test_mtllib2() {
    let mut parser = Parser::new("mtllib library1.mtl library2.mtl library3.mtl");
    let expected: Vec<String> =
        vec![String::from("library1.mtl"), String::from("library2.mtl"), String::from("library3.mtl")];
    let mut result = vec![];
    let result_count = parser.parse_material_library_line(&mut result);
    assert_eq!(result, expected);
    assert_eq!(result_count, Ok(3));
}

fn text_vertex(x: &str, y: &str, z: &str) -> Vertex {
    Vertex::new(x.to_string(), y.to_string(), z.to_string(), "1".to_string())
}

fn text_normal(i: &str, j: &str, k: &str) -> NormalVertex {
    NormalVertex::new(i.to_string(), j.to_string(), k.to_string())
}

/// The cube of the object set tests: what the parser gives, and what it is
/// expected to give.
fn object_set_case() -> (Result<ObjectSet, ParseError>, Result<ObjectSet, ParseError>) {
    let obj_file = r"                 \
            o object1                         \
            g cube                            \
            v  0.0  0.0  0.0                  \
            v  0.0  0.0  1.0                  \
            v  0.0  1.0  0.0                  \
            v  0.0  1.0  1.0                  \
            v  1.0  0.0  0.0                  \
            v  1.0  0.0  1.0                  \
            v  1.0  1.0  0.0                  \
            v  1.0  1.0  1.0                  \
                                              \
            vn  0.0  0.0  1.0                 \
            vn  0.0  0.0 -1.0                 \
            vn  0.0  1.0  0.0                 \
            vn  0.0 -1.0  0.0                 \
            vn  1.0  0.0  0.0                 \
            vn -1.0  0.0  0.0                 \
                                              \
            f  1//2  7//2  5//2               \
            f  1//2  3//2  7//2               \
            f  1//6  4//6  3//6               \
            f  1//6  2//6  4//6               \
            f  3//3  8//3  7//3               \
            f  3//3  4//3  8//3               \
            f  5//5  7//5  8//5               \
            f  5//5  8//5  6//5               \
            f  1//4  5//4  6//4               \
            f  1//4  6//4  2//4               \
            f  2//1  6//1  8//1               \
            f  2//1  8//1  4//1               \
        ";
    let vertex_set = vec![
        text_vertex("0.0", "0.0", "0.0"),
        text_vertex("0.0", "0.0", "1.0"),
        text_vertex("0.0", "1.0", "0.0"),
        text_vertex("0.0", "1.0", "1.0"),
        text_vertex("1.0", "0.0", "0.0"),
        text_vertex("1.0", "0.0", "1.0"),
        text_vertex("1.0", "1.0", "0.0"),
        text_vertex("1.0", "1.0", "1.0"),
    ];
    let element_set = vec![
        Element::Face(VTNIndex::VN(0, 1), VTNIndex::VN(6, 1), VTNIndex::VN(4, 1)),
        Element::Face(VTNIndex::VN(0, 1), VTNIndex::VN(2, 1), VTNIndex::VN(6, 1)),
        Element::Face(VTNIndex::VN(0, 5), VTNIndex::VN(3, 5), VTNIndex::VN(2, 5)),
        Element::Face(VTNIndex::VN(0, 5), VTNIndex::VN(1, 5), VTNIndex::VN(3, 5)),
        Element::Face(VTNIndex::VN(2, 2), VTNIndex::VN(7, 2), VTNIndex::VN(6, 2)),
        Element::Face(VTNIndex::VN(2, 2), VTNIndex::VN(3, 2), VTNIndex::VN(7, 2)),
        Element::Face(VTNIndex::VN(4, 4), VTNIndex::VN(6, 4), VTNIndex::VN(7, 4)),
        Element::Face(VTNIndex::VN(4, 4), VTNIndex::VN(7, 4), VTNIndex::VN(5, 4)),
        Element::Face(VTNIndex::VN(0, 3), VTNIndex::VN(4, 3), VTNIndex::VN(5, 3)),
        Element::Face(VTNIndex::VN(0, 3), VTNIndex::VN(5, 3), VTNIndex::VN(1, 3)),
        Element::Face(VTNIndex::VN(1, 0), VTNIndex::VN(5, 0), VTNIndex::VN(7, 0)),
        Element::Face(VTNIndex::VN(1, 0), VTNIndex::VN(7, 0), VTNIndex::VN(3, 0)),
    ];
    let normal_vertex_set = vec![
        text_normal("0.0", "0.0", "1.0"),
        text_normal("0.0", "0.0", "-1.0"),
        text_normal("0.0", "1.0", "0.0"),
        text_normal("0.0", "-1.0", "0.0"),
        text_normal("1.0", "0.0", "0.0"),
        text_normal("-1.0", "0.0", "0.0"),
    ];
    let shape_set = (0..12).map(|i| ShapeEntry { element: i, groups: vec![0], smoothing_group: 0 }).collect();
    let object = Object {
        name: String::from("object1"),
        vertex_set: vertex_set,
        texture_vertex_set: vec![],
        normal_vertex_set: normal_vertex_set,
        group_set: vec![Group::new("cube")],
        smoothing_group_set: vec![SmoothingGroup::new(0)],
        element_set: element_set,
        shape_set: shape_set,
        geometry_set: vec![Geometry::new(None, vec![0, 1, 2, 3, 4, 5, 6, 7, 8, 9, 10, 11])],
    };
    let expected = ObjectSet::new(vec![], vec![object]);
    let mut parser = Parser::new(obj_file);
    (parser.parse_objset(), Ok(expected))
}

#[test]
fn obj_test_parse_object_set1() {
    let (result, expected) = object_set_case();
    assert_eq!(result, expected);
}

#[test]
fn obj_test_parse_object_set1_tokenwise() {
    let (result_set, expected_set) = object_set_case();
    let result_set = result_set.unwrap();
    let expected_set = expected_set.unwrap();
    for (result, expected) in result_set.objects.iter().zip(expected_set.objects.iter()) {
        assert_eq!(result.name, expected.name);
        assert_eq!(result.vertex_set, expected.vertex_set);
        assert_eq!(result.texture_vertex_set, expected.texture_vertex_set);
        assert_eq!(result.normal_vertex_set, expected.normal_vertex_set);
        assert_eq!(result.group_set, expected.group_set);
        assert_eq!(result.smoothing_group_set, expected.smoothing_group_set);
        assert_eq!(result.element_set, expected.element_set);
        assert_eq!(result.shape_set, expected.shape_set);
    }
}

// Tests of the library's own.

#[test]
fn malformed_indices_are_errors() {
    for token in ["1/", "1/x", "0", "1/0", "0//1", "1//", "1/2/3/4", "a", "1/2/"] {
        let mut parser = Parser::new(token);
        let err = parser.parse_vtn_index().unwrap_err();
        assert_eq!(*err.kind(), ErrorKind::ExpectedVTNIndex, "{}", token);
    }
    let err = parse("v 1 2 3\nf 0 1 2\n").unwrap_err();
    assert_eq!(*err.kind(), ErrorKind::EveryFaceElementMustHaveAtLeastThreeVertices);
    let mut parser = Parser::new("2//5");
    assert_eq!(parser.parse_vtn_index(), Ok(VTNIndex::VN(1, 4)));
}

#[test]
fn an_object_without_elements_parses() {
    let set = try_parse("v 1 2 3\n").unwrap().unwrap();
    assert_eq!(set.objects.len(), 1);
    let object = &set.objects[0];
    assert_eq!(object.vertex_set.len(), 1);
    assert!(object.element_set.is_empty());
    assert!(object.shape_set.is_empty());
    assert!(object.geometry_set.iter().all(|g| g.shapes.is_empty()));
    assert!(try_parse("v 1 2 3\nf 1 1 1\n").is_some());
    let err = parse("v 0 0 0\no B\ncstype bezier\n").unwrap_err();
    assert_eq!(*err.kind(), ErrorKind::InvalidElementDeclaration);
}

#[test]
fn indices_count_within_each_object() {
    let set = parse("o A\nv 0 0 0\nvn 0 0 1\nf 1//1 1//1 1//1\no B\nv 1 1 1\nvn 0 1 0\nf 2//2 2//2 2//2\n").unwrap();
    assert_eq!(set.objects.len(), 2);
    assert_eq!(set.objects[1].name, "B");
    let v = VTNIndex::VN(0, 0);
    assert_eq!(set.objects[1].element_set, vec![Element::Face(v, v, v)]);
    assert!(set.objects[1].get_vtn_triple(VTNIndex::V(0)).is_some());
    let err = parse("o A\nv 0 0 0\nf 1 1 1\no B\nv 1 1 1\nf 1 2 2\n").unwrap_err();
    assert_eq!(*err.kind(), ErrorKind::ExpectedVTNIndex);
    assert_eq!(err.line_number(), 7);
}

#[test]
fn a_group_statement_without_names_is_the_default_group() {
    let set = parse("v 0 0 0\ng a\ng\nf 1 1 1\n").unwrap();
    let object = &set.objects[0];
    assert_eq!(object.group_set, vec![Group::new("a"), Group::new("default")]);
    assert!(object.shape_set.iter().all(|s| !s.groups.is_empty()));
    assert_eq!(object.shape_set[0].groups, vec![1]);
}

#[test]
fn error_kinds_and_lines() {
    let err = parse("v 1 2 3\nf 1 2\n").unwrap_err();
    assert_eq!(*err.kind(), ErrorKind::EveryFaceElementMustHaveAtLeastThreeVertices);
    assert_eq!(err.line_number(), 3);
    let err = parse("v 1 2 x\n").unwrap_err();
    assert_eq!(*err.kind(), ErrorKind::ExpectedFloat);
    assert_eq!(err.message(), "Expected a floating point number but got `x` instead.");
    let err = parse("curv 1 2\n").unwrap_err();
    assert_eq!(*err.kind(), ErrorKind::InvalidElementDeclaration);
    assert_eq!(err.message(), "Unsupported or invalid element declaration `curv`.");
    assert_eq!(err.line_number(), 1);
    let err = parse("f 1/2 3 4\n").unwrap_err();
    assert_eq!(*err.kind(), ErrorKind::EveryVTNIndexMustHaveTheSameFormForAGivenElement);
    let err = parse("s\n").unwrap_err();
    assert_eq!(*err.kind(), ErrorKind::SmoothingGroupNameMustBeOffOrInteger);
    let err = parse("usemtl").unwrap_err();
    assert_eq!(*err.kind(), ErrorKind::MaterialStatementHasNoName);
    let err = parse("o").unwrap_err();
    assert_eq!(*err.kind(), ErrorKind::EndOfFile);
    let mut parser = Parser::new("q");
    assert_eq!(parser.expect_tag("v").unwrap_err().kind(), &ErrorKind::ExpectedTagStatement);
    let mut parser = Parser::new("12x");
    assert_eq!(parser.parse_usize().unwrap_err().kind(), &ErrorKind::ExpectedInteger);
    let mut parser = Parser::new("x/1 1/2/3/4 1/x");
    assert_eq!(parser.parse_vtn_index().unwrap_err().kind(), &ErrorKind::ExpectedVTNIndex);
    assert_eq!(parser.parse_vtn_index().unwrap_err().kind(), &ErrorKind::ExpectedVTNIndex);
    assert_eq!(parser.parse_vtn_index().unwrap_err().kind(), &ErrorKind::ExpectedVTNIndex);
}

#[test]
fn groups_smoothing_and_materials_partition_the_elements() {
    let file = "mtllib a.mtl b.mtl\n\
        o thing\n\
        v 0 0 0\nv 1 0 0\nv 0 1 0\nv 0 0 1\n\
        g left right\n\
        s 1\n\
        usemtl red\n\
        f 1 2 3\n\
        f 1 2 4\n\
        g top\n\
        s off\n\
        usemtl blue\n\
        f 2 3 4\n\
        o other\n\
        v 5 5 5\nv 6 6 6\n\
        p 5 6\n";
    let set = parse(file).unwrap();
    assert_eq!(set.material_libraries, vec![String::from("a.mtl"), String::from("b.mtl")]);
    assert_eq!(set.objects.len(), 2);
    let thing = &set.objects[0];
    assert_eq!(thing.name(), "thing");
    assert_eq!(thing.group_set, vec![Group::new("left"), Group::new("right"), Group::new("top")]);
    assert_eq!(thing.smoothing_group_set, vec![SmoothingGroup::new(1), SmoothingGroup::new(0)]);
    assert_eq!(
        thing.shape_set,
        vec![
            ShapeEntry::new(0, vec![0, 1], 0),
            ShapeEntry::new(1, vec![0, 1], 0),
            ShapeEntry::new(2, vec![2], 1),
        ]
    );
    assert_eq!(
        thing.geometry_set,
        vec![
            Geometry::new(Some(String::from("red")), vec![0, 1]),
            Geometry::new(Some(String::from("blue")), vec![2]),
        ]
    );
    let other = &set.objects[1];
    assert_eq!(other.name(), "other");
    assert_eq!(other.group_set, vec![Group::new("default")]);
    assert_eq!(other.smoothing_group_set, vec![SmoothingGroup::new(0)]);
    assert_eq!(other.element_set, vec![Element::Point(VTNIndex::V(0)), Element::Point(VTNIndex::V(1))]);
    assert_eq!(other.geometry_set, vec![Geometry::new(None, vec![0, 1])]);
}

#[test]
fn every_object_is_well_formed() {
    let file = "v 0 0 0\nv 1 0 0\nv 0 1 0\ng a\nf 1 2 3\ng b c\nl 1 2 3\ns 4\np 1\n";
    let set = parse(file).unwrap();
    for object in set.objects.iter() {
        assert_eq!(object.shape_set.len(), object.element_set.len());
        let mut covered = vec![];
        for (i, entry) in object.shape_set.iter().enumerate() {
            assert_eq!(entry.element, i);
            assert!(entry.groups.iter().all(|&g| g < object.group_set.len()));
            assert!(entry.smoothing_group < object.smoothing_group_set.len());
        }
        for geometry in object.geometry_set.iter() {
            covered.extend(geometry.shapes.iter().cloned());
        }
        assert_eq!(covered, (0..object.element_set.len()).collect::<Vec<usize>>());
    }
}

#[test]
fn vtn_triples_look_up_the_vertex_data() {
    let set = parse("v 1 2 3\nvt 0.5\nvn 0 0 1\nf 1/1/1 1/1/1 1/1/1\n").unwrap();
    let object = &set.objects[0];
    assert!(object.get_vtn_triple(VTNIndex::VTN(0, 0, 0)).is_some());
    assert!(object.get_vtn_triple(VTNIndex::V(0)).is_some());
    assert!(object.get_vtn_triple(VTNIndex::VN(0, 1)).is_none());
    assert!(object.get_vtn_triple(VTNIndex::V(3)).is_none());
}

use wavefront_obj::obj::{parse, DisplayObjectSetCompositor};

#[test]
fn display_compositor_summarizes_parsed_objects() {
    let set = parse("o  cube\nv 0.0 1.5 -2\nv 3 4 5 0.5\nf 1 2 1\ns 4\nf 2//1 1//2 2//2\n").unwrap();
    let expected = [
        "ObjectSet {\n",
        "Object {\n",
        "    name: cube\n",
        "    vertex set:\n        data: [(v  0.0  1.5  -2  1) ... (v  3  4  5  0.5)]\n        length: 2\n",
        "    texture vertex set:\n        data: []\n        length: 0\n",
        "    normal vertex set:\n        data: []\n        length: 0\n",
        "    group set:\n        data: [(default) ... (default)]\n        length: 1\n",
        "    smoothing group set:\n        data: [(off) ... (4)]\n        length: 2\n",
        "    element set:\n        data: [(f  1  2  1) ... (f  2//1  1//2  2//2)]\n        length: 2\n",
        "}\n",
        "\n",
        "}\n",
    ]
    .concat();
    assert_eq!(DisplayObjectSetCompositor::new().compose(&set), expected);
}

#[test]
fn display_compositor_of_no_objects() {
    let set = parse("").unwrap();
    assert_eq!(DisplayObjectSetCompositor::new().compose(&set), "ObjectSet {\n}\n");
}

#[test]
fn obj_parse_error_reads_with_its_line() {
    let err = parse("v 1 2 3\nf 1 2\n").unwrap_err();
    assert_eq!(err.describe(), format!("Parse error at line {}: {}", err.line_number(), err.message()));
    assert_eq!(err.describe(), "Parse error at line 3: A face primitive must have at least three vertices.At minimum, a triangle requires three indices.");
}

#[test]
fn mtl_parse_error_reads_with_its_line() {
    let err = wavefront_obj::mtl::parse("newmtl a\nKa 1 x 1\n").unwrap_err();
    assert_eq!(err.describe(), format!("Parse error at line {}: {}", err.line_number(), err.message()));
}

#[test]
fn parser_parse_error_reads_with_its_line() {
    let err = wavefront_obj::parser::parse_str("v 1 2\nf 1 2 x\n").unwrap_err();
    assert_eq!(err.describe(), format!("Parse error at line {}: {}", err.line_number(), err.kind()));
}

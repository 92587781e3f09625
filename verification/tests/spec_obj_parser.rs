use quickcheck::{Arbitrary, Gen};
use rand::rngs::ThreadRng;
use rand::Rng;
use wavefront_obj::object::{
    Element, Group, NormalVertex, Object, ObjectSet, ShapeEntry, SmoothingGroup, TextObjectSetCompositor,
    TextureVertex, VTNIndex, Vertex,
};
use wavefront_obj::parser::{ParseError, Parser};

/// The model of the parser for model based testing: the object set that the
/// text was written from.
#[derive(Clone, Debug)]
struct ParserModel {
    data: ObjectSet,
    unit_w: Vec<Vec<bool>>,
}

impl ParserModel {
    fn parse(&self) -> Result<ObjectSet, ParseError> {
        Ok(self.data.clone())
    }

    fn text(&self) -> String {
        TextObjectSetCompositor::new().compose(&self.data, &self.unit_w)
    }
}

fn number_text(x: f64) -> String {
    format!("{}", x)
}

fn gen_vertex(g: &mut ThreadRng, use_w: bool) -> Vertex {
    let x = number_text(g.gen::<f64>());
    let y = number_text(g.gen::<f64>());
    let z = number_text(g.gen::<f64>());
    let w = if use_w { number_text(g.gen_range(-1.0..1.0)) } else { String::from("1") };
    Vertex::new(x, y, z, w)
}

fn gen_texture_vertex(g: &mut ThreadRng) -> TextureVertex {
    TextureVertex::new(number_text(g.gen::<f64>()), number_text(g.gen::<f64>()), number_text(g.gen::<f64>()))
}

fn gen_normal_vertex(g: &mut ThreadRng) -> NormalVertex {
    NormalVertex::new(number_text(g.gen::<f64>()), number_text(g.gen::<f64>()), number_text(g.gen::<f64>()))
}

/// `count` consecutive slices that cover `range.0..range.1`. Each slice
/// holds at least one element: a group with no elements has no statement
/// in the composed text.
fn gen_slices(g: &mut ThreadRng, range: (usize, usize), count: usize) -> Vec<(usize, usize)> {
    assert!(range.0 > 0);
    assert!(range.0 + count <= range.1);
    let mut cuts = vec![];
    while cuts.len() < count - 1 {
        let cut = g.gen_range((range.0 + 1)..range.1);
        if !cuts.contains(&cut) {
            cuts.push(cut);
        }
    }
    cuts.sort();
    let mut indices = vec![range.0];
    indices.extend(cuts);
    indices.push(range.1);
    let mut slices = vec![];
    for i in 0..count {
        slices.push((indices[i], indices[i + 1]));
    }
    assert_eq!(slices.len(), count);
    assert!(slices.iter().all(|slice| slice.0 > 0 && slice.0 < slice.1));
    slices
}

fn gen_vtn_index(g: &mut ThreadRng, v_count: usize, vt_count: usize, vn_count: usize) -> VTNIndex {
    let v = g.gen_range(1..(v_count + 1)) as u32;
    let vt = g.gen_range(1..(vt_count + 1)) as u32;
    let vn = g.gen_range(1..(vn_count + 1)) as u32;
    VTNIndex::VTN(v, vt, vn)
}

fn gen_object(g: &mut ThreadRng, index: usize) -> (Object, Vec<bool>) {
    let name = format!("Object{}", index);
    let len = g.gen_range(1..10);
    let mut vertex_set = vec![];
    let mut unit_w = vec![];
    for _ in 0..len {
        let use_w = g.gen::<bool>();
        vertex_set.push(gen_vertex(g, use_w));
        unit_w.push(!use_w);
    }
    let texture_vertex_set: Vec<TextureVertex> = (0..len).map(|_| gen_texture_vertex(g)).collect();
    let normal_vertex_set: Vec<NormalVertex> = (0..len).map(|_| gen_normal_vertex(g)).collect();

    let element_count = g.gen_range(len..(2 * len)).max(1);
    let element_set: Vec<Element> = (0..element_count)
        .map(|_| {
            Element::Face(
                gen_vtn_index(g, len, len, len),
                gen_vtn_index(g, len, len, len),
                gen_vtn_index(g, len, len, len),
            )
        })
        .collect();

    let use_default = g.gen::<bool>();
    let group_count = if use_default { 1 } else { g.gen_range(2..10).min(element_count) };
    let group_set: Vec<Group> = if group_count == 1 && use_default {
        vec![Group::new("default")]
    } else {
        (0..group_count).map(|i| Group::new(&format!("Group{}", i))).collect()
    };
    let group_slices = gen_slices(g, (1, element_count + 1), group_count);

    let smoothing_group_count = g.gen_range(1..10).min(element_count);
    let smoothing_group_set: Vec<SmoothingGroup> =
        (0..smoothing_group_count).map(|i| SmoothingGroup::new(i as u32)).collect();
    let smoothing_group_slices = gen_slices(g, (1, element_count + 1), smoothing_group_count);

    let mut shape_set = vec![];
    for (i, slice) in group_slices.iter().enumerate() {
        for j in slice.0..slice.1 {
            shape_set.push(ShapeEntry::new(j as u32, &[i as u32 + 1], 1));
        }
    }
    assert_eq!(shape_set.len(), element_set.len());
    for (i, slice) in smoothing_group_slices.iter().enumerate() {
        for j in slice.0..slice.1 {
            shape_set[j - 1].smoothing_group = i as u32 + 1;
        }
    }

    let object = Object::new(
        name,
        vertex_set,
        texture_vertex_set,
        normal_vertex_set,
        group_set,
        smoothing_group_set,
        element_set,
        shape_set,
    );
    (object, unit_w)
}

fn gen_object_set(g: &mut ThreadRng) -> ParserModel {
    let one_obj = g.gen::<bool>();
    let object_count = if one_obj { 1 } else { g.gen_range(2..6) };
    let mut objects = vec![];
    let mut unit_w = vec![];
    for index in 1..(object_count + 1) {
        let (object, w) = gen_object(g, index);
        objects.push(object);
        unit_w.push(w);
    }
    assert_eq!(objects.len(), object_count);
    ParserModel { data: ObjectSet::new(objects), unit_w }
}

/// The testing oracle: a generated object set, and the text the text
/// compositor writes for it. The parser satisfies the model where it reads
/// the object set back from the text.
#[derive(Clone, Debug)]
struct Oracle {
    model: ParserModel,
    text: String,
}

impl Oracle {
    fn actual(&self) -> Parser {
        Parser::new(&self.text)
    }

    fn model(&self) -> &ParserModel {
        &self.model
    }
}

impl Arbitrary for Oracle {
    fn arbitrary(_g: &mut Gen) -> Oracle {
        let mut rng = rand::thread_rng();
        let model = gen_object_set(&mut rng);
        let text = model.text();
        Oracle { model, text }
    }
}

#[test]
fn prop_parse_object_set_should_parse_object_names() {
    fn property(oracle: Oracle) -> bool {
        let result_set = oracle.actual().parse().unwrap();
        let expected_set = oracle.model().parse().unwrap();
        result_set.iter().iter().zip(expected_set.iter().iter()).all(|(result, expected)| {
            assert_eq!(result.name, expected.name, "\nOBJECT FILE GENERATED: \n\n{}\n", oracle.text);
            result.name == expected.name
        })
    }
    quickcheck::quickcheck(property as fn(Oracle) -> bool);
}

#[test]
fn prop_parse_object_set_should_parse_vertices() {
    fn property(oracle: Oracle) -> bool {
        let result_set = oracle.actual().parse().unwrap();
        let expected_set = oracle.model().parse().unwrap();
        result_set.iter().iter().zip(expected_set.iter().iter()).all(|(result, expected)| {
            assert_eq!(result.vertex_set, expected.vertex_set, "\nOBJECT FILE GENERATED: \n\n{}\n", oracle.text);
            result.vertex_set == expected.vertex_set
        })
    }
    quickcheck::quickcheck(property as fn(Oracle) -> bool);
}

#[test]
fn prop_parse_object_set_should_parse_texture_vertices() {
    fn property(oracle: Oracle) -> bool {
        let result_set = oracle.actual().parse().unwrap();
        let expected_set = oracle.model().parse().unwrap();
        result_set.iter().iter().zip(expected_set.iter().iter()).all(|(result, expected)| {
            assert_eq!(
                result.texture_vertex_set, expected.texture_vertex_set,
                "\nOBJECT FILE GENERATED: \n\n{}\n", oracle.text
            );
            result.texture_vertex_set == expected.texture_vertex_set
        })
    }
    quickcheck::quickcheck(property as fn(Oracle) -> bool);
}

#[test]
fn prop_parse_object_set_should_parse_normal_vertices() {
    fn property(oracle: Oracle) -> bool {
        let result_set = oracle.actual().parse().unwrap();
        let expected_set = oracle.model().parse().unwrap();
        result_set.iter().iter().zip(expected_set.iter().iter()).all(|(result, expected)| {
            assert_eq!(
                result.normal_vertex_set, expected.normal_vertex_set,
                "\nOBJECT FILE GENERATED: \n\n{}\n", oracle.text
            );
            result.normal_vertex_set == expected.normal_vertex_set
        })
    }
    quickcheck::quickcheck(property as fn(Oracle) -> bool);
}

#[test]
fn prop_parse_object_set_should_parse_groups() {
    fn property(oracle: Oracle) -> bool {
        let result_set = oracle.actual().parse().unwrap();
        let expected_set = oracle.model().parse().unwrap();
        result_set.iter().iter().zip(expected_set.iter().iter()).all(|(result, expected)| {
            assert_eq!(result.group_set, expected.group_set, "\nOBJECT FILE GENERATED: \n\n{}\n", oracle.text);
            result.group_set == expected.group_set
        })
    }
    quickcheck::quickcheck(property as fn(Oracle) -> bool);
}

#[test]
fn prop_parse_object_set_should_parse_smoothing_groups() {
    fn property(oracle: Oracle) -> bool {
        let result_set = oracle.actual().parse().unwrap();
        let expected_set = oracle.model().parse().unwrap();
        result_set.iter().iter().zip(expected_set.iter().iter()).all(|(result, expected)| {
            assert_eq!(
                result.smoothing_group_set, expected.smoothing_group_set,
                "\nOBJECT FILE GENERATED: \n\n{}\n", oracle.text
            );
            result.smoothing_group_set == expected.smoothing_group_set
        })
    }
    quickcheck::quickcheck(property as fn(Oracle) -> bool);
}

#[test]
fn prop_parse_object_set_should_parse_elements() {
    fn property(oracle: Oracle) -> bool {
        let result_set = oracle.actual().parse().unwrap();
        let expected_set = oracle.model().parse().unwrap();
        result_set.iter().iter().zip(expected_set.iter().iter()).all(|(result, expected)| {
            assert_eq!(result.element_set, expected.element_set, "\nOBJECT FILE GENERATED: \n\n{}\n", oracle.text);
            result.element_set == expected.element_set
        })
    }
    quickcheck::quickcheck(property as fn(Oracle) -> bool);
}

#[test]
fn prop_parse_object_set_should_parse_shape_entries() {
    fn property(oracle: Oracle) -> bool {
        let result_set = oracle.actual().parse().unwrap();
        let expected_set = oracle.model().parse().unwrap();
        result_set.iter().iter().zip(expected_set.iter().iter()).all(|(result, expected)| {
            assert_eq!(result.shape_set, expected.shape_set, "\nOBJECT FILE GENERATED: \n\n{}\n", oracle.text);
            result.shape_set == expected.shape_set
        })
    }
    quickcheck::quickcheck(property as fn(Oracle) -> bool);
}

#[test]
fn prop_parser_correctly_parses_valid_obj_files() {
    fn property(oracle: Oracle) -> bool {
        let result = oracle.actual().parse();
        let expected = oracle.model().parse();
        assert_eq!(result, expected, "\nOBJECT FILE GENERATED: \n\n{}\n", oracle.text);
        result == expected
    }
    quickcheck::quickcheck(property as fn(Oracle) -> bool);
}

#[test]
fn prop_every_shape_set_should_be_monotone_increasing() {
    fn is_monotone(set: &[ShapeEntry]) -> bool {
        set[0..set.len() - 1]
            .iter()
            .zip(set[1..set.len()].iter())
            .all(|(shape_entry, next_shape_entry)| shape_entry.element <= next_shape_entry.element)
    }

    fn property(oracle: Oracle) -> bool {
        let result_set = oracle.actual().parse().unwrap();
        result_set.iter().iter().all(|result| is_monotone(&result.shape_set))
    }
    quickcheck::quickcheck(property as fn(Oracle) -> bool);
}

#[test]
fn prop_every_element_belongs_to_a_group() {
    fn property(oracle: Oracle) -> bool {
        let result_set = oracle.actual().parse().unwrap();
        result_set
            .iter()
            .iter()
            .all(|result| result.shape_set.iter().all(|shape_entry| !shape_entry.groups.is_empty()))
    }
    quickcheck::quickcheck(property as fn(Oracle) -> bool);
}

#[test]
fn prop_every_smoothing_group_exists() {
    fn property(oracle: Oracle) -> bool {
        let result_set = oracle.actual().parse().unwrap();
        result_set.iter().iter().all(|result| {
            result.shape_set.iter().all(|shape_entry| {
                result.smoothing_group_set.get((shape_entry.smoothing_group - 1) as usize).is_some()
            })
        })
    }
    quickcheck::quickcheck(property as fn(Oracle) -> bool);
}

#[test]
fn prop_every_smoothing_group_has_at_least_one_element() {
    fn property(oracle: Oracle) -> bool {
        let result_set = oracle.actual().parse().unwrap();
        result_set.iter().iter().all(|result| !result.smoothing_group_set.is_empty())
    }
    quickcheck::quickcheck(property as fn(Oracle) -> bool);
}

#[test]
fn prop_every_group_has_at_least_one_element() {
    fn property(oracle: Oracle) -> bool {
        let result_set = oracle.actual().parse().unwrap();
        result_set.iter().iter().all(|result| !result.group_set.is_empty())
    }
    quickcheck::quickcheck(property as fn(Oracle) -> bool);
}

#[test]
fn prop_every_shape_entry_element_exists() {
    fn property(oracle: Oracle) -> bool {
        let result_set = oracle.actual().parse().unwrap();
        result_set.iter().iter().all(|result| {
            result
                .shape_set
                .iter()
                .all(|shape_entry| result.element_set.get((shape_entry.element - 1) as usize).is_some())
        })
    }
    quickcheck::quickcheck(property as fn(Oracle) -> bool);
}

#[test]
fn prop_every_shape_entry_element_index_is_nonzero() {
    fn property(oracle: Oracle) -> bool {
        let result_set = oracle.actual().parse().unwrap();
        result_set
            .iter()
            .iter()
            .all(|result| result.shape_set.iter().all(|shape_entry| shape_entry.smoothing_group > 0))
    }
    quickcheck::quickcheck(property as fn(Oracle) -> bool);
}

#[test]
fn prop_every_shape_entry_group_index_is_nonzero() {
    fn property(oracle: Oracle) -> bool {
        let result_set = oracle.actual().parse().unwrap();
        result_set.iter().iter().all(|result| {
            result
                .shape_set
                .iter()
                .all(|shape_entry| shape_entry.groups.iter().all(|&group_index| group_index > 0))
        })
    }
    quickcheck::quickcheck(property as fn(Oracle) -> bool);
}

#[test]
fn prop_every_shape_entry_smoothing_group_index_is_nonzero() {
    fn property(oracle: Oracle) -> bool {
        let result_set = oracle.actual().parse().unwrap();
        result_set
            .iter()
            .iter()
            .all(|result| result.shape_set.iter().all(|shape_entry| shape_entry.smoothing_group > 0))
    }
    quickcheck::quickcheck(property as fn(Oracle) -> bool);
}

#[derive(Clone, Debug)]
struct VTNIndexParserModel(VTNIndex, String);

impl Arbitrary for VTNIndexParserModel {
    fn arbitrary(g: &mut Gen) -> Self {
        let mut rng = rand::thread_rng();
        let vtn_index = match rng.gen_range(0..4) {
            0 => VTNIndex::V(u32::arbitrary(g)),
            1 => VTNIndex::VT(u32::arbitrary(g), u32::arbitrary(g)),
            2 => VTNIndex::VN(u32::arbitrary(g), u32::arbitrary(g)),
            _ => VTNIndex::VTN(u32::arbitrary(g), u32::arbitrary(g), u32::arbitrary(g)),
        };
        let string = match vtn_index {
            VTNIndex::V(v) => format!("{}", v),
            VTNIndex::VT(v, tv) => format!("{}/{}", v, tv),
            VTNIndex::VN(v, nv) => format!("{}//{}", v, nv),
            VTNIndex::VTN(v, tv, nv) => format!("{}/{}/{}", v, tv, nv),
        };
        VTNIndexParserModel(vtn_index, string)
    }
}

#[test]
fn parser_prop_parser_vertex_encode_decode_inverses() {
    fn property(vtn_model: VTNIndexParserModel) -> bool {
        let result = Parser::new(&vtn_model.1).parse_vtn_index();
        result == Ok(vtn_model.0)
    }
    quickcheck::quickcheck(property as fn(VTNIndexParserModel) -> bool);
}

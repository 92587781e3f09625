//! The object model of the parser in [`crate::parser`]: indices count from
//! one, as they do in the file, and are `u32`.
//!
//! Vertex coordinates are kept as the text of the literal in the file.
use vstd::prelude::*;
use crate::obj::{NormalVertexModel, TextureVertexModel, VertexModel};
use crate::text::{chars_to_string, text_of};

verus! {

/// A geometric vertex: `v x y z [w]`.
#[derive(Clone, Debug, PartialEq)]
pub struct Vertex {
    pub x: String,
    pub y: String,
    pub z: String,
    pub w: String,
}

impl View for Vertex {
    type V = VertexModel;

    open spec fn view(&self) -> VertexModel {
        VertexModel { x: self.x@, y: self.y@, z: self.z@, w: self.w@ }
    }
}

impl Vertex {
    pub fn new(x: String, y: String, z: String, w: String) -> (v: Vertex)
        ensures
            v.x == x,
            v.y == y,
            v.z == z,
            v.w == w,
    {
        Vertex { x: x, y: y, z: z, w: w }
    }
}

/// A texture vertex: `vt u [v] [w]`.
#[derive(Clone, Debug, PartialEq)]
pub struct TextureVertex {
    pub u: String,
    pub v: String,
    pub w: String,
}

impl View for TextureVertex {
    type V = TextureVertexModel;

    open spec fn view(&self) -> TextureVertexModel {
        TextureVertexModel { u: self.u@, v: self.v@, w: self.w@ }
    }
}

impl TextureVertex {
    pub fn new(u: String, v: String, w: String) -> (t: TextureVertex)
        ensures
            t.u == u,
            t.v == v,
            t.w == w,
    {
        TextureVertex { u: u, v: v, w: w }
    }
}

/// A normal vector: `vn i j k`.
#[derive(Clone, Debug, PartialEq)]
pub struct NormalVertex {
    pub i: String,
    pub j: String,
    pub k: String,
}

impl View for NormalVertex {
    type V = NormalVertexModel;

    open spec fn view(&self) -> NormalVertexModel {
        NormalVertexModel { i: self.i@, j: self.j@, k: self.k@ }
    }
}

impl NormalVertex {
    pub fn new(i: String, j: String, k: String) -> (n: NormalVertex)
        ensures
            n.i == i,
            n.j == j,
            n.k == k,
    {
        NormalVertex { i: i, j: j, k: k }
    }
}

/// The vertex, texture vertex and normal numbers of one corner of an
/// element, as the file writes them.
#[derive(Clone, Copy, Debug, PartialEq, Eq, Structural)]
pub enum VTNIndex {
    V(u32),
    VT(u32, u32),
    VN(u32, u32),
    VTN(u32, u32, u32),
}

impl View for VTNIndex {
    type V = VTNIndex;

    open spec fn view(&self) -> VTNIndex {
        *self
    }
}

pub open spec fn same_form(a: VTNIndex, b: VTNIndex) -> bool {
    ||| (a is V && b is V)
    ||| (a is VT && b is VT)
    ||| (a is VN && b is VN)
    ||| (a is VTN && b is VTN)
}

impl VTNIndex {
    /// Whether two indices name the same kinds of data.
    pub fn has_same_type_as(&self, other: &VTNIndex) -> (b: bool)
        ensures
            b == same_form(*self, *other),
    {
        match (self, other) {
            (VTNIndex::V(_), VTNIndex::V(_)) => true,
            (VTNIndex::VT(_, _), VTNIndex::VT(_, _)) => true,
            (VTNIndex::VN(_, _), VTNIndex::VN(_, _)) => true,
            (VTNIndex::VTN(_, _, _), VTNIndex::VTN(_, _, _)) => true,
            _ => false,
        }
    }
}

/// A point, a line segment or a triangle.
#[derive(Clone, Copy, Debug, PartialEq, Eq, Structural)]
pub enum Element {
    Point(VTNIndex),
    Line(VTNIndex, VTNIndex),
    Face(VTNIndex, VTNIndex, VTNIndex),
}

/// A named group of elements.
#[derive(Clone, Debug, PartialEq, Eq)]
pub struct Group(String);

impl View for Group {
    type V = Seq<char>;

    closed spec fn view(&self) -> Seq<char> {
        self.0@
    }
}

impl Group {
    pub fn new(name: &str) -> (g: Group)
        ensures
            g@ == name@,
    {
        Group(text_of(name))
    }

    /// A group named by a token.
    pub fn from_chars(name: &[char]) -> (g: Group)
        ensures
            g@ == name@,
    {
        Group(chars_to_string(name))
    }

    /// The group's name.
    pub fn name(&self) -> (s: &String)
        ensures
            s@ == self@,
    {
        &self.0
    }
}

impl Default for Group {
    fn default() -> (g: Group)
        ensures
            g@ == crate::obj::default_group_name(),
    {
        Group::new("default")
    }
}

/// A smoothing group, by number; `0` means smoothing is off.
#[derive(Clone, Copy, Debug, PartialEq, Eq, Structural)]
pub struct SmoothingGroup(u32);

impl View for SmoothingGroup {
    type V = u32;

    closed spec fn view(&self) -> u32 {
        self.0
    }
}

impl SmoothingGroup {
    pub fn new(name: u32) -> (g: SmoothingGroup)
        ensures
            g@ == name,
    {
        SmoothingGroup(name)
    }

    pub fn as_int(&self) -> (n: u32)
        ensures
            n == self@,
    {
        self.0
    }
}

impl Default for SmoothingGroup {
    fn default() -> (g: SmoothingGroup)
        ensures
            g@ == 0,
    {
        SmoothingGroup::new(0)
    }
}

/// An element, by number, with the numbers of its groups and of its
/// smoothing group.
#[derive(Clone, Debug, PartialEq)]
pub struct ShapeEntry {
    pub element: u32,
    pub groups: Vec<u32>,
    pub smoothing_group: u32,
}

pub struct ShapeEntryModel {
    pub element: u32,
    pub groups: Seq<u32>,
    pub smoothing_group: u32,
}

impl View for ShapeEntry {
    type V = ShapeEntryModel;

    open spec fn view(&self) -> ShapeEntryModel {
        ShapeEntryModel { element: self.element, groups: self.groups@, smoothing_group: self.smoothing_group }
    }
}

impl ShapeEntry {
    pub fn new(element: u32, groups: &[u32], smoothing_group: u32) -> (e: ShapeEntry)
        ensures
            e.element == element,
            e.groups@ == groups@,
            e.smoothing_group == smoothing_group,
    {
        ShapeEntry { element: element, groups: vstd::slice::slice_to_vec(groups), smoothing_group: smoothing_group }
    }
}

/// An element with its groups and smoothing groups spelled out.
#[derive(Clone, Debug, PartialEq)]
pub struct Shape {
    pub element: Element,
    pub groups: Vec<Group>,
    pub smoothing_groups: Vec<SmoothingGroup>,
}

/// The data an index refers to.
#[derive(Clone, Debug)]
pub enum VTNTriple<'a> {
    V(&'a Vertex),
    VT(&'a Vertex, &'a TextureVertex),
    VN(&'a Vertex, &'a NormalVertex),
    VTN(&'a Vertex, &'a TextureVertex, &'a NormalVertex),
}

pub open spec fn vertex_views(vs: Seq<Vertex>) -> Seq<VertexModel> {
    vs.map_values(|v: Vertex| v@)
}

pub open spec fn texture_vertex_views(vs: Seq<TextureVertex>) -> Seq<TextureVertexModel> {
    vs.map_values(|v: TextureVertex| v@)
}

pub open spec fn normal_vertex_views(vs: Seq<NormalVertex>) -> Seq<NormalVertexModel> {
    vs.map_values(|v: NormalVertex| v@)
}

pub open spec fn group_views(gs: Seq<Group>) -> Seq<Seq<char>> {
    gs.map_values(|g: Group| g@)
}

pub open spec fn smoothing_views(gs: Seq<SmoothingGroup>) -> Seq<u32> {
    gs.map_values(|g: SmoothingGroup| g@)
}

pub open spec fn shape_views(rows: Seq<ShapeEntry>) -> Seq<ShapeEntryModel> {
    rows.map_values(|e: ShapeEntry| e@)
}

/// An object: its name, vertex data, groups, elements and shape entries.
#[derive(Clone, Debug, PartialEq)]
pub struct Object {
    pub name: String,
    pub vertex_set: Vec<Vertex>,
    pub texture_vertex_set: Vec<TextureVertex>,
    pub normal_vertex_set: Vec<NormalVertex>,
    pub group_set: Vec<Group>,
    pub smoothing_group_set: Vec<SmoothingGroup>,
    pub element_set: Vec<Element>,
    pub shape_set: Vec<ShapeEntry>,
}

pub struct ObjectModel {
    pub name: Seq<char>,
    pub vertex_set: Seq<VertexModel>,
    pub texture_vertex_set: Seq<TextureVertexModel>,
    pub normal_vertex_set: Seq<NormalVertexModel>,
    pub group_set: Seq<Seq<char>>,
    pub smoothing_group_set: Seq<u32>,
    pub element_set: Seq<Element>,
    pub shape_set: Seq<ShapeEntryModel>,
}

impl View for Object {
    type V = ObjectModel;

    open spec fn view(&self) -> ObjectModel {
        ObjectModel {
            name: self.name@,
            vertex_set: vertex_views(self.vertex_set@),
            texture_vertex_set: texture_vertex_views(self.texture_vertex_set@),
            normal_vertex_set: normal_vertex_views(self.normal_vertex_set@),
            group_set: group_views(self.group_set@),
            smoothing_group_set: smoothing_views(self.smoothing_group_set@),
            element_set: self.element_set@,
            shape_set: shape_views(self.shape_set@),
        }
    }
}

/// The data `index` refers to in an object's vertex sets, if they hold it.
/// The numbers of an index are positions in the sets.
pub open spec fn vtn_lookup(o: ObjectModel, index: VTNIndex) -> Option<
    (VertexModel, Option<TextureVertexModel>, Option<NormalVertexModel>),
> {
    match index {
        VTNIndex::V(v) => if v < o.vertex_set.len() {
            Some((o.vertex_set[v as int], None, None))
        } else {
            None
        },
        VTNIndex::VT(v, t) => if v < o.vertex_set.len() && t < o.texture_vertex_set.len() {
            Some((o.vertex_set[v as int], Some(o.texture_vertex_set[t as int]), None))
        } else {
            None
        },
        VTNIndex::VN(v, n) => if v < o.vertex_set.len() && n < o.normal_vertex_set.len() {
            Some((o.vertex_set[v as int], None, Some(o.normal_vertex_set[n as int])))
        } else {
            None
        },
        VTNIndex::VTN(v, t, n) => if v < o.vertex_set.len() && t < o.texture_vertex_set.len() && n
            < o.normal_vertex_set.len() {
            Some((o.vertex_set[v as int], Some(o.texture_vertex_set[t as int]), Some(o.normal_vertex_set[n as int])))
        } else {
            None
        },
    }
}

/// What a triple refers to, by value.
pub open spec fn triple_view(t: VTNTriple) -> (VertexModel, Option<TextureVertexModel>, Option<NormalVertexModel>) {
    match t {
        VTNTriple::V(v) => (v@, None, None),
        VTNTriple::VT(v, tx) => (v@, Some(tx@), None),
        VTNTriple::VN(v, n) => (v@, None, Some(n@)),
        VTNTriple::VTN(v, tx, n) => (v@, Some(tx@), Some(n@)),
    }
}

impl Object {
    pub fn new(
        name: String,
        vertex_set: Vec<Vertex>,
        texture_vertex_set: Vec<TextureVertex>,
        normal_vertex_set: Vec<NormalVertex>,
        group_set: Vec<Group>,
        smoothing_group_set: Vec<SmoothingGroup>,
        element_set: Vec<Element>,
        shape_set: Vec<ShapeEntry>,
    ) -> (o: Object)
        ensures
            o.name == name,
            o.vertex_set == vertex_set,
            o.texture_vertex_set == texture_vertex_set,
            o.normal_vertex_set == normal_vertex_set,
            o.group_set == group_set,
            o.smoothing_group_set == smoothing_group_set,
            o.element_set == element_set,
            o.shape_set == shape_set,
    {
        Object {
            name: name,
            vertex_set: vertex_set,
            texture_vertex_set: texture_vertex_set,
            normal_vertex_set: normal_vertex_set,
            group_set: group_set,
            smoothing_group_set: smoothing_group_set,
            element_set: element_set,
            shape_set: shape_set,
        }
    }

    pub fn name(&self) -> (s: &str)
        ensures
            s@ == self.name@,
    {
        self.name.as_str()
    }

    /// The vertex data `index` refers to, taking its numbers as positions in
    /// the sets; `None` where a number lies beyond the object's data.
    pub fn get_vtn_triple(&self, index: VTNIndex) -> (r: Option<VTNTriple>)
        ensures
            match vtn_lookup(self@, index) {
                Some(data) => r matches Some(t) && triple_view(t) == data,
                None => r is None,
            },
    {
        match index {
            VTNIndex::V(v) => {
                if (v as usize) < self.vertex_set.len() {
                    Some(VTNTriple::V(&self.vertex_set[v as usize]))
                } else {
                    None
                }
            },
            VTNIndex::VT(v, t) => {
                if (v as usize) < self.vertex_set.len() && (t as usize) < self.texture_vertex_set.len() {
                    Some(VTNTriple::VT(&self.vertex_set[v as usize], &self.texture_vertex_set[t as usize]))
                } else {
                    None
                }
            },
            VTNIndex::VN(v, n) => {
                if (v as usize) < self.vertex_set.len() && (n as usize) < self.normal_vertex_set.len() {
                    Some(VTNTriple::VN(&self.vertex_set[v as usize], &self.normal_vertex_set[n as usize]))
                } else {
                    None
                }
            },
            VTNIndex::VTN(v, t, n) => {
                if (v as usize) < self.vertex_set.len() && (t as usize) < self.texture_vertex_set.len() && (n
                    as usize) < self.normal_vertex_set.len() {
                    Some(
                        VTNTriple::VTN(
                            &self.vertex_set[v as usize],
                            &self.texture_vertex_set[t as usize],
                            &self.normal_vertex_set[n as usize],
                        ),
                    )
                } else {
                    None
                }
            },
        }
    }
}

impl Default for Object {
    fn default() -> (o: Object)
        ensures
            o@.name.len() == 0,
            o.vertex_set@.len() == 0,
            o.texture_vertex_set@.len() == 0,
            o.normal_vertex_set@.len() == 0,
            o.group_set@.len() == 0,
            o.smoothing_group_set@.len() == 0,
            o.element_set@.len() == 0,
            o.shape_set@.len() == 0,
    {
        Object::new(
            String::new(),
            Vec::new(),
            Vec::new(),
            Vec::new(),
            Vec::new(),
            Vec::new(),
            Vec::new(),
            Vec::new(),
        )
    }
}

/// The objects of a file.
#[derive(Clone, Debug, PartialEq)]
pub struct ObjectSet {
    objects: Vec<Object>,
}

pub open spec fn object_views(os: Seq<Object>) -> Seq<ObjectModel> {
    os.map_values(|o: Object| o@)
}

impl View for ObjectSet {
    type V = Seq<ObjectModel>;

    closed spec fn view(&self) -> Seq<ObjectModel> {
        object_views(self.objects@)
    }
}

impl ObjectSet {
    pub fn new(vec: Vec<Object>) -> (s: ObjectSet)
        ensures
            s@ == object_views(vec@),
    {
        ObjectSet { objects: vec }
    }

    /// The objects, in order.
    pub fn iter(&self) -> (s: &[Object])
        ensures
            object_views(s@) == self@,
    {
        self.objects.as_slice()
    }

    pub fn len(&self) -> (n: usize)
        ensures
            n == self@.len(),
    {
        self.objects.len()
    }

    /// The object at `index`.
    pub fn get(&self, index: usize) -> (o: &Object)
        requires
            index < self@.len(),
        ensures
            o@ == self@[index as int],
    {
        &self.objects[index]
    }
}

/// Builds an object from its vertices and elements, the other parts given
/// or left at their defaults.
pub struct ObjectBuilder {
    name: Option<String>,
    vertex_set: Vec<Vertex>,
    texture_vertex_set: Option<Vec<TextureVertex>>,
    normal_vertex_set: Option<Vec<NormalVertex>>,
    group_set: Option<Vec<Group>>,
    smoothing_group_set: Option<Vec<SmoothingGroup>>,
    element_set: Vec<Element>,
    shape_set: Option<Vec<ShapeEntry>>,
}

/// The parts given to a builder so far.
pub struct ObjectBuilderModel {
    pub name: Option<Seq<char>>,
    pub vertex_set: Seq<VertexModel>,
    pub texture_vertex_set: Option<Seq<TextureVertexModel>>,
    pub normal_vertex_set: Option<Seq<NormalVertexModel>>,
    pub group_set: Option<Seq<Seq<char>>>,
    pub smoothing_group_set: Option<Seq<u32>>,
    pub element_set: Seq<Element>,
    pub shape_set: Option<Seq<ShapeEntryModel>>,
}

impl View for ObjectBuilder {
    type V = ObjectBuilderModel;

    closed spec fn view(&self) -> ObjectBuilderModel {
        ObjectBuilderModel {
            name: match self.name {
                Some(s) => Some(s@),
                None => None,
            },
            vertex_set: vertex_views(self.vertex_set@),
            texture_vertex_set: match self.texture_vertex_set {
                Some(s) => Some(texture_vertex_views(s@)),
                None => None,
            },
            normal_vertex_set: match self.normal_vertex_set {
                Some(s) => Some(normal_vertex_views(s@)),
                None => None,
            },
            group_set: match self.group_set {
                Some(s) => Some(group_views(s@)),
                None => None,
            },
            smoothing_group_set: match self.smoothing_group_set {
                Some(s) => Some(smoothing_views(s@)),
                None => None,
            },
            element_set: self.element_set@,
            shape_set: match self.shape_set {
                Some(s) => Some(shape_views(s@)),
                None => None,
            },
        }
    }
}

/// The object a builder builds: what was given, and otherwise the empty
/// name, no data, and the one smoothing group 0.
pub open spec fn built(b: ObjectBuilderModel) -> ObjectModel {
    ObjectModel {
        name: match b.name {
            Some(s) => s,
            None => Seq::empty(),
        },
        vertex_set: b.vertex_set,
        texture_vertex_set: match b.texture_vertex_set {
            Some(s) => s,
            None => Seq::empty(),
        },
        normal_vertex_set: match b.normal_vertex_set {
            Some(s) => s,
            None => Seq::empty(),
        },
        group_set: match b.group_set {
            Some(s) => s,
            None => Seq::empty(),
        },
        smoothing_group_set: match b.smoothing_group_set {
            Some(s) => s,
            None => seq![0u32],
        },
        element_set: b.element_set,
        shape_set: match b.shape_set {
            Some(s) => s,
            None => Seq::empty(),
        },
    }
}

impl ObjectBuilder {
    pub fn new(vertex_set: Vec<Vertex>, element_set: Vec<Element>) -> (b: ObjectBuilder)
        ensures
            b@.name is None,
            b@.vertex_set == vertex_views(vertex_set@),
            b@.texture_vertex_set is None,
            b@.normal_vertex_set is None,
            b@.group_set is None,
            b@.smoothing_group_set is None,
            b@.element_set == element_set@,
            b@.shape_set is None,
    {
        ObjectBuilder {
            name: None,
            vertex_set: vertex_set,
            texture_vertex_set: None,
            normal_vertex_set: None,
            group_set: None,
            smoothing_group_set: None,
            element_set: element_set,
            shape_set: None,
        }
    }

    pub fn with_name(&mut self, name: String) -> (r: &mut Self)
        ensures
            r@ == (ObjectBuilderModel { name: Some(name@), ..old(self)@ }),
            *final(self) == *final(r),
    {
        self.name = Some(name);
        self
    }

    pub fn with_texture_vertex_set(&mut self, texture_vertex_set: Vec<TextureVertex>) -> (r: &mut Self)
        ensures
            r@ == (ObjectBuilderModel {
                texture_vertex_set: Some(texture_vertex_views(texture_vertex_set@)),
                ..old(self)@
            }),
            *final(self) == *final(r),
    {
        self.texture_vertex_set = Some(texture_vertex_set);
        self
    }

    pub fn with_normal_vertex_set(&mut self, normal_vertex_set: Vec<NormalVertex>) -> (r: &mut Self)
        ensures
            r@ == (ObjectBuilderModel {
                normal_vertex_set: Some(normal_vertex_views(normal_vertex_set@)),
                ..old(self)@
            }),
            *final(self) == *final(r),
    {
        self.normal_vertex_set = Some(normal_vertex_set);
        self
    }

    pub fn with_group_set(&mut self, group_set: Vec<Group>) -> (r: &mut Self)
        ensures
            r@ == (ObjectBuilderModel { group_set: Some(group_views(group_set@)), ..old(self)@ }),
            *final(self) == *final(r),
    {
        self.group_set = Some(group_set);
        self
    }

    pub fn with_smoothing_group_set(&mut self, smoothing_group_set: Vec<SmoothingGroup>) -> (r: &mut Self)
        ensures
            r@ == (ObjectBuilderModel {
                smoothing_group_set: Some(smoothing_views(smoothing_group_set@)),
                ..old(self)@
            }),
            *final(self) == *final(r),
    {
        self.smoothing_group_set = Some(smoothing_group_set);
        self
    }

    pub fn with_shape_set(&mut self, shape_set: Vec<ShapeEntry>) -> (r: &mut Self)
        ensures
            r@ == (ObjectBuilderModel { shape_set: Some(shape_views(shape_set@)), ..old(self)@ }),
            *final(self) == *final(r),
    {
        self.shape_set = Some(shape_set);
        self
    }

    pub fn build(self) -> (o: Object)
        ensures
            o@ == built(self@),
    {
        let smoothing_group_set = match self.smoothing_group_set {
            Some(s) => s,
            None => {
                let mut s: Vec<SmoothingGroup> = Vec::new();
                s.push(SmoothingGroup::default());
                proof {
                    assert(smoothing_views(s@) =~= seq![0u32]);
                }
                s
            },
        };
        let o = Object {
            name: match self.name {
                Some(s) => s,
                None => String::new(),
            },
            vertex_set: self.vertex_set,
            texture_vertex_set: match self.texture_vertex_set {
                Some(s) => s,
                None => Vec::new(),
            },
            normal_vertex_set: match self.normal_vertex_set {
                Some(s) => s,
                None => Vec::new(),
            },
            group_set: match self.group_set {
                Some(s) => s,
                None => Vec::new(),
            },
            smoothing_group_set: smoothing_group_set,
            element_set: self.element_set,
            shape_set: match self.shape_set {
                Some(s) => s,
                None => Vec::new(),
            },
        };
        proof {
            assert(texture_vertex_views(Seq::<TextureVertex>::empty()) =~= Seq::empty());
            assert(normal_vertex_views(Seq::<NormalVertex>::empty()) =~= Seq::empty());
            assert(group_views(Seq::<Group>::empty()) =~= Seq::empty());
            assert(shape_views(Seq::<ShapeEntry>::empty()) =~= Seq::empty());
            assert(o@ =~= built(self@));
        }
        o
    }
}

/// Presents an object set to the user.
pub struct DisplayObjectSetCompositor {}

impl DisplayObjectSetCompositor {
    pub fn new() -> (c: Self) {
        DisplayObjectSetCompositor {  }
    }
}

/// Presents an object set as the text of an OBJ file.
pub struct TextObjectSetCompositor {}

impl TextObjectSetCompositor {
    pub fn new() -> (c: Self) {
        TextObjectSetCompositor {  }
    }
}

} // verus!

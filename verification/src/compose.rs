//! Text renderings of the object model of [`crate::object`]: a summary for
//! the user, and OBJ text.
//!
//! Vertex coordinates are written as the text they hold.
use vstd::prelude::*;
use crate::obj::{NormalVertexModel, TextureVertexModel, VertexModel};
use crate::object::{
    group_views, normal_vertex_views, shape_views, texture_vertex_views, vertex_views, DisplayObjectSetCompositor, Element, Group, NormalVertex, Object, ObjectModel,
    ObjectSet, ShapeEntry, ShapeEntryModel, SmoothingGroup, TextObjectSetCompositor, TextureVertex, VTNIndex,
    Vertex,
};
use crate::text::{decimal_text, push_decimal};

verus! {

/// How an index is written: its numbers, separated by `/`, with `//` where
/// the texture number is missing.
pub open spec fn vtn_text(i: VTNIndex) -> Seq<char> {
    match i {
        VTNIndex::V(v) => decimal_text(v as nat),
        VTNIndex::VT(v, t) => decimal_text(v as nat) + "/"@ + decimal_text(t as nat),
        VTNIndex::VN(v, n) => decimal_text(v as nat) + "//"@ + decimal_text(n as nat),
        VTNIndex::VTN(v, t, n) => decimal_text(v as nat) + "/"@ + decimal_text(t as nat) + "/"@
            + decimal_text(n as nat),
    }
}

/// How an element is written: its tag, then its indices, two spaces apart.
pub open spec fn element_text(e: Element) -> Seq<char> {
    match e {
        Element::Point(a) => "p  "@ + vtn_text(a),
        Element::Line(a, b) => "l  "@ + vtn_text(a) + "  "@ + vtn_text(b),
        Element::Face(a, b, c) => "f  "@ + vtn_text(a) + "  "@ + vtn_text(b) + "  "@ + vtn_text(c),
    }
}

pub open spec fn vertex_text(v: VertexModel) -> Seq<char> {
    "v  "@ + v.x + "  "@ + v.y + "  "@ + v.z + "  "@ + v.w
}

pub open spec fn texture_vertex_text(v: TextureVertexModel) -> Seq<char> {
    "vt  "@ + v.u + "  "@ + v.v + "  "@ + v.w
}

pub open spec fn normal_vertex_text(v: NormalVertexModel) -> Seq<char> {
    "vn  "@ + v.i + "  "@ + v.j + "  "@ + v.k
}

fn push_vtn(s: &mut String, i: VTNIndex)
    ensures
        final(s)@ == old(s)@ + vtn_text(i),
{
    let ghost s0 = s@;
    match i {
        VTNIndex::V(v) => {
            push_decimal(s, v as usize);
        },
        VTNIndex::VT(v, t) => {
            push_decimal(s, v as usize);
            s.append("/");
            push_decimal(s, t as usize);
            assert(s@ =~= s0 + vtn_text(i));
        },
        VTNIndex::VN(v, n) => {
            push_decimal(s, v as usize);
            s.append("//");
            push_decimal(s, n as usize);
            assert(s@ =~= s0 + vtn_text(i));
        },
        VTNIndex::VTN(v, t, n) => {
            push_decimal(s, v as usize);
            s.append("/");
            push_decimal(s, t as usize);
            s.append("/");
            push_decimal(s, n as usize);
            assert(s@ =~= s0 + vtn_text(i));
        },
    }
}

fn push_element(s: &mut String, e: Element)
    ensures
        final(s)@ == old(s)@ + element_text(e),
{
    let ghost s0 = s@;
    match e {
        Element::Point(a) => {
            s.append("p  ");
            push_vtn(s, a);
        },
        Element::Line(a, b) => {
            s.append("l  ");
            push_vtn(s, a);
            s.append("  ");
            push_vtn(s, b);
        },
        Element::Face(a, b, c) => {
            s.append("f  ");
            push_vtn(s, a);
            s.append("  ");
            push_vtn(s, b);
            s.append("  ");
            push_vtn(s, c);
        },
    }
    assert(s@ =~= s0 + element_text(e));
}

fn push_vertex(s: &mut String, v: &Vertex)
    ensures
        final(s)@ == old(s)@ + vertex_text(v@),
{
    let ghost s0 = s@;
    s.append("v  ");
    s.append(v.x.as_str());
    s.append("  ");
    s.append(v.y.as_str());
    s.append("  ");
    s.append(v.z.as_str());
    s.append("  ");
    s.append(v.w.as_str());
    assert(s@ =~= s0 + vertex_text(v@));
}

fn push_texture_vertex(s: &mut String, v: &TextureVertex)
    ensures
        final(s)@ == old(s)@ + texture_vertex_text(v@),
{
    let ghost s0 = s@;
    s.append("vt  ");
    s.append(v.u.as_str());
    s.append("  ");
    s.append(v.v.as_str());
    s.append("  ");
    s.append(v.w.as_str());
    assert(s@ =~= s0 + texture_vertex_text(v@));
}

fn push_normal_vertex(s: &mut String, v: &NormalVertex)
    ensures
        final(s)@ == old(s)@ + normal_vertex_text(v@),
{
    let ghost s0 = s@;
    s.append("vn  ");
    s.append(v.i.as_str());
    s.append("  ");
    s.append(v.j.as_str());
    s.append("  ");
    s.append(v.k.as_str());
    assert(s@ =~= s0 + normal_vertex_text(v@));
}

/// The summary of one set of an object: its first and last items, if it
/// has any, and its length.
pub open spec fn summary_text(label: Seq<char>, ends: Option<(Seq<char>, Seq<char>)>, len: nat) -> Seq<char> {
    "    "@ + label + " set:\n"@ + match ends {
        None => "        data: []\n"@,
        Some((first, last)) => "        data: [("@ + first + ") ... ("@ + last + ")]\n"@,
    } + "        length: "@ + decimal_text(len) + "\n"@
}

/// The texts of the first and last items of a set, given the texts of all.
pub open spec fn ends_of(items: Seq<Seq<char>>) -> Option<(Seq<char>, Seq<char>)> {
    if items.len() == 0 {
        None
    } else {
        Some((items[0], items.last()))
    }
}

/// The texts of a pair of strings.
pub open spec fn pair_views(ends: Option<(String, String)>) -> Option<(Seq<char>, Seq<char>)> {
    match ends {
        Some((a, b)) => Some((a@, b@)),
        None => None,
    }
}

pub(crate) fn push_summary(s: &mut String, label: &str, ends: Option<(String, String)>, len: usize)
    ensures
        final(s)@ == old(s)@ + summary_text(label@, pair_views(ends), len as nat),
{
    let ghost s0 = s@;
    let ghost e = pair_views(ends);
    s.append("    ");
    s.append(label);
    s.append(" set:\n");
    match &ends {
        None => {
            s.append("        data: []\n");
        },
        Some((first, last)) => {
            s.append("        data: [(");
            s.append(first.as_str());
            s.append(") ... (");
            s.append(last.as_str());
            s.append(")]\n");
        },
    }
    s.append("        length: ");
    push_decimal(s, len);
    s.append("\n");
    assert(s@ =~= s0 + summary_text(label@, e, len as nat));
}

pub open spec fn vertex_summary(vs: Seq<VertexModel>) -> Seq<char> {
    summary_text("vertex"@, ends_of(vs.map_values(|v: VertexModel| vertex_text(v))), vs.len())
}

pub open spec fn texture_vertex_summary(vs: Seq<TextureVertexModel>) -> Seq<char> {
    summary_text(
        "texture vertex"@,
        ends_of(vs.map_values(|v: TextureVertexModel| texture_vertex_text(v))),
        vs.len(),
    )
}

pub open spec fn normal_vertex_summary(vs: Seq<NormalVertexModel>) -> Seq<char> {
    summary_text(
        "normal vertex"@,
        ends_of(vs.map_values(|v: NormalVertexModel| normal_vertex_text(v))),
        vs.len(),
    )
}

pub open spec fn group_summary(gs: Seq<Seq<char>>) -> Seq<char> {
    summary_text("group"@, ends_of(gs), gs.len())
}

pub open spec fn smoothing_group_summary(gs: Seq<u32>) -> Seq<char> {
    summary_text("smoothing group"@, ends_of(gs.map_values(|g: u32| decimal_text(g as nat))), gs.len())
}

pub open spec fn element_summary(es: Seq<Element>) -> Seq<char> {
    summary_text("element"@, ends_of(es.map_values(|e: Element| element_text(e))), es.len())
}

/// The user's summary of an object: its name, then the first and last
/// items and the length of each of its sets.
#[verifier::opaque]
pub open spec fn display_object(o: ObjectModel) -> Seq<char> {
    "Object {\n"@ + "    name: "@ + o.name + "\n"@ + vertex_summary(o.vertex_set) + texture_vertex_summary(
        o.texture_vertex_set,
    ) + normal_vertex_summary(o.normal_vertex_set) + group_summary(o.group_set) + smoothing_group_summary(
        o.smoothing_group_set,
    ) + element_summary(o.element_set) + "}\n"@
}

/// The summaries of the objects, each followed by an empty line.
pub open spec fn display_objects(os: Seq<ObjectModel>) -> Seq<char>
    decreases os.len(),
{
    if os.len() == 0 {
        Seq::empty()
    } else {
        display_objects(os.drop_last()) + display_object(os.last()) + "\n"@
    }
}

/// The user's summary of an object set.
pub open spec fn display_object_set(os: Seq<ObjectModel>) -> Seq<char> {
    "ObjectSet {\n"@ + display_objects(os) + "}\n"@
}

fn vertex_string(v: &Vertex) -> (r: String)
    ensures
        r@ == vertex_text(v@),
{
    let mut s = String::new();
    push_vertex(&mut s, v);
    assert(s@ =~= vertex_text(v@));
    s
}

fn texture_vertex_string(v: &TextureVertex) -> (r: String)
    ensures
        r@ == texture_vertex_text(v@),
{
    let mut s = String::new();
    push_texture_vertex(&mut s, v);
    assert(s@ =~= texture_vertex_text(v@));
    s
}

fn normal_vertex_string(v: &NormalVertex) -> (r: String)
    ensures
        r@ == normal_vertex_text(v@),
{
    let mut s = String::new();
    push_normal_vertex(&mut s, v);
    assert(s@ =~= normal_vertex_text(v@));
    s
}

fn element_string(e: Element) -> (r: String)
    ensures
        r@ == element_text(e),
{
    let mut s = String::new();
    push_element(&mut s, e);
    assert(s@ =~= element_text(e));
    s
}

fn decimal_string(n: u32) -> (r: String)
    ensures
        r@ == decimal_text(n as nat),
{
    let mut s = String::new();
    push_decimal(&mut s, n as usize);
    assert(s@ =~= decimal_text(n as nat));
    s
}

pub(crate) fn copy_string(t: &String) -> (r: String)
    ensures
        r@ == t@,
{
    let mut s = String::new();
    s.append(t.as_str());
    assert(s@ =~= t@);
    s
}

fn push_vertex_summary(s: &mut String, vs: &Vec<Vertex>)
    ensures
        final(s)@ == old(s)@ + vertex_summary(crate::object::vertex_views(vs@)),
{
    let ghost m = crate::object::vertex_views(vs@);
    let n = vs.len();
    let ends = if n == 0 {
        None
    } else {
        Some((vertex_string(&vs[0]), vertex_string(&vs[n - 1])))
    };
    proof {
        let t = m.map_values(|v: VertexModel| vertex_text(v));
        if n > 0 {
            assert(t[0] == vertex_text(vs@[0]@));
            assert(t.last() == vertex_text(vs@[n - 1]@));
        }
        assert(pair_views(ends) == ends_of(t));
    }
    push_summary(s, "vertex", ends, n);
}

fn push_texture_vertex_summary(s: &mut String, vs: &Vec<TextureVertex>)
    ensures
        final(s)@ == old(s)@ + texture_vertex_summary(crate::object::texture_vertex_views(vs@)),
{
    let ghost m = crate::object::texture_vertex_views(vs@);
    let n = vs.len();
    let ends = if n == 0 {
        None
    } else {
        Some((texture_vertex_string(&vs[0]), texture_vertex_string(&vs[n - 1])))
    };
    proof {
        let t = m.map_values(|v: TextureVertexModel| texture_vertex_text(v));
        if n > 0 {
            assert(t[0] == texture_vertex_text(vs@[0]@));
            assert(t.last() == texture_vertex_text(vs@[n - 1]@));
        }
        assert(pair_views(ends) == ends_of(t));
    }
    push_summary(s, "texture vertex", ends, n);
}

fn push_normal_vertex_summary(s: &mut String, vs: &Vec<NormalVertex>)
    ensures
        final(s)@ == old(s)@ + normal_vertex_summary(crate::object::normal_vertex_views(vs@)),
{
    let ghost m = crate::object::normal_vertex_views(vs@);
    let n = vs.len();
    let ends = if n == 0 {
        None
    } else {
        Some((normal_vertex_string(&vs[0]), normal_vertex_string(&vs[n - 1])))
    };
    proof {
        let t = m.map_values(|v: NormalVertexModel| normal_vertex_text(v));
        if n > 0 {
            assert(t[0] == normal_vertex_text(vs@[0]@));
            assert(t.last() == normal_vertex_text(vs@[n - 1]@));
        }
        assert(pair_views(ends) == ends_of(t));
    }
    push_summary(s, "normal vertex", ends, n);
}

fn push_group_summary(s: &mut String, gs: &Vec<Group>)
    ensures
        final(s)@ == old(s)@ + group_summary(crate::object::group_views(gs@)),
{
    let ghost m = crate::object::group_views(gs@);
    let n = gs.len();
    let ends = if n == 0 {
        None
    } else {
        Some((copy_string(gs[0].name()), copy_string(gs[n - 1].name())))
    };
    proof {
        if n > 0 {
            assert(m[0] == gs@[0]@);
            assert(m.last() == gs@[n - 1]@);
        }
        assert(pair_views(ends) == ends_of(m));
    }
    push_summary(s, "group", ends, n);
}

fn push_smoothing_group_summary(s: &mut String, gs: &Vec<SmoothingGroup>)
    ensures
        final(s)@ == old(s)@ + smoothing_group_summary(crate::object::smoothing_views(gs@)),
{
    let ghost m = crate::object::smoothing_views(gs@);
    let n = gs.len();
    let ends = if n == 0 {
        None
    } else {
        Some((decimal_string(gs[0].as_int()), decimal_string(gs[n - 1].as_int())))
    };
    proof {
        let t = m.map_values(|g: u32| decimal_text(g as nat));
        if n > 0 {
            assert(t[0] == decimal_text(gs@[0]@ as nat));
            assert(t.last() == decimal_text(gs@[n - 1]@ as nat));
        }
        assert(pair_views(ends) == ends_of(t));
    }
    push_summary(s, "smoothing group", ends, n);
}

fn push_element_summary(s: &mut String, es: &Vec<Element>)
    ensures
        final(s)@ == old(s)@ + element_summary(es@),
{
    let n = es.len();
    let ends = if n == 0 {
        None
    } else {
        Some((element_string(es[0]), element_string(es[n - 1])))
    };
    proof {
        let t = es@.map_values(|e: Element| element_text(e));
        if n > 0 {
            assert(t[0] == element_text(es@[0]));
            assert(t.last() == element_text(es@[n - 1]));
        }
        assert(pair_views(ends) == ends_of(t));
    }
    push_summary(s, "element", ends, n);
}

/// Appends the user's summary of an object.
#[verifier::spinoff_prover]
fn push_display_object(s: &mut String, o: &Object)
    ensures
        final(s)@ == old(s)@ + display_object(o@),
{
    let ghost s0 = s@;
    s.append("Object {\n");
    s.append("    name: ");
    s.append(o.name.as_str());
    s.append("\n");
    push_vertex_summary(s, &o.vertex_set);
    push_texture_vertex_summary(s, &o.texture_vertex_set);
    push_normal_vertex_summary(s, &o.normal_vertex_set);
    push_group_summary(s, &o.group_set);
    push_smoothing_group_summary(s, &o.smoothing_group_set);
    push_element_summary(s, &o.element_set);
    s.append("}\n");
    proof {
        reveal(display_object);
        assert(s@ =~= s0 + display_object(o@));
    }
}

impl DisplayObjectSetCompositor {
    /// The user's summary of an object set.
    pub fn compose(&self, object_set: &ObjectSet) -> (r: String)
        ensures
            r@ == display_object_set(object_set@),
    {
        let objects = object_set.iter();
        let mut s = String::new();
        s.append("ObjectSet {\n");
        let mut i: usize = 0;
        while i < objects.len()
            invariant
                i <= objects@.len(),
                crate::object::object_views(objects@) == object_set@,
                s@ == "ObjectSet {\n"@ + display_objects(object_set@.take(i as int)),
            decreases objects@.len() - i,
        {
            push_display_object(&mut s, &objects[i]);
            s.append("\n");
            proof {
                let os = object_set@;
                assert(os.take(i + 1).drop_last() =~= os.take(i as int));
                assert(os[i as int] == objects@[i as int]@);
                assert(s@ =~= "ObjectSet {\n"@ + display_objects(os.take(i + 1)));
            }
            i = i + 1;
        }
        s.append("}\n");
        proof {
            assert(object_set@.take(i as int) =~= object_set@);
        }
        s
    }
}

/// Whether two shape entries name the same groups and smoothing group.
pub open spec fn same_grouping(a: ShapeEntryModel, b: ShapeEntryModel) -> bool {
    a.groups == b.groups && a.smoothing_group == b.smoothing_group
}

/// The runs of the first `n` shape entries: each a maximal stretch of
/// consecutive entries with one grouping, from its first position up to the
/// position after its last.
pub open spec fn runs_of(s: Seq<ShapeEntryModel>, n: nat) -> Seq<(usize, usize)>
    decreases n,
{
    if n == 0 {
        Seq::empty()
    } else {
        let r = runs_of(s, (n - 1) as nat);
        if n >= 2 && same_grouping(s[n - 1], s[n - 2]) {
            r.update(r.len() - 1, (r.last().0, n as usize))
        } else {
            r.push(((n - 1) as usize, n as usize))
        }
    }
}

/// Whether the shape entry at `a` starts a run.
pub open spec fn run_start(s: Seq<ShapeEntryModel>, a: int) -> bool {
    a == 0 || !same_grouping(s[a], s[a - 1])
}

/// The runs cover the entries `0..n` in order, one after the other, each
/// nonempty and starting where the grouping changes.
pub proof fn lemma_runs(s: Seq<ShapeEntryModel>, n: nat)
    requires
        n <= s.len() <= usize::MAX,
    ensures
        ({
            let r = runs_of(s, n);
            &&& (r.len() == 0) == (n == 0)
            &&& r.len() > 0 ==> r[0].0 == 0 && r.last().1 == n
            &&& forall|k: int| 0 <= k < r.len() ==> (#[trigger] r[k]).0 < r[k].1 <= n && run_start(s, r[k].0 as int)
            &&& forall|j: int, k: int| 0 <= j && k == j + 1 && k < r.len() ==> (#[trigger] r[j]).1 == (
            #[trigger] r[k]).0
        }),
    decreases n,
{
    if n > 0 {
        lemma_runs(s, (n - 1) as nat);
        let r = runs_of(s, (n - 1) as nat);
        let r2 = runs_of(s, n);
        if n >= 2 && same_grouping(s[n - 1], s[n - 2]) {
            assert forall|k: int| 0 <= k < r2.len() implies (#[trigger] r2[k]).0 < r2[k].1 <= n && run_start(
                s,
                r2[k].0 as int,
            ) by {
                if k < r.len() - 1 {
                    assert(r2[k] == r[k]);
                } else {
                    assert(r2[k] == (r.last().0, n as usize));
                    assert(r[r.len() - 1] == r.last());
                }
            }
            assert forall|j: int, k: int| 0 <= j && k == j + 1 && k < r2.len() implies (#[trigger] r2[j]).1 == (
            #[trigger] r2[k]).0 by {
                assert(r2[j] == r[j]);
                if k < r.len() - 1 {
                    assert(r2[k] == r[k]);
                } else {
                    assert(r[r.len() - 1] == r.last());
                }
            }
            if r.len() == 1 {
                assert(r[0] == r.last());
            } else {
                assert(r2[0] == r[0]);
            }
        } else {
            assert forall|k: int| 0 <= k < r2.len() implies (#[trigger] r2[k]).0 < r2[k].1 <= n && run_start(
                s,
                r2[k].0 as int,
            ) by {
                if k < r.len() {
                    assert(r2[k] == r[k]);
                }
            }
            assert forall|j: int, k: int| 0 <= j && k == j + 1 && k < r2.len() implies (#[trigger] r2[j]).1 == (
            #[trigger] r2[k]).0 by {
                assert(r2[j] == r[j]);
                if k < r.len() {
                    assert(r2[k] == r[k]);
                } else {
                    assert(r[r.len() - 1] == r.last());
                }
            }
            if r.len() > 0 {
                assert(r2[0] == r[0]);
            }
        }
    }
}

/// A statement that sets the grouping of the elements after it: a group
/// statement, or a smoothing group statement.
pub enum GroupingStatement {
    G(Vec<Group>),
    S(SmoothingGroup),
}

pub enum GroupingModel {
    G(Seq<Seq<char>>),
    S(u32),
}

impl View for GroupingStatement {
    type V = GroupingModel;

    open spec fn view(&self) -> GroupingModel {
        match self {
            GroupingStatement::G(gs) => GroupingModel::G(group_views(gs@)),
            GroupingStatement::S(g) => GroupingModel::S(g@),
        }
    }
}

pub open spec fn statement_views(sts: Seq<GroupingStatement>) -> Seq<GroupingModel> {
    sts.map_values(|st: GroupingStatement| st@)
}

/// The names of the groups an entry names.
pub open spec fn entry_group_names(o: ObjectModel, e: ShapeEntryModel) -> Seq<Seq<char>> {
    e.groups.map_values(|g: u32| o.group_set[g - 1])
}

/// The statements that set the grouping of the run that starts at `a`: a
/// group statement naming its groups where they differ from those before,
/// and a smoothing group statement where its smoothing group differs; both
/// for the first run.
pub open spec fn run_statements(o: ObjectModel, a: int) -> Seq<GroupingModel> {
    let e = o.shape_set[a];
    let g = if a == 0 || e.groups != o.shape_set[a - 1].groups {
        seq![GroupingModel::G(entry_group_names(o, e))]
    } else {
        Seq::empty()
    };
    let sg = if a == 0 || e.smoothing_group != o.shape_set[a - 1].smoothing_group {
        seq![GroupingModel::S(o.smoothing_group_set[e.smoothing_group - 1])]
    } else {
        Seq::empty()
    };
    g + sg
}

/// The statements of the run at `a` can be read off the object: the groups
/// and the smoothing group they name are the object's.
pub open spec fn run_nameable(o: ObjectModel, a: int) -> bool {
    let e = o.shape_set[a];
    &&& (a == 0 || e.groups != o.shape_set[a - 1].groups) ==> forall|j: int|
        0 <= j < e.groups.len() ==> 1 <= (#[trigger] e.groups[j]) <= o.group_set.len()
    &&& (a == 0 || e.smoothing_group != o.shape_set[a - 1].smoothing_group) ==> 1 <= e.smoothing_group
        <= o.smoothing_group_set.len()
}

/// Every run of the object's shape entries, with the statements that set
/// its grouping.
pub open spec fn instructions(o: ObjectModel) -> Seq<((usize, usize), Seq<GroupingModel>)> {
    runs_of(o.shape_set, o.shape_set.len()).map_values(
        |iv: (usize, usize)| (iv, run_statements(o, iv.0 as int)),
    )
}

/// The intervals of an object's elements, each with the statements to
/// write before it.
pub struct CompositorInstructions {
    pub instructions: Vec<((usize, usize), Vec<GroupingStatement>)>,
}

impl View for CompositorInstructions {
    type V = Seq<((usize, usize), Seq<GroupingModel>)>;

    open spec fn view(&self) -> Seq<((usize, usize), Seq<GroupingModel>)> {
        self.instructions@.map_values(
            |e: ((usize, usize), Vec<GroupingStatement>)| (e.0, statement_views(e.1@)),
        )
    }
}

fn same_indices(a: &Vec<u32>, b: &Vec<u32>) -> (r: bool)
    ensures
        r == (a@ == b@),
{
    if a.len() != b.len() {
        return false;
    }
    let mut i: usize = 0;
    while i < a.len()
        invariant
            a@.len() == b@.len(),
            i <= a@.len(),
            forall|k: int| 0 <= k < i ==> a@[k] == b@[k],
        decreases a@.len() - i,
    {
        if a[i] != b[i] {
            return false;
        }
        i = i + 1;
    }
    assert(a@ =~= b@);
    true
}

fn same_entry_grouping(a: &ShapeEntry, b: &ShapeEntry) -> (r: bool)
    ensures
        r == same_grouping(a@, b@),
{
    same_indices(&a.groups, &b.groups) && a.smoothing_group == b.smoothing_group
}

/// The statements that set the grouping of the run that starts at `a`.
fn run_statements_of(object: &Object, a: usize) -> (r: Vec<GroupingStatement>)
    requires
        a < object.shape_set@.len(),
        run_nameable(object@, a as int),
    ensures
        statement_views(r@) == run_statements(object@, a as int),
{
    let ghost o = object@;
    let e = &object.shape_set[a];
    proof {
        assert(o.shape_set[a as int] == e@);
        if a > 0 {
            assert(o.shape_set[a - 1] == object.shape_set@[a - 1]@);
        }
    }
    let mut statements: Vec<GroupingStatement> = Vec::new();
    let new_groups = a == 0 || !same_indices(&e.groups, &object.shape_set[a - 1].groups);
    if new_groups {
        let mut names: Vec<Group> = Vec::new();
        let mut j: usize = 0;
        while j < e.groups.len()
            invariant
                o == object@,
                e@ == o.shape_set[a as int],
                j <= e.groups@.len(),
                forall|k: int| 0 <= k < e.groups@.len() ==> 1 <= (#[trigger] e.groups@[k]) <= o.group_set.len(),
                group_views(names@) == entry_group_names(o, e@).take(j as int),
            decreases e.groups@.len() - j,
        {
            let g = e.groups[j];
            let name = object.group_set[(g - 1) as usize].name();
            let ghost before = names@;
            names.push(Group::new(name.as_str()));
            proof {
                assert(o.group_set[g - 1] == object.group_set@[g - 1]@);
                assert(entry_group_names(o, e@).take(j + 1) =~= entry_group_names(o, e@).take(j as int).push(
                    o.group_set[g - 1],
                ));
                assert(group_views(names@) =~= group_views(before).push(names@.last()@));
            }
            j = j + 1;
        }
        proof {
            assert(entry_group_names(o, e@).take(j as int) =~= entry_group_names(o, e@));
        }
        statements.push(GroupingStatement::G(names));
    }
    let ghost after_groups = statements@;
    let new_smoothing = a == 0 || e.smoothing_group != object.shape_set[a - 1].smoothing_group;
    if new_smoothing {
        let k = e.smoothing_group;
        statements.push(GroupingStatement::S(object.smoothing_group_set[(k - 1) as usize]));
        proof {
            assert(o.smoothing_group_set[k - 1] == object.smoothing_group_set@[k - 1]@);
        }
    }
    proof {
        if new_groups {
            assert(statement_views(after_groups) =~= seq![GroupingModel::G(entry_group_names(o, e@))]);
        } else {
            assert(statement_views(after_groups) =~= Seq::<GroupingModel>::empty());
        }
        assert(statement_views(statements@) =~= run_statements(o, a as int));
    }
    statements
}

/// The runs of the shape entries with one grouping.
fn runs(shapes: &Vec<ShapeEntry>) -> (r: Vec<(usize, usize)>)
    ensures
        r@ == runs_of(shape_views(shapes@), shapes@.len() as nat),
{
    let ghost sv = shape_views(shapes@);
    let mut out: Vec<(usize, usize)> = Vec::new();
    let mut idx: usize = 0;
    while idx < shapes.len()
        invariant
            sv == shape_views(shapes@),
            idx <= sv.len(),
            out@ == runs_of(sv, idx as nat),
        decreases sv.len() - idx,
    {
        proof {
            lemma_runs(sv, idx as nat);
            if idx >= 1 {
                assert(sv[idx as int] == shapes@[idx as int]@);
                assert(sv[idx - 1] == shapes@[idx - 1]@);
            }
        }
        if idx >= 1 && same_entry_grouping(&shapes[idx], &shapes[idx - 1]) {
            let last = out.len() - 1;
            let start = out[last].0;
            out.set(last, (start, idx + 1));
        } else {
            out.push((idx, idx + 1));
        }
        idx = idx + 1;
    }
    out
}

/// Whether the text compositor can write an object: it has an element for
/// each shape entry, and the groups and smoothing groups that start each
/// run are the object's.
pub fn is_text_composable(object: &Object) -> (b: bool)
    ensures
        b == text_composable(object@),
{
    let ghost o = object@;
    if object.shape_set.len() > object.element_set.len() {
        return false;
    }
    let mut a: usize = 0;
    while a < object.shape_set.len()
        invariant
            o == object@,
            a <= o.shape_set.len(),
            forall|k: int| 0 <= k < a ==> run_nameable(o, k),
        decreases o.shape_set.len() - a,
    {
        let e = &object.shape_set[a];
        proof {
            assert(o.shape_set[a as int] == e@);
            if a > 0 {
                assert(o.shape_set[a - 1] == object.shape_set@[a - 1]@);
            }
        }
        if a == 0 || !same_indices(&e.groups, &object.shape_set[a - 1].groups) {
            let mut j: usize = 0;
            while j < e.groups.len()
                invariant
                    o == object@,
                    a < o.shape_set.len(),
                    e@ == o.shape_set[a as int],
                    a == 0 || e@.groups != o.shape_set[a - 1].groups,
                    j <= e.groups@.len(),
                    forall|k: int| 0 <= k < j ==> 1 <= (#[trigger] e.groups@[k]) <= o.group_set.len(),
                decreases e.groups@.len() - j,
            {
                let g = e.groups[j];
                if g < 1 || (g as usize) > object.group_set.len() {
                    proof {
                        assert(e@.groups[j as int] == g);
                        assert(!run_nameable(o, a as int));
                    }
                    return false;
                }
                j = j + 1;
            }
        }
        if a == 0 || e.smoothing_group != object.shape_set[a - 1].smoothing_group {
            let k = e.smoothing_group;
            if k < 1 || (k as usize) > object.smoothing_group_set.len() {
                proof {
                    assert(!run_nameable(o, a as int));
                }
                return false;
            }
        }
        a = a + 1;
    }
    true
}

impl CompositorInstructions {
    /// Splits an object's shape entries into runs of one grouping, and gives
    /// each run the statements that set its grouping. The runs cover the
    /// entries in order, each exactly once.
    pub fn generate(object: &Object) -> (r: CompositorInstructions)
        requires
            forall|a: int| 0 <= a < object@.shape_set.len() ==> run_nameable(object@, a),
        ensures
            r@ == instructions(object@),
            (r@.len() == 0) == (object@.shape_set.len() == 0),
            r@.len() > 0 ==> r@[0].0.0 == 0 && r@.last().0.1 == object@.shape_set.len(),
            forall|k: int| 0 <= k < r@.len() ==> (#[trigger] r@[k]).0.0 < r@[k].0.1,
            forall|j: int, k: int| 0 <= j && k == j + 1 && k < r@.len() ==> (#[trigger] r@[j]).0.1 == (
            #[trigger] r@[k]).0.0,
    {
        let ghost o = object@;
        let ghost sv = o.shape_set;
        let intervals = runs(&object.shape_set);
        let count = object.shape_set.len();
        proof {
            assert(sv.len() == count);
            lemma_runs(sv, sv.len());
        }
        let ghost iv = intervals@;
        let mut result: Vec<((usize, usize), Vec<GroupingStatement>)> = Vec::new();
        let mut i: usize = 0;
        while i < intervals.len()
            invariant
                o == object@,
                iv == intervals@,
                iv == runs_of(sv, sv.len()),
                sv == o.shape_set,
                forall|a: int| 0 <= a < sv.len() ==> run_nameable(o, a),
                forall|k: int| 0 <= k < iv.len() ==> (#[trigger] iv[k]).0 < iv[k].1 <= sv.len(),
                i <= iv.len(),
                result@.map_values(|e: ((usize, usize), Vec<GroupingStatement>)| (e.0, statement_views(e.1@)))
                    == instructions(o).take(i as int),
            decreases iv.len() - i,
        {
            let interval = intervals[i];
            let statements = run_statements_of(object, interval.0);
            let ghost before = result@;
            result.push((interval, statements));
            proof {
                let f = |e: ((usize, usize), Vec<GroupingStatement>)| (e.0, statement_views(e.1@));
                assert(result@.map_values(f) =~= before.map_values(f).push(f(result@.last())));
                assert(instructions(o).take(i + 1) =~= instructions(o).take(i as int).push(instructions(o)[i as int]));
            }
            i = i + 1;
        }
        proof {
            assert(instructions(o).take(i as int) =~= instructions(o));
        }
        CompositorInstructions { instructions: result }
    }
}

/// The `o` statement of an object, or nothing for an unnamed one.
pub open spec fn object_name_text(name: Seq<char>) -> Seq<char> {
    if name.len() == 0 {
        Seq::empty()
    } else {
        "o  "@ + name + " \n"@
    }
}

/// Names, each followed by two spaces.
pub open spec fn names_text(names: Seq<Seq<char>>) -> Seq<char>
    decreases names.len(),
{
    if names.len() == 0 {
        Seq::empty()
    } else {
        names_text(names.drop_last()) + names.last() + "  "@
    }
}

pub open spec fn groups_text(names: Seq<Seq<char>>) -> Seq<char> {
    "g  "@ + names_text(names) + "\n"@
}

pub open spec fn smoothing_text(n: u32) -> Seq<char> {
    "s  "@ + decimal_text(n as nat) + " \n"@
}

pub open spec fn statement_text(st: GroupingModel) -> Seq<char> {
    match st {
        GroupingModel::G(names) => groups_text(names),
        GroupingModel::S(n) => smoothing_text(n),
    }
}

pub open spec fn statements_text(sts: Seq<GroupingModel>) -> Seq<char>
    decreases sts.len(),
{
    if sts.len() == 0 {
        Seq::empty()
    } else {
        statements_text(sts.drop_last()) + statement_text(sts.last())
    }
}

/// A `v` statement; the fourth coordinate is left out where it is the unit
/// weight.
pub open spec fn vertex_line(v: VertexModel, unit_w: bool) -> Seq<char> {
    if unit_w {
        "v  "@ + v.x + "  "@ + v.y + "  "@ + v.z + " \n"@
    } else {
        "v  "@ + v.x + "  "@ + v.y + "  "@ + v.z + "  "@ + v.w + " \n"@
    }
}

pub open spec fn vertex_lines(vs: Seq<VertexModel>, unit_w: Seq<bool>) -> Seq<char>
    decreases vs.len(),
{
    if vs.len() == 0 {
        Seq::empty()
    } else {
        vertex_lines(vs.drop_last(), unit_w) + vertex_line(vs.last(), unit_w[vs.len() - 1])
    }
}

pub open spec fn texture_vertex_line(v: TextureVertexModel) -> Seq<char> {
    "vt  "@ + v.u + "  "@ + v.v + "  "@ + v.w + " \n"@
}

pub open spec fn texture_vertex_lines(vs: Seq<TextureVertexModel>) -> Seq<char>
    decreases vs.len(),
{
    if vs.len() == 0 {
        Seq::empty()
    } else {
        texture_vertex_lines(vs.drop_last()) + texture_vertex_line(vs.last())
    }
}

pub open spec fn normal_vertex_line(v: NormalVertexModel) -> Seq<char> {
    "vn  "@ + v.i + "  "@ + v.j + "  "@ + v.k + " \n"@
}

pub open spec fn normal_vertex_lines(vs: Seq<NormalVertexModel>) -> Seq<char>
    decreases vs.len(),
{
    if vs.len() == 0 {
        Seq::empty()
    } else {
        normal_vertex_lines(vs.drop_last()) + normal_vertex_line(vs.last())
    }
}

/// The `n` elements from position `start` on, one per line.
pub open spec fn element_lines(es: Seq<Element>, start: nat, n: nat) -> Seq<char>
    decreases n,
{
    if n == 0 {
        Seq::empty()
    } else {
        element_lines(es, start, (n - 1) as nat) + element_text(es[start + n - 1]) + "\n"@
    }
}

/// A run's statements, its elements from position `iv.0` up to `iv.1`,
/// and their count.
pub open spec fn interval_block(o: ObjectModel, iv: (usize, usize), sts: Seq<GroupingModel>) -> Seq<char> {
    statements_text(sts) + element_lines(o.element_set, iv.0 as nat, (iv.1 - iv.0) as nat) + "# "@
        + decimal_text((iv.1 - iv.0) as nat) + " elements\n\n"@
}

pub open spec fn interval_blocks(o: ObjectModel, ins: Seq<((usize, usize), Seq<GroupingModel>)>) -> Seq<char>
    decreases ins.len(),
{
    if ins.len() == 0 {
        Seq::empty()
    } else {
        interval_blocks(o, ins.drop_last()) + interval_block(o, ins.last().0, ins.last().1)
    }
}

/// What the text compositor asks of an object: an element for each shape
/// entry, and groups and smoothing groups of its own at the start of each
/// run.
pub open spec fn text_composable(o: ObjectModel) -> bool {
    &&& o.shape_set.len() <= o.element_set.len()
    &&& forall|a: int| 0 <= a < o.shape_set.len() ==> run_nameable(o, a)
}

/// A count in a comment line, then an empty line.
pub open spec fn count_text(n: nat, what: Seq<char>) -> Seq<char> {
    "# "@ + decimal_text(n) + what + "\n"@
}

/// The start of an object's OBJ text: its `o` statement, then its vertex
/// data with counts.
pub open spec fn object_header_text(o: ObjectModel, unit_w: Seq<bool>) -> Seq<char> {
    object_name_text(o.name) + (vertex_lines(o.vertex_set, unit_w) + count_text(
        o.vertex_set.len(),
        " vertices\n"@,
    )) + (texture_vertex_lines(o.texture_vertex_set) + count_text(
        o.texture_vertex_set.len(),
        " texture vertices\n"@,
    )) + (normal_vertex_lines(o.normal_vertex_set) + count_text(
        o.normal_vertex_set.len(),
        " normal vertices\n"@,
    ))
}

/// The OBJ text of an object: its `o` statement, its vertex data with
/// counts, then the runs of its elements with their statements.
pub open spec fn text_object(o: ObjectModel, unit_w: Seq<bool>) -> Seq<char> {
    object_header_text(o, unit_w) + interval_blocks(o, instructions(o))
}

/// The OBJ texts of the first `n` objects, each between a begin and an end
/// comment that number it from zero, and followed by an empty line.
pub open spec fn text_objects(os: Seq<ObjectModel>, unit_w: Seq<Seq<bool>>, n: nat) -> Seq<char>
    decreases n,
{
    if n == 0 {
        Seq::empty()
    } else {
        text_objects(os, unit_w, (n - 1) as nat) + "#### BEGIN Object "@ + decimal_text((n - 1) as nat) + "\n"@
            + text_object(os[n - 1], unit_w[n - 1]) + "#### END Object "@ + decimal_text((n - 1) as nat)
            + "\n"@ + "\n"@
    }
}

fn push_names(s: &mut String, gs: &Vec<Group>)
    ensures
        final(s)@ == old(s)@ + names_text(group_views(gs@)),
{
    let ghost s0 = s@;
    let mut i: usize = 0;
    while i < gs.len()
        invariant
            i <= gs@.len(),
            s@ == s0 + names_text(group_views(gs@.take(i as int))),
        decreases gs@.len() - i,
    {
        s.append(gs[i].name().as_str());
        s.append("  ");
        proof {
            let t = gs@.take(i + 1);
            assert(t.drop_last() =~= gs@.take(i as int));
            assert(group_views(t).drop_last() =~= group_views(t.drop_last()));
            assert(group_views(t).last() == gs@[i as int]@);
            assert(s@ =~= s0 + names_text(group_views(t)));
        }
        i = i + 1;
    }
    assert(gs@.take(i as int) =~= gs@);
}

fn push_statements(s: &mut String, sts: &Vec<GroupingStatement>)
    ensures
        final(s)@ == old(s)@ + statements_text(statement_views(sts@)),
{
    let ghost s0 = s@;
    let mut i: usize = 0;
    while i < sts.len()
        invariant
            i <= sts@.len(),
            s@ == s0 + statements_text(statement_views(sts@.take(i as int))),
        decreases sts@.len() - i,
    {
        let ghost before = s@;
        match &sts[i] {
            GroupingStatement::G(gs) => {
                s.append("g  ");
                push_names(s, gs);
                s.append("\n");
            },
            GroupingStatement::S(g) => {
                s.append("s  ");
                push_decimal(s, g.as_int() as usize);
                s.append(" \n");
            },
        }
        proof {
            let t = sts@.take(i + 1);
            assert(t.drop_last() =~= sts@.take(i as int));
            assert(statement_views(t).drop_last() =~= statement_views(t.drop_last()));
            assert(statement_views(t).last() == sts@[i as int]@);
            assert(s@ =~= before + statement_text(sts@[i as int]@));
            assert(s@ =~= s0 + statements_text(statement_views(t)));
        }
        i = i + 1;
    }
    assert(sts@.take(i as int) =~= sts@);
}

fn push_vertex_lines(s: &mut String, vs: &Vec<Vertex>, unit_w: &Vec<bool>)
    requires
        unit_w@.len() == vs@.len(),
    ensures
        final(s)@ == old(s)@ + vertex_lines(vertex_views(vs@), unit_w@),
{
    let ghost s0 = s@;
    let mut i: usize = 0;
    while i < vs.len()
        invariant
            i <= vs@.len(),
            unit_w@.len() == vs@.len(),
            s@ == s0 + vertex_lines(vertex_views(vs@.take(i as int)), unit_w@),
        decreases vs@.len() - i,
    {
        let ghost before = s@;
        let v = &vs[i];
        s.append("v  ");
        s.append(v.x.as_str());
        s.append("  ");
        s.append(v.y.as_str());
        s.append("  ");
        s.append(v.z.as_str());
        if !unit_w[i] {
            s.append("  ");
            s.append(v.w.as_str());
        }
        s.append(" \n");
        proof {
            let t = vs@.take(i + 1);
            assert(t.drop_last() =~= vs@.take(i as int));
            assert(vertex_views(t).drop_last() =~= vertex_views(t.drop_last()));
            assert(vertex_views(t).last() == v@);
            assert(s@ =~= before + vertex_line(v@, unit_w@[i as int]));
            assert(s@ =~= s0 + vertex_lines(vertex_views(t), unit_w@));
        }
        i = i + 1;
    }
    assert(vs@.take(i as int) =~= vs@);
}

fn push_texture_vertex_lines(s: &mut String, vs: &Vec<TextureVertex>)
    ensures
        final(s)@ == old(s)@ + texture_vertex_lines(texture_vertex_views(vs@)),
{
    let ghost s0 = s@;
    let mut i: usize = 0;
    while i < vs.len()
        invariant
            i <= vs@.len(),
            s@ == s0 + texture_vertex_lines(texture_vertex_views(vs@.take(i as int))),
        decreases vs@.len() - i,
    {
        let ghost before = s@;
        let v = &vs[i];
        s.append("vt  ");
        s.append(v.u.as_str());
        s.append("  ");
        s.append(v.v.as_str());
        s.append("  ");
        s.append(v.w.as_str());
        s.append(" \n");
        proof {
            let t = vs@.take(i + 1);
            assert(t.drop_last() =~= vs@.take(i as int));
            assert(texture_vertex_views(t).drop_last() =~= texture_vertex_views(t.drop_last()));
            assert(texture_vertex_views(t).last() == v@);
            assert(s@ =~= before + texture_vertex_line(v@));
            assert(s@ =~= s0 + texture_vertex_lines(texture_vertex_views(t)));
        }
        i = i + 1;
    }
    assert(vs@.take(i as int) =~= vs@);
}

fn push_normal_vertex_lines(s: &mut String, vs: &Vec<NormalVertex>)
    ensures
        final(s)@ == old(s)@ + normal_vertex_lines(normal_vertex_views(vs@)),
{
    let ghost s0 = s@;
    let mut i: usize = 0;
    while i < vs.len()
        invariant
            i <= vs@.len(),
            s@ == s0 + normal_vertex_lines(normal_vertex_views(vs@.take(i as int))),
        decreases vs@.len() - i,
    {
        let ghost before = s@;
        let v = &vs[i];
        s.append("vn  ");
        s.append(v.i.as_str());
        s.append("  ");
        s.append(v.j.as_str());
        s.append("  ");
        s.append(v.k.as_str());
        s.append(" \n");
        proof {
            let t = vs@.take(i + 1);
            assert(t.drop_last() =~= vs@.take(i as int));
            assert(normal_vertex_views(t).drop_last() =~= normal_vertex_views(t.drop_last()));
            assert(normal_vertex_views(t).last() == v@);
            assert(s@ =~= before + normal_vertex_line(v@));
            assert(s@ =~= s0 + normal_vertex_lines(normal_vertex_views(t)));
        }
        i = i + 1;
    }
    assert(vs@.take(i as int) =~= vs@);
}

fn push_element_lines(s: &mut String, es: &Vec<Element>, start: usize, end: usize)
    requires
        start <= end,
        start < end ==> end <= es@.len(),
    ensures
        final(s)@ == old(s)@ + element_lines(es@, start as nat, (end - start) as nat),
{
    let ghost s0 = s@;
    let mut i = start;
    while i < end
        invariant
            start <= i <= end,
            start < end ==> end <= es@.len(),
            s@ == s0 + element_lines(es@, start as nat, (i - start) as nat),
        decreases end - i,
    {
        let ghost before = s@;
        push_element(s, es[i as usize]);
        s.append("\n");
        proof {
            assert(s@ =~= s0 + element_lines(es@, start as nat, (i + 1 - start) as nat));
        }
        i = i + 1;
    }
}

fn push_count(s: &mut String, n: usize, what: &str)
    ensures
        final(s)@ == old(s)@ + count_text(n as nat, what@),
{
    let ghost s0 = s@;
    s.append("# ");
    push_decimal(s, n);
    s.append(what);
    s.append("\n");
    assert(s@ =~= s0 + count_text(n as nat, what@));
}

fn push_object_header(s: &mut String, o: &Object, unit_w: &Vec<bool>)
    requires
        unit_w@.len() == o.vertex_set@.len(),
    ensures
        final(s)@ == old(s)@ + object_header_text(o@, unit_w@),
{
    let ghost s0 = s@;
    let ghost m = o@;
    if o.name.as_str().unicode_len() > 0 {
        s.append("o  ");
        s.append(o.name.as_str());
        s.append(" \n");
    }
    assert(s@ =~= s0 + object_name_text(m.name));
    let ghost s1 = s@;
    push_vertex_lines(s, &o.vertex_set, unit_w);
    push_count(s, o.vertex_set.len(), " vertices\n");
    let ghost s2 = s@;
    assert(s2 =~= s1 + (vertex_lines(m.vertex_set, unit_w@) + count_text(m.vertex_set.len(), " vertices\n"@)));
    push_texture_vertex_lines(s, &o.texture_vertex_set);
    push_count(s, o.texture_vertex_set.len(), " texture vertices\n");
    let ghost s3 = s@;
    assert(s3 =~= s2 + (texture_vertex_lines(m.texture_vertex_set) + count_text(
        m.texture_vertex_set.len(),
        " texture vertices\n"@,
    )));
    push_normal_vertex_lines(s, &o.normal_vertex_set);
    push_count(s, o.normal_vertex_set.len(), " normal vertices\n");
    let ghost s4 = s@;
    assert(s4 =~= s3 + (normal_vertex_lines(m.normal_vertex_set) + count_text(
        m.normal_vertex_set.len(),
        " normal vertices\n"@,
    )));
    assert(s4 =~= s0 + object_header_text(m, unit_w@));
}

/// Appends the OBJ text of an object.
fn push_text_object(s: &mut String, o: &Object, unit_w: &Vec<bool>)
    requires
        unit_w@.len() == o.vertex_set@.len(),
        text_composable(o@),
    ensures
        final(s)@ == old(s)@ + text_object(o@, unit_w@),
{
    let ghost s0 = s@;
    let ghost m = o@;
    push_object_header(s, o, unit_w);
    let ghost s1 = s@;
    let plan = CompositorInstructions::generate(o);
    let ins = &plan.instructions;
    let ghost iv = runs_of(m.shape_set, m.shape_set.len());
    proof {
        lemma_runs(m.shape_set, m.shape_set.len());
        assert(plan@.len() == ins@.len());
    }
    let mut i: usize = 0;
    while i < ins.len()
        invariant
            m == o@,
            text_composable(m),
            iv == runs_of(m.shape_set, m.shape_set.len()),
            forall|k: int| 0 <= k < iv.len() ==> (#[trigger] iv[k]).0 < iv[k].1 <= m.shape_set.len(),
            plan@ == instructions(m),
            ins@ == plan.instructions@,
            ins@.len() == iv.len(),
            i <= ins@.len(),
            s@ == s1 + interval_blocks(m, instructions(m).take(i as int)),
        decreases ins@.len() - i,
    {
        let ghost before = s@;
        let entry = &ins[i];
        proof {
            assert(plan@[i as int] == (entry.0, statement_views(entry.1@)));
            assert(instructions(m)[i as int].0 == iv[i as int]);
            assert(entry.0 == iv[i as int]);
            assert(iv[i as int].0 < iv[i as int].1);
        }
        push_statements(s, &entry.1);
        let interval = entry.0;
        push_element_lines(s, &o.element_set, interval.0, interval.1);
        s.append("# ");
        push_decimal(s, interval.1 - interval.0);
        s.append(" elements\n\n");
        proof {
            let t = instructions(m).take(i + 1);
            assert(t.drop_last() =~= instructions(m).take(i as int));
            assert(t.last() == instructions(m)[i as int]);
            assert(s@ =~= before + interval_block(m, entry.0, statement_views(entry.1@)));
            assert(s@ =~= s1 + interval_blocks(m, t));
        }
        i = i + 1;
    }
    proof {
        assert(instructions(m).take(i as int) =~= instructions(m));
    }
}

impl TextObjectSetCompositor {
    /// The OBJ text of an object set. `unit_w[i][j]` says whether vertex `j`
    /// of object `i` has the unit weight, which its `v` statement then
    /// leaves out.
    pub fn compose(&self, object_set: &ObjectSet, unit_w: &Vec<Vec<bool>>) -> (r: String)
        requires
            unit_w@.len() == object_set@.len(),
            forall|i: int| 0 <= i < object_set@.len() ==> (#[trigger] unit_w@[i])@.len()
                == object_set@[i].vertex_set.len(),
            forall|i: int| 0 <= i < object_set@.len() ==> text_composable(#[trigger] object_set@[i]),
        ensures
            r@ == text_objects(
                object_set@,
                unit_w@.map_values(|w: Vec<bool>| w@),
                object_set@.len(),
            ),
    {
        let objects = object_set.iter();
        let ghost os = object_set@;
        let ghost ws = unit_w@.map_values(|w: Vec<bool>| w@);
        let mut s = String::new();
        let mut i: usize = 0;
        while i < objects.len()
            invariant
                crate::object::object_views(objects@) == os,
                os == object_set@,
                ws == unit_w@.map_values(|w: Vec<bool>| w@),
                unit_w@.len() == os.len(),
                forall|k: int| 0 <= k < os.len() ==> (#[trigger] unit_w@[k])@.len() == os[k].vertex_set.len(),
                forall|k: int| 0 <= k < os.len() ==> text_composable(#[trigger] os[k]),
                i <= os.len(),
                s@ == text_objects(os, ws, i as nat),
            decreases os.len() - i,
        {
            let ghost before = s@;
            proof {
                assert(os[i as int] == objects@[i as int]@);
                assert(ws[i as int] == unit_w@[i as int]@);
            }
            s.append("#### BEGIN Object ");
            push_decimal(&mut s, i);
            s.append("\n");
            push_text_object(&mut s, &objects[i], &unit_w[i]);
            s.append("#### END Object ");
            push_decimal(&mut s, i);
            s.append("\n");
            s.append("\n");
            proof {
                assert(s@ =~= text_objects(os, ws, (i + 1) as nat));
            }
            i = i + 1;
        }
        s
    }
}

} // verus!

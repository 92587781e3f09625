//! The user's summary of an object set of [`crate::obj`], whose indices
//! count from zero and are written counting from one.
use vstd::prelude::*;
use crate::compose::{
    copy_string, ends_of, normal_vertex_text, pair_views, push_summary, summary_text, texture_vertex_text,
    vertex_text,
};
use crate::obj::{
    group_views, normal_vertex_views, object_views, smoothing_views, texture_vertex_views, vertex_views,
    DisplayObjectSetCompositor, Element, Group, NormalVertex, NormalVertexModel, Object, ObjectModel, ObjectSet,
    ObjectSetModel, SmoothingGroup, TextureVertex, TextureVertexModel, VTNIndex, Vertex, VertexModel,
};
use crate::text::{decimal_text, push_decimal};

verus! {

/// How an index is written: its numbers, each plus one, separated by `/`,
/// with `//` where the texture index is missing.
pub open spec fn vtn_text(i: VTNIndex) -> Seq<char> {
    match i {
        VTNIndex::V(v) => decimal_text((v + 1) as nat),
        VTNIndex::VT(v, t) => decimal_text((v + 1) as nat) + "/"@ + decimal_text((t + 1) as nat),
        VTNIndex::VN(v, n) => decimal_text((v + 1) as nat) + "//"@ + decimal_text((n + 1) as nat),
        VTNIndex::VTN(v, t, n) => decimal_text((v + 1) as nat) + "/"@ + decimal_text((t + 1) as nat) + "/"@
            + decimal_text((n + 1) as nat),
    }
}

/// The numbers of an index can be written plus one.
pub open spec fn vtn_writable(i: VTNIndex) -> bool {
    match i {
        VTNIndex::V(v) => v < usize::MAX,
        VTNIndex::VT(v, t) => v < usize::MAX && t < usize::MAX,
        VTNIndex::VN(v, n) => v < usize::MAX && n < usize::MAX,
        VTNIndex::VTN(v, t, n) => v < usize::MAX && t < usize::MAX && n < usize::MAX,
    }
}

pub open spec fn element_text(e: Element) -> Seq<char> {
    match e {
        Element::Point(a) => "p  "@ + vtn_text(a),
        Element::Line(a, b) => "l  "@ + vtn_text(a) + "  "@ + vtn_text(b),
        Element::Face(a, b, c) => "f  "@ + vtn_text(a) + "  "@ + vtn_text(b) + "  "@ + vtn_text(c),
    }
}

pub open spec fn element_writable(e: Element) -> bool {
    match e {
        Element::Point(a) => vtn_writable(a),
        Element::Line(a, b) => vtn_writable(a) && vtn_writable(b),
        Element::Face(a, b, c) => vtn_writable(a) && vtn_writable(b) && vtn_writable(c),
    }
}

/// How a smoothing group is written: `off` for 0, else its number.
pub open spec fn smoothing_text(g: usize) -> Seq<char> {
    if g == 0 {
        "off"@
    } else {
        decimal_text(g as nat)
    }
}

pub open spec fn vertex_summary(vs: Seq<VertexModel>) -> Seq<char> {
    summary_text("vertex"@, ends_of(vs.map_values(|v: VertexModel| vertex_text(v))), vs.len())
}

pub open spec fn texture_vertex_summary(vs: Seq<TextureVertexModel>) -> Seq<char> {
    summary_text(
        "texture vertex"@,
        ends_of(vs.map_values(|v: TextureVertexModel| texture_vertex_text(v))),
        vs.len(),
    )
}

pub open spec fn normal_vertex_summary(vs: Seq<NormalVertexModel>) -> Seq<char> {
    summary_text(
        "normal vertex"@,
        ends_of(vs.map_values(|v: NormalVertexModel| normal_vertex_text(v))),
        vs.len(),
    )
}

pub open spec fn group_summary(gs: Seq<Seq<char>>) -> Seq<char> {
    summary_text("group"@, ends_of(gs), gs.len())
}

pub open spec fn smoothing_group_summary(gs: Seq<usize>) -> Seq<char> {
    summary_text("smoothing group"@, ends_of(gs.map_values(|g: usize| smoothing_text(g))), gs.len())
}

pub open spec fn element_summary(es: Seq<Element>) -> Seq<char> {
    summary_text("element"@, ends_of(es.map_values(|e: Element| element_text(e))), es.len())
}

/// The user's summary of an object: its name, then the first and last
/// items and the length of each of its sets but the shapes and geometries.
#[verifier::opaque]
pub open spec fn display_object(o: ObjectModel) -> Seq<char> {
    "Object {\n"@ + "    name: "@ + o.name + "\n"@ + vertex_summary(o.vertex_set) + texture_vertex_summary(
        o.texture_vertex_set,
    ) + normal_vertex_summary(o.normal_vertex_set) + group_summary(o.group_set) + smoothing_group_summary(
        o.smoothing_group_set,
    ) + element_summary(o.element_set) + "}\n"@
}

/// The summary of an object can be written: its first and last elements'
/// numbers can be written plus one.
pub open spec fn displayable(o: ObjectModel) -> bool {
    o.element_set.len() > 0 ==> element_writable(o.element_set[0]) && element_writable(o.element_set.last())
}

pub open spec fn display_objects(os: Seq<ObjectModel>) -> Seq<char>
    decreases os.len(),
{
    if os.len() == 0 {
        Seq::empty()
    } else {
        display_objects(os.drop_last()) + display_object(os.last()) + "\n"@
    }
}

/// The user's summary of an object set: its objects; the material
/// libraries are not shown.
pub open spec fn display_object_set(s: ObjectSetModel) -> Seq<char> {
    "ObjectSet {\n"@ + display_objects(s.objects) + "}\n"@
}

fn push_vtn(s: &mut String, i: VTNIndex)
    requires
        vtn_writable(i),
    ensures
        final(s)@ == old(s)@ + vtn_text(i),
{
    let ghost s0 = s@;
    match i {
        VTNIndex::V(v) => {
            push_decimal(s, v + 1);
        },
        VTNIndex::VT(v, t) => {
            push_decimal(s, v + 1);
            s.append("/");
            push_decimal(s, t + 1);
        },
        VTNIndex::VN(v, n) => {
            push_decimal(s, v + 1);
            s.append("//");
            push_decimal(s, n + 1);
        },
        VTNIndex::VTN(v, t, n) => {
            push_decimal(s, v + 1);
            s.append("/");
            push_decimal(s, t + 1);
            s.append("/");
            push_decimal(s, n + 1);
        },
    }
    assert(s@ =~= s0 + vtn_text(i));
}

fn element_string(e: Element) -> (r: String)
    requires
        element_writable(e),
    ensures
        r@ == element_text(e),
{
    let mut s = String::new();
    match e {
        Element::Point(a) => {
            s.append("p  ");
            push_vtn(&mut s, a);
        },
        Element::Line(a, b) => {
            s.append("l  ");
            push_vtn(&mut s, a);
            s.append("  ");
            push_vtn(&mut s, b);
        },
        Element::Face(a, b, c) => {
            s.append("f  ");
            push_vtn(&mut s, a);
            s.append("  ");
            push_vtn(&mut s, b);
            s.append("  ");
            push_vtn(&mut s, c);
        },
    }
    assert(s@ =~= element_text(e));
    s
}

fn smoothing_string(g: usize) -> (r: String)
    ensures
        r@ == smoothing_text(g),
{
    let mut s = String::new();
    if g == 0 {
        s.append("off");
    } else {
        push_decimal(&mut s, g);
    }
    assert(s@ =~= smoothing_text(g));
    s
}

fn vertex_string(v: &Vertex) -> (r: String)
    ensures
        r@ == vertex_text(v@),
{
    let mut s = String::new();
    s.append("v  ");
    s.append(v.x.as_str());
    s.append("  ");
    s.append(v.y.as_str());
    s.append("  ");
    s.append(v.z.as_str());
    s.append("  ");
    s.append(v.w.as_str());
    assert(s@ =~= vertex_text(v@));
    s
}

fn texture_vertex_string(v: &TextureVertex) -> (r: String)
    ensures
        r@ == texture_vertex_text(v@),
{
    let mut s = String::new();
    s.append("vt  ");
    s.append(v.u.as_str());
    s.append("  ");
    s.append(v.v.as_str());
    s.append("  ");
    s.append(v.w.as_str());
    assert(s@ =~= texture_vertex_text(v@));
    s
}

fn normal_vertex_string(v: &NormalVertex) -> (r: String)
    ensures
        r@ == normal_vertex_text(v@),
{
    let mut s = String::new();
    s.append("vn  ");
    s.append(v.i.as_str());
    s.append("  ");
    s.append(v.j.as_str());
    s.append("  ");
    s.append(v.k.as_str());
    assert(s@ =~= normal_vertex_text(v@));
    s
}

fn push_vertex_summary(s: &mut String, vs: &Vec<Vertex>)
    ensures
        final(s)@ == old(s)@ + vertex_summary(vertex_views(vs@)),
{
    let ghost m = vertex_views(vs@);
    let n = vs.len();
    let ends = if n == 0 {
        None
    } else {
        Some((vertex_string(&vs[0]), vertex_string(&vs[n - 1])))
    };
    proof {
        let t = m.map_values(|v: VertexModel| vertex_text(v));
        if n > 0 {
            assert(t[0] == vertex_text(vs@[0]@));
            assert(t.last() == vertex_text(vs@[n - 1]@));
        }
        assert(pair_views(ends) == ends_of(t));
    }
    push_summary(s, "vertex", ends, n);
}

fn push_texture_vertex_summary(s: &mut String, vs: &Vec<TextureVertex>)
    ensures
        final(s)@ == old(s)@ + texture_vertex_summary(texture_vertex_views(vs@)),
{
    let ghost m = texture_vertex_views(vs@);
    let n = vs.len();
    let ends = if n == 0 {
        None
    } else {
        Some((texture_vertex_string(&vs[0]), texture_vertex_string(&vs[n - 1])))
    };
    proof {
        let t = m.map_values(|v: TextureVertexModel| texture_vertex_text(v));
        if n > 0 {
            assert(t[0] == texture_vertex_text(vs@[0]@));
            assert(t.last() == texture_vertex_text(vs@[n - 1]@));
        }
        assert(pair_views(ends) == ends_of(t));
    }
    push_summary(s, "texture vertex", ends, n);
}

fn push_normal_vertex_summary(s: &mut String, vs: &Vec<NormalVertex>)
    ensures
        final(s)@ == old(s)@ + normal_vertex_summary(normal_vertex_views(vs@)),
{
    let ghost m = normal_vertex_views(vs@);
    let n = vs.len();
    let ends = if n == 0 {
        None
    } else {
        Some((normal_vertex_string(&vs[0]), normal_vertex_string(&vs[n - 1])))
    };
    proof {
        let t = m.map_values(|v: NormalVertexModel| normal_vertex_text(v));
        if n > 0 {
            assert(t[0] == normal_vertex_text(vs@[0]@));
            assert(t.last() == normal_vertex_text(vs@[n - 1]@));
        }
        assert(pair_views(ends) == ends_of(t));
    }
    push_summary(s, "normal vertex", ends, n);
}

fn push_group_summary(s: &mut String, gs: &Vec<Group>)
    ensures
        final(s)@ == old(s)@ + group_summary(group_views(gs@)),
{
    let ghost m = group_views(gs@);
    let n = gs.len();
    let ends = if n == 0 {
        None
    } else {
        Some((copy_string(gs[0].name()), copy_string(gs[n - 1].name())))
    };
    proof {
        if n > 0 {
            assert(m[0] == gs@[0]@);
            assert(m.last() == gs@[n - 1]@);
        }
        assert(pair_views(ends) == ends_of(m));
    }
    push_summary(s, "group", ends, n);
}

fn push_smoothing_group_summary(s: &mut String, gs: &Vec<SmoothingGroup>)
    ensures
        final(s)@ == old(s)@ + smoothing_group_summary(smoothing_views(gs@)),
{
    let ghost m = smoothing_views(gs@);
    let n = gs.len();
    let ends = if n == 0 {
        None
    } else {
        Some((smoothing_string(gs[0].as_usize()), smoothing_string(gs[n - 1].as_usize())))
    };
    proof {
        let t = m.map_values(|g: usize| smoothing_text(g));
        if n > 0 {
            assert(t[0] == smoothing_text(gs@[0]@));
            assert(t.last() == smoothing_text(gs@[n - 1]@));
        }
        assert(pair_views(ends) == ends_of(t));
    }
    push_summary(s, "smoothing group", ends, n);
}

fn push_element_summary(s: &mut String, es: &Vec<Element>)
    requires
        es@.len() > 0 ==> element_writable(es@[0]) && element_writable(es@.last()),
    ensures
        final(s)@ == old(s)@ + element_summary(es@),
{
    let n = es.len();
    let ends = if n == 0 {
        None
    } else {
        Some((element_string(es[0]), element_string(es[n - 1])))
    };
    proof {
        let t = es@.map_values(|e: Element| element_text(e));
        if n > 0 {
            assert(t[0] == element_text(es@[0]));
            assert(t.last() == element_text(es@[n - 1]));
        }
        assert(pair_views(ends) == ends_of(t));
    }
    push_summary(s, "element", ends, n);
}

#[verifier::spinoff_prover]
fn push_display_object(s: &mut String, o: &Object)
    requires
        displayable(o@),
    ensures
        final(s)@ == old(s)@ + display_object(o@),
{
    let ghost s0 = s@;
    s.append("Object {\n");
    s.append("    name: ");
    s.append(o.name.as_str());
    s.append("\n");
    push_vertex_summary(s, &o.vertex_set);
    push_texture_vertex_summary(s, &o.texture_vertex_set);
    push_normal_vertex_summary(s, &o.normal_vertex_set);
    push_group_summary(s, &o.group_set);
    push_smoothing_group_summary(s, &o.smoothing_group_set);
    push_element_summary(s, &o.element_set);
    s.append("}\n");
    proof {
        reveal(display_object);
        assert(s@ =~= s0 + display_object(o@));
    }
}

impl DisplayObjectSetCompositor {
    /// The user's summary of an object set.
    pub fn compose(&self, object_set: &ObjectSet) -> (r: String)
        requires
            forall|i: int| 0 <= i < object_set@.objects.len() ==> displayable(#[trigger] object_set@.objects[i]),
        ensures
            r@ == display_object_set(object_set@),
    {
        let objects = &object_set.objects;
        let ghost os = object_set@.objects;
        let mut s = String::new();
        s.append("ObjectSet {\n");
        let mut i: usize = 0;
        while i < objects.len()
            invariant
                object_views(objects@) == os,
                os == object_set@.objects,
                forall|k: int| 0 <= k < os.len() ==> displayable(#[trigger] os[k]),
                i <= os.len(),
                s@ == "ObjectSet {\n"@ + display_objects(os.take(i as int)),
            decreases os.len() - i,
        {
            proof {
                assert(os[i as int] == objects@[i as int]@);
            }
            push_display_object(&mut s, &objects[i]);
            s.append("\n");
            proof {
                assert(os.take(i + 1).drop_last() =~= os.take(i as int));
                assert(s@ =~= "ObjectSet {\n"@ + display_objects(os.take(i + 1)));
            }
            i = i + 1;
        }
        s.append("}\n");
        proof {
            assert(os.take(i as int) =~= os);
        }
        s
    }
}

} // verus!

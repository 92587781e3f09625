//! Properties of the parsers and the summary writer, each stated for all
//! inputs: what a statement reads, how indices are counted within an
//! object, how an index is written, and what an index looks up.
use vstd::prelude::*;
use crate::lexer::Parsed;
use crate::obj::{NormalVertexModel, TextureVertexModel, VertexModel};
use crate::text::{
    all_digits, decimal_text, is_digit_char, is_float_literal, lemma_decimal_text, spec_parse_usize, unsigned_digits,
};
use crate::obj::{slash_field, split_slash, vtn_form_ok, vtn_value};
use crate::mtl::{material_statement, ColorModel, ErrorKind, IlluminationModel, MaterialModel};

verus! {

/// The next token, if there is one, is no number.
pub open spec fn no_number_next(rest: Seq<Seq<char>>) -> bool {
    rest.len() == 0 || !is_float_literal(rest[0])
}

/// A `v x y z` statement reads the vertex (x, y, z, 1); with a fourth
/// number w it reads (x, y, z, w).
pub proof fn law_vertex_statement(x: Seq<char>, y: Seq<char>, z: Seq<char>, w: Seq<char>, rest: Seq<Seq<char>>)
    requires
        is_float_literal(x),
        is_float_literal(y),
        is_float_literal(z),
    ensures
        no_number_next(rest) ==> crate::obj::spec_parse_vertex(seq!["v"@, x, y, z] + rest) == Parsed::<
            VertexModel,
            crate::obj::ErrorKind,
        >::Done(VertexModel { x: x, y: y, z: z, w: "1"@ }, 4),
        is_float_literal(w) ==> crate::obj::spec_parse_vertex(seq!["v"@, x, y, z, w] + rest) == Parsed::<
            VertexModel,
            crate::obj::ErrorKind,
        >::Done(VertexModel { x: x, y: y, z: z, w: w }, 5),
        no_number_next(rest) ==> crate::parser::spec_parse_vertex(seq!["v"@, x, y, z] + rest) == Parsed::<
            VertexModel,
            (),
        >::Done(VertexModel { x: x, y: y, z: z, w: "1"@ }, 4),
        is_float_literal(w) ==> crate::parser::spec_parse_vertex(seq!["v"@, x, y, z, w] + rest) == Parsed::<
            VertexModel,
            (),
        >::Done(VertexModel { x: x, y: y, z: z, w: w }, 5),
{
    let a = seq!["v"@, x, y, z] + rest;
    let b = seq!["v"@, x, y, z, w] + rest;
    assert(a[0] == "v"@ && a.skip(1)[0] == x && a.skip(2)[0] == y && a.skip(3)[0] == z);
    assert(a[1] == x && a[2] == y && a[3] == z);
    assert(a.skip(4) =~= rest);
    assert(b[0] == "v"@ && b.skip(1)[0] == x && b.skip(2)[0] == y && b.skip(3)[0] == z && b.skip(4)[0] == w);
    assert(b[1] == x && b[2] == y && b[3] == z);
}

/// A `vt` statement reads its first number as u, its second, where there is
/// one, as v, and its third, where there is one, as w; a coordinate left
/// out is 0.
pub proof fn law_texture_vertex_statement(
    u: Seq<char>,
    v: Seq<char>,
    w: Seq<char>,
    rest: Seq<Seq<char>>,
)
    requires
        is_float_literal(u),
        is_float_literal(v),
        is_float_literal(w),
    ensures
        no_number_next(rest) ==> crate::obj::spec_parse_texture_vertex(seq!["vt"@, u] + rest) == Parsed::<
            TextureVertexModel,
            crate::obj::ErrorKind,
        >::Done(TextureVertexModel { u: u, v: "0"@, w: "0"@ }, 2),
        no_number_next(rest) ==> crate::obj::spec_parse_texture_vertex(seq!["vt"@, u, v] + rest) == Parsed::<
            TextureVertexModel,
            crate::obj::ErrorKind,
        >::Done(TextureVertexModel { u: u, v: v, w: "0"@ }, 3),
        crate::obj::spec_parse_texture_vertex(seq!["vt"@, u, v, w] + rest) == Parsed::<
            TextureVertexModel,
            crate::obj::ErrorKind,
        >::Done(TextureVertexModel { u: u, v: v, w: w }, 4),
        no_number_next(rest) ==> crate::parser::spec_parse_texture_vertex(seq!["vt"@, u] + rest) == Parsed::<
            TextureVertexModel,
            (),
        >::Done(TextureVertexModel { u: u, v: "0"@, w: "0"@ }, 2),
        no_number_next(rest) ==> crate::parser::spec_parse_texture_vertex(seq!["vt"@, u, v] + rest)
            == Parsed::<TextureVertexModel, ()>::Done(TextureVertexModel { u: u, v: v, w: "0"@ }, 3),
        crate::parser::spec_parse_texture_vertex(seq!["vt"@, u, v, w] + rest) == Parsed::<
            TextureVertexModel,
            (),
        >::Done(TextureVertexModel { u: u, v: v, w: w }, 4),
{
    let a = seq!["vt"@, u] + rest;
    let b = seq!["vt"@, u, v] + rest;
    let c = seq!["vt"@, u, v, w] + rest;
    assert(a[0] == "vt"@ && a[1] == u && a.skip(1)[0] == u && a.skip(2) =~= rest);
    assert(b[0] == "vt"@ && b[1] == u && b.skip(1)[0] == u && b.skip(2)[0] == v && b.skip(3) =~= rest);
    assert(c[0] == "vt"@ && c[1] == u && c.skip(1)[0] == u && c.skip(2)[0] == v && c.skip(3)[0] == w);
}

/// A `vn i j k` statement reads the normal (i, j, k).
pub proof fn law_normal_statement(i: Seq<char>, j: Seq<char>, k: Seq<char>, rest: Seq<Seq<char>>)
    requires
        is_float_literal(i),
        is_float_literal(j),
        is_float_literal(k),
    ensures
        crate::obj::spec_parse_normal_vertex(seq!["vn"@, i, j, k] + rest) == Parsed::<
            NormalVertexModel,
            crate::obj::ErrorKind,
        >::Done(NormalVertexModel { i: i, j: j, k: k }, 4),
        crate::parser::spec_parse_normal_vertex(seq!["vn"@, i, j, k] + rest) == Parsed::<
            NormalVertexModel,
            (),
        >::Done(NormalVertexModel { i: i, j: j, k: k }, 4),
{
    let a = seq!["vn"@, i, j, k] + rest;
    assert(a[0] == "vn"@ && a.skip(1)[0] == i && a.skip(2)[0] == j && a.skip(3)[0] == k);
    assert(a[1] == i && a[2] == j && a[3] == k);
}

/// The index `j` with the offsets `off` added back: the number it had in
/// the file, less one.
pub open spec fn with_offsets(j: crate::obj::VTNIndex, off: crate::obj::Offsets) -> crate::obj::VTNIndex {
    match j {
        crate::obj::VTNIndex::V(v) => crate::obj::VTNIndex::V((v + off.0) as usize),
        crate::obj::VTNIndex::VT(v, t) => crate::obj::VTNIndex::VT((v + off.0) as usize, (t + off.1) as usize),
        crate::obj::VTNIndex::VN(v, n) => crate::obj::VTNIndex::VN((v + off.0) as usize, (n + off.2) as usize),
        crate::obj::VTNIndex::VTN(v, t, n) => crate::obj::VTNIndex::VTN((v + off.0) as usize, (t + off.1) as usize, (n + off.2) as usize),
    }
}

/// Each number of the index is at least the count of data of its kind
/// before the object: vertices for the vertex number, texture vertices for
/// the texture number, normals for the normal number.
pub open spec fn within_object(i: crate::obj::VTNIndex, off: crate::obj::Offsets) -> bool {
    match i {
        crate::obj::VTNIndex::V(v) => v >= off.0,
        crate::obj::VTNIndex::VT(v, t) => v >= off.0 && t >= off.1,
        crate::obj::VTNIndex::VN(v, n) => v >= off.0 && n >= off.2,
        crate::obj::VTNIndex::VTN(v, t, n) => v >= off.0 && t >= off.1 && n >= off.2,
    }
}

/// Counting an index within its object takes from each number the data of
/// its own kind held by the objects before: the index keeps its form, and
/// adding those counts back gives the file's index. An index is counted
/// within the object exactly when each number reaches past those counts.
pub proof fn law_rebase_index(i: crate::obj::VTNIndex, off: crate::obj::Offsets)
    ensures
        (crate::obj::rebase_index(i, off) is Some) == within_object(i, off),
        crate::obj::rebase_index(i, off) matches Some(j) ==> with_offsets(j, off) == i
            && crate::obj::same_form(i, j),
{
}

/// The offsets of the object after `o` count the data of `o` on top of
/// those before it, each kind on its own.
pub proof fn law_next_offsets(off: crate::obj::Offsets, o: crate::obj::ObjectModel)
    ensures
        crate::obj::next_offsets(off, o) matches Some(n) ==> n.0 == off.0 + o.vertex_set.len() && n.1 == off.1
            + o.texture_vertex_set.len() && n.2 == off.2 + o.normal_vertex_set.len(),
        (crate::obj::next_offsets(off, o) is None) == (off.0 + o.vertex_set.len() > usize::MAX || off.1
            + o.texture_vertex_set.len() > usize::MAX || off.2 + o.normal_vertex_set.len() > usize::MAX),
{
}

/// The position in the vertex set an index names.
pub open spec fn vertex_position(i: crate::obj::VTNIndex) -> usize {
    match i {
        crate::obj::VTNIndex::V(v) => v,
        crate::obj::VTNIndex::VT(v, _) => v,
        crate::obj::VTNIndex::VN(v, _) => v,
        crate::obj::VTNIndex::VTN(v, _, _) => v,
    }
}

/// The position in the texture vertex set an index names, if it names one.
pub open spec fn texture_position(i: crate::obj::VTNIndex) -> Option<usize> {
    match i {
        crate::obj::VTNIndex::VT(_, t) => Some(t),
        crate::obj::VTNIndex::VTN(_, t, _) => Some(t),
        _ => None,
    }
}

/// The position in the normal set an index names, if it names one.
pub open spec fn normal_position(i: crate::obj::VTNIndex) -> Option<usize> {
    match i {
        crate::obj::VTNIndex::VN(_, n) => Some(n),
        crate::obj::VTNIndex::VTN(_, _, n) => Some(n),
        _ => None,
    }
}

/// Looking an index up gives the vertex at its vertex position, the texture
/// vertex at its texture position and the normal at its normal position,
/// each from its own set; it finds nothing exactly when one of those
/// positions lies past the end of its set.
pub proof fn law_vtn_lookup(o: crate::obj::ObjectModel, i: crate::obj::VTNIndex)
    ensures
        (crate::obj::vtn_lookup(o, i) is Some) == (vertex_position(i) < o.vertex_set.len() && (texture_position(i) matches Some(
            t,
        ) ==> t < o.texture_vertex_set.len()) && (normal_position(i) matches Some(n) ==> n < o.normal_vertex_set.len())),
        crate::obj::vtn_lookup(o, i) matches Some(d) ==> {
            &&& d.0 == o.vertex_set[vertex_position(i) as int]
            &&& texture_position(i) matches Some(t) ==> d.1 == Some(o.texture_vertex_set[t as int])
            &&& texture_position(i) is None ==> d.1 is None
            &&& normal_position(i) matches Some(n) ==> d.2 == Some(o.normal_vertex_set[n as int])
            &&& normal_position(i) is None ==> d.2 is None
        },
{
}

/// The position in the vertex set an index of the one-based model names.
pub open spec fn vertex_position_one(i: crate::object::VTNIndex) -> u32 {
    match i {
        crate::object::VTNIndex::V(v) => v,
        crate::object::VTNIndex::VT(v, _) => v,
        crate::object::VTNIndex::VN(v, _) => v,
        crate::object::VTNIndex::VTN(v, _, _) => v,
    }
}

pub open spec fn texture_position_one(i: crate::object::VTNIndex) -> Option<u32> {
    match i {
        crate::object::VTNIndex::VT(_, t) => Some(t),
        crate::object::VTNIndex::VTN(_, t, _) => Some(t),
        _ => None,
    }
}

pub open spec fn normal_position_one(i: crate::object::VTNIndex) -> Option<u32> {
    match i {
        crate::object::VTNIndex::VN(_, n) => Some(n),
        crate::object::VTNIndex::VTN(_, _, n) => Some(n),
        _ => None,
    }
}

/// The same for the one-based model: the lookup takes each number as a
/// position in the set of its own kind.
pub proof fn law_vtn_lookup_one(o: crate::object::ObjectModel, i: crate::object::VTNIndex)
    ensures
        (crate::object::vtn_lookup(o, i) is Some) == (vertex_position_one(i) < o.vertex_set.len() && (
        texture_position_one(i) matches Some(t) ==> t < o.texture_vertex_set.len()) && (normal_position_one(i) matches Some(
            n,
        ) ==> n < o.normal_vertex_set.len())),
        crate::object::vtn_lookup(o, i) matches Some(d) ==> {
            &&& d.0 == o.vertex_set[vertex_position_one(i) as int]
            &&& texture_position_one(i) matches Some(t) ==> d.1 == Some(o.texture_vertex_set[t as int])
            &&& texture_position_one(i) is None ==> d.1 is None
            &&& normal_position_one(i) matches Some(n) ==> d.2 == Some(o.normal_vertex_set[n as int])
            &&& normal_position_one(i) is None ==> d.2 is None
        },
{
}

/// Counting the elements of an object within it keeps each element and its
/// form, and counts each of its indices within the object.
pub proof fn law_rebase_elements(es: Seq<crate::obj::Element>, off: crate::obj::Offsets)
    ensures
        (crate::obj::rebase_elements(es, off) is Some) == (forall|k: int|
            0 <= k < es.len() ==> element_within_object(#[trigger] es[k], off)),
        crate::obj::rebase_elements(es, off) matches Some(r) ==> r.len() == es.len() && forall|k: int|
            0 <= k < es.len() ==> element_with_offsets(#[trigger] r[k], off) == es[k],
{
    assert forall|k: int| 0 <= k < es.len() implies (crate::obj::rebase_element(es[k], off) is Some)
        == element_within_object(#[trigger] es[k], off) && (crate::obj::rebase_element(es[k], off) matches Some(
        e2,
    ) ==> element_with_offsets(e2, off) == es[k]) by {
        law_rebase_element(es[k], off);
    }
    if crate::obj::rebase_elements(es, off) is Some {
        let r = crate::obj::rebase_elements(es, off)->0;
        assert forall|k: int| 0 <= k < es.len() implies element_with_offsets(#[trigger] r[k], off) == es[k] by {
            assert(r[k] == crate::obj::rebase_element(es[k], off)->0);
        }
    } else {
        let k = choose|k: int| 0 <= k < es.len() && !(crate::obj::rebase_element(es[k], off) is Some);
        assert(!element_within_object(es[k], off));
    }
}

/// Every index of the element is counted within the object.
pub open spec fn element_within_object(e: crate::obj::Element, off: crate::obj::Offsets) -> bool {
    match e {
        crate::obj::Element::Point(a) => within_object(a, off),
        crate::obj::Element::Line(a, b) => within_object(a, off) && within_object(b, off),
        crate::obj::Element::Face(a, b, c) => within_object(a, off) && within_object(b, off) && within_object(c, off),
    }
}

/// The element with the offsets added back to each of its indices.
pub open spec fn element_with_offsets(e: crate::obj::Element, off: crate::obj::Offsets) -> crate::obj::Element {
    match e {
        crate::obj::Element::Point(a) => crate::obj::Element::Point(with_offsets(a, off)),
        crate::obj::Element::Line(a, b) => crate::obj::Element::Line(with_offsets(a, off), with_offsets(b, off)),
        crate::obj::Element::Face(a, b, c) => crate::obj::Element::Face(
            with_offsets(a, off),
            with_offsets(b, off),
            with_offsets(c, off),
        ),
    }
}

/// Counting an element within its object counts each of its indices.
pub proof fn law_rebase_element(e: crate::obj::Element, off: crate::obj::Offsets)
    ensures
        (crate::obj::rebase_element(e, off) is Some) == element_within_object(e, off),
        crate::obj::rebase_element(e, off) matches Some(e2) ==> element_with_offsets(e2, off) == e,
{
    match e {
        crate::obj::Element::Point(a) => {
            law_rebase_index(a, off);
        },
        crate::obj::Element::Line(a, b) => {
            law_rebase_index(a, off);
            law_rebase_index(b, off);
        },
        crate::obj::Element::Face(a, b, c) => {
            law_rebase_index(a, off);
            law_rebase_index(b, off);
            law_rebase_index(c, off);
        },
    }
}

proof fn lemma_split_plain(x: Seq<char>)
    requires
        forall|k: int| 0 <= k < x.len() ==> x[k] != '/',
    ensures
        split_slash(x) == seq![x],
    decreases x.len(),
{
    if x.len() > 0 {
        let y = x.drop_last();
        assert forall|k: int| 0 <= k < y.len() implies y[k] != '/' by {
            assert(y[k] == x[k]);
        }
        lemma_split_plain(y);
        assert(x.last() == x[x.len() - 1]);
        assert(y.push(x.last()) =~= x);
        let p = split_slash(y);
        assert(p.last() == y);
        assert(p.update(0, x) =~= seq![x]);
    } else {
        assert(x =~= Seq::<char>::empty());
    }
}

proof fn lemma_split_slash_end(a: Seq<char>)
    ensures
        split_slash(a.push('/')) == split_slash(a).push(Seq::<char>::empty()),
{
    assert(a.push('/').drop_last() =~= a);
}

proof fn lemma_split_append(a: Seq<char>, y: Seq<char>)
    requires
        forall|k: int| 0 <= k < y.len() ==> y[k] != '/',
    ensures
        split_slash(a + y) == split_slash(a).update(
            split_slash(a).len() - 1,
            split_slash(a).last() + y,
        ),
        split_slash(a + y).len() == split_slash(a).len(),
    decreases y.len(),
{
    lemma_split_len(a);
    if y.len() == 0 {
        assert(a + y =~= a);
        assert(split_slash(a).last() + y =~= split_slash(a).last());
        assert(split_slash(a).update(split_slash(a).len() - 1, split_slash(a).last()) =~= split_slash(a));
    } else {
        let y0 = y.drop_last();
        lemma_split_append(a, y0);
        assert((a + y).drop_last() =~= a + y0);
        assert((a + y).last() == y.last());
        let p = split_slash(a);
        assert(split_slash(a + y) =~= p.update(p.len() - 1, p.last() + y)) by {
            assert(p.last() + y0 + seq![y.last()] =~= p.last() + y);
            assert((p.last() + y0).push(y.last()) =~= p.last() + y);
        }
    }
}

proof fn lemma_split_len(a: Seq<char>)
    ensures
        split_slash(a).len() >= 1,
    decreases a.len(),
{
    if a.len() > 0 {
        lemma_split_len(a.drop_last());
    }
}

proof fn lemma_numeral_plain(n: nat)
    ensures
        forall|k: int| 0 <= k < decimal_text(n).len() ==> decimal_text(n)[k] != '/',
        decimal_text(n).len() > 0,
{
    lemma_decimal_text(n);
    assert forall|k: int| 0 <= k < decimal_text(n).len() implies decimal_text(n)[k] != '/' by {
        assert(is_digit_char(decimal_text(n)[k]));
    }
}

/// `str::parse::<usize>` reads the numeral of a number back.
proof fn lemma_parse_numeral_usize(n: nat)
    requires
        n <= usize::MAX,
    ensures
        spec_parse_usize(decimal_text(n)) == Some(n as usize),
{
    lemma_decimal_text(n);
    let t = decimal_text(n);
    assert(is_digit_char(t[0]));
    assert(unsigned_digits(t) == t);
}

#[verifier::rlimit(40)]
#[verifier::spinoff_prover]
proof fn lemma_summary_v(v: usize)
    requires
        v < usize::MAX,
    ensures
        crate::obj::spec_parse_vtn_index(seq![crate::display::vtn_text(crate::obj::VTNIndex::V(v))]) == Parsed::<
            crate::obj::VTNIndex,
            crate::obj::ErrorKind,
        >::Done(crate::obj::VTNIndex::V(v), 1),
{
    let i = crate::obj::VTNIndex::V(v);
    reveal_strlit("/");
    reveal_strlit("//");
    let e = Seq::<char>::empty();
    let d = decimal_text((v + 1) as nat);
    lemma_numeral_plain((v + 1) as nat);
    lemma_parse_numeral_usize((v + 1) as nat);
    lemma_split_plain(d);
    let p = split_slash(d);
    assert(slash_field(p, 0) == Some((v + 1) as usize));
    assert(vtn_form_ok(d));
    assert(vtn_value(d) == i);
}

#[verifier::rlimit(40)]
#[verifier::spinoff_prover]
proof fn lemma_summary_vt(v: usize, t: usize)
    requires
        v < usize::MAX && t < usize::MAX,
    ensures
        crate::obj::spec_parse_vtn_index(seq![crate::display::vtn_text(crate::obj::VTNIndex::VT(v, t))]) == Parsed::<
            crate::obj::VTNIndex,
            crate::obj::ErrorKind,
        >::Done(crate::obj::VTNIndex::VT(v, t), 1),
{
    let i = crate::obj::VTNIndex::VT(v, t);
    reveal_strlit("/");
    reveal_strlit("//");
    let e = Seq::<char>::empty();
    let d1 = decimal_text((v + 1) as nat);
    let d2 = decimal_text((t + 1) as nat);
    lemma_numeral_plain((v + 1) as nat);
    lemma_numeral_plain((t + 1) as nat);
    lemma_parse_numeral_usize((v + 1) as nat);
    lemma_parse_numeral_usize((t + 1) as nat);
    lemma_split_plain(d1);
    lemma_split_slash_end(d1);
    assert(d1 + "/"@ =~= d1.push('/'));
    lemma_split_append(d1 + "/"@, d2);
    let p = split_slash(d1 + "/"@ + d2);
    assert(seq![d1].push(e).update(1, e + d2) =~= seq![d1, d2]);
    assert(e + d2 =~= d2);
    assert(p =~= seq![d1, d2]);
    assert(crate::display::vtn_text(i) == d1 + "/"@ + d2);
    assert(slash_field(p, 0) == Some((v + 1) as usize));
    assert(slash_field(p, 1) == Some((t + 1) as usize));
    assert(slash_field(p, 2) is None);
}

#[verifier::rlimit(40)]
#[verifier::spinoff_prover]
proof fn lemma_summary_vn(v: usize, n: usize)
    requires
        v < usize::MAX && n < usize::MAX,
    ensures
        crate::obj::spec_parse_vtn_index(seq![crate::display::vtn_text(crate::obj::VTNIndex::VN(v, n))]) == Parsed::<
            crate::obj::VTNIndex,
            crate::obj::ErrorKind,
        >::Done(crate::obj::VTNIndex::VN(v, n), 1),
{
    let i = crate::obj::VTNIndex::VN(v, n);
    reveal_strlit("/");
    reveal_strlit("//");
    let e = Seq::<char>::empty();
    let d1 = decimal_text((v + 1) as nat);
    let d2 = decimal_text((n + 1) as nat);
    lemma_numeral_plain((v + 1) as nat);
    lemma_numeral_plain((n + 1) as nat);
    lemma_parse_numeral_usize((v + 1) as nat);
    lemma_parse_numeral_usize((n + 1) as nat);
    lemma_split_plain(d1);
    lemma_split_slash_end(d1);
    lemma_split_slash_end(d1.push('/'));
    assert(d1 + "//"@ =~= d1.push('/').push('/'));
    lemma_split_append(d1 + "//"@, d2);
    let p = split_slash(d1 + "//"@ + d2);
    assert(seq![d1].push(e).push(e).update(2, e + d2) =~= seq![d1, e, d2]);
    assert(e + d2 =~= d2);
    assert(p =~= seq![d1, e, d2]);
    assert(slash_field(p, 0) == Some((v + 1) as usize));
    assert(slash_field(p, 1) is None);
    assert(slash_field(p, 2) == Some((n + 1) as usize));
}

#[verifier::rlimit(40)]
#[verifier::spinoff_prover]
proof fn lemma_summary_vtn(v: usize, t: usize, n: usize)
    requires
        v < usize::MAX && t < usize::MAX && n < usize::MAX,
    ensures
        crate::obj::spec_parse_vtn_index(seq![crate::display::vtn_text(crate::obj::VTNIndex::VTN(v, t, n))]) == Parsed::<
            crate::obj::VTNIndex,
            crate::obj::ErrorKind,
        >::Done(crate::obj::VTNIndex::VTN(v, t, n), 1),
{
    let i = crate::obj::VTNIndex::VTN(v, t, n);
    reveal_strlit("/");
    reveal_strlit("//");
    let e = Seq::<char>::empty();
    let d1 = decimal_text((v + 1) as nat);
    let d2 = decimal_text((t + 1) as nat);
    let d3 = decimal_text((n + 1) as nat);
    lemma_numeral_plain((v + 1) as nat);
    lemma_numeral_plain((t + 1) as nat);
    lemma_numeral_plain((n + 1) as nat);
    lemma_parse_numeral_usize((v + 1) as nat);
    lemma_parse_numeral_usize((t + 1) as nat);
    lemma_parse_numeral_usize((n + 1) as nat);
    lemma_split_plain(d1);
    lemma_split_slash_end(d1);
    assert(d1 + "/"@ =~= d1.push('/'));
    lemma_split_append(d1 + "/"@, d2);
    let a = d1 + "/"@ + d2;
    assert(seq![d1].push(e).update(1, e + d2) =~= seq![d1, d2]);
    assert(e + d2 =~= d2);
    assert(split_slash(a) =~= seq![d1, d2]);
    lemma_split_slash_end(a);
    assert(a + "/"@ =~= a.push('/'));
    lemma_split_append(a + "/"@, d3);
    let p = split_slash(a + "/"@ + d3);
    assert(seq![d1, d2].push(e).update(2, e + d3) =~= seq![d1, d2, d3]);
    assert(e + d3 =~= d3);
    assert(p =~= seq![d1, d2, d3]);
    assert(slash_field(p, 0) == Some((v + 1) as usize));
    assert(slash_field(p, 1) == Some((t + 1) as usize));
    assert(slash_field(p, 2) == Some((n + 1) as usize));
}

/// The summary writes an index so that the index parser reads it back: the
/// numbers of the index, each plus one, in the order vertex, texture,
/// normal.
pub proof fn law_summary_index_reads_back(i: crate::obj::VTNIndex)
    requires
        crate::display::vtn_writable(i),
    ensures
        crate::obj::spec_parse_vtn_index(seq![crate::display::vtn_text(i)]) == Parsed::<
            crate::obj::VTNIndex,
            crate::obj::ErrorKind,
        >::Done(i, 1),
{
    match i {
        crate::obj::VTNIndex::V(v) => lemma_summary_v(v),
        crate::obj::VTNIndex::VT(v, t) => lemma_summary_vt(v, t),
        crate::obj::VTNIndex::VN(v, n) => lemma_summary_vn(v, n),
        crate::obj::VTNIndex::VTN(v, t, n) => lemma_summary_vtn(v, t, n),
    }
}

/// The statement tags of a material body are distinct.
proof fn lemma_material_tags()
    ensures
        "Ka"@ != "Kd"@,
        "Ka"@ != "Ks"@,
        "Ka"@ != "Ke"@,
        "Ka"@ != "d"@,
        "Ka"@ != "Ns"@,
        "Ka"@ != "Ni"@,
        "Ka"@ != "illum"@,
        "Ka"@ != "map_Ka"@,
        "Ka"@ != "map_Kd"@,
        "Ka"@ != "map_Ks"@,
        "Ka"@ != "map_Ke"@,
        "Ka"@ != "map_Ns"@,
        "Ka"@ != "map_Bump"@,
        "Ka"@ != "bump"@,
        "Ka"@ != "disp"@,
        "Ka"@ != "map_d"@,
        "Ka"@ != "decal"@,
        "Kd"@ != "Ks"@,
        "Kd"@ != "Ke"@,
        "Kd"@ != "d"@,
        "Kd"@ != "Ns"@,
        "Kd"@ != "Ni"@,
        "Kd"@ != "illum"@,
        "Kd"@ != "map_Ka"@,
        "Kd"@ != "map_Kd"@,
        "Kd"@ != "map_Ks"@,
        "Kd"@ != "map_Ke"@,
        "Kd"@ != "map_Ns"@,
        "Kd"@ != "map_Bump"@,
        "Kd"@ != "bump"@,
        "Kd"@ != "disp"@,
        "Kd"@ != "map_d"@,
        "Kd"@ != "decal"@,
        "Ks"@ != "Ke"@,
        "Ks"@ != "d"@,
        "Ks"@ != "Ns"@,
        "Ks"@ != "Ni"@,
        "Ks"@ != "illum"@,
        "Ks"@ != "map_Ka"@,
        "Ks"@ != "map_Kd"@,
        "Ks"@ != "map_Ks"@,
        "Ks"@ != "map_Ke"@,
        "Ks"@ != "map_Ns"@,
        "Ks"@ != "map_Bump"@,
        "Ks"@ != "bump"@,
        "Ks"@ != "disp"@,
        "Ks"@ != "map_d"@,
        "Ks"@ != "decal"@,
        "Ke"@ != "d"@,
        "Ke"@ != "Ns"@,
        "Ke"@ != "Ni"@,
        "Ke"@ != "illum"@,
        "Ke"@ != "map_Ka"@,
        "Ke"@ != "map_Kd"@,
        "Ke"@ != "map_Ks"@,
        "Ke"@ != "map_Ke"@,
        "Ke"@ != "map_Ns"@,
        "Ke"@ != "map_Bump"@,
        "Ke"@ != "bump"@,
        "Ke"@ != "disp"@,
        "Ke"@ != "map_d"@,
        "Ke"@ != "decal"@,
        "d"@ != "Ns"@,
        "d"@ != "Ni"@,
        "d"@ != "illum"@,
        "d"@ != "map_Ka"@,
        "d"@ != "map_Kd"@,
        "d"@ != "map_Ks"@,
        "d"@ != "map_Ke"@,
        "d"@ != "map_Ns"@,
        "d"@ != "map_Bump"@,
        "d"@ != "bump"@,
        "d"@ != "disp"@,
        "d"@ != "map_d"@,
        "d"@ != "decal"@,
        "Ns"@ != "Ni"@,
        "Ns"@ != "illum"@,
        "Ns"@ != "map_Ka"@,
        "Ns"@ != "map_Kd"@,
        "Ns"@ != "map_Ks"@,
        "Ns"@ != "map_Ke"@,
        "Ns"@ != "map_Ns"@,
        "Ns"@ != "map_Bump"@,
        "Ns"@ != "bump"@,
        "Ns"@ != "disp"@,
        "Ns"@ != "map_d"@,
        "Ns"@ != "decal"@,
        "Ni"@ != "illum"@,
        "Ni"@ != "map_Ka"@,
        "Ni"@ != "map_Kd"@,
        "Ni"@ != "map_Ks"@,
        "Ni"@ != "map_Ke"@,
        "Ni"@ != "map_Ns"@,
        "Ni"@ != "map_Bump"@,
        "Ni"@ != "bump"@,
        "Ni"@ != "disp"@,
        "Ni"@ != "map_d"@,
        "Ni"@ != "decal"@,
        "illum"@ != "map_Ka"@,
        "illum"@ != "map_Kd"@,
        "illum"@ != "map_Ks"@,
        "illum"@ != "map_Ke"@,
        "illum"@ != "map_Ns"@,
        "illum"@ != "map_Bump"@,
        "illum"@ != "bump"@,
        "illum"@ != "disp"@,
        "illum"@ != "map_d"@,
        "illum"@ != "decal"@,
        "map_Ka"@ != "map_Kd"@,
        "map_Ka"@ != "map_Ks"@,
        "map_Ka"@ != "map_Ke"@,
        "map_Ka"@ != "map_Ns"@,
        "map_Ka"@ != "map_Bump"@,
        "map_Ka"@ != "bump"@,
        "map_Ka"@ != "disp"@,
        "map_Ka"@ != "map_d"@,
        "map_Ka"@ != "decal"@,
        "map_Kd"@ != "map_Ks"@,
        "map_Kd"@ != "map_Ke"@,
        "map_Kd"@ != "map_Ns"@,
        "map_Kd"@ != "map_Bump"@,
        "map_Kd"@ != "bump"@,
        "map_Kd"@ != "disp"@,
        "map_Kd"@ != "map_d"@,
        "map_Kd"@ != "decal"@,
        "map_Ks"@ != "map_Ke"@,
        "map_Ks"@ != "map_Ns"@,
        "map_Ks"@ != "map_Bump"@,
        "map_Ks"@ != "bump"@,
        "map_Ks"@ != "disp"@,
        "map_Ks"@ != "map_d"@,
        "map_Ks"@ != "decal"@,
        "map_Ke"@ != "map_Ns"@,
        "map_Ke"@ != "map_Bump"@,
        "map_Ke"@ != "bump"@,
        "map_Ke"@ != "disp"@,
        "map_Ke"@ != "map_d"@,
        "map_Ke"@ != "decal"@,
        "map_Ns"@ != "map_Bump"@,
        "map_Ns"@ != "bump"@,
        "map_Ns"@ != "disp"@,
        "map_Ns"@ != "map_d"@,
        "map_Ns"@ != "decal"@,
        "map_Bump"@ != "bump"@,
        "map_Bump"@ != "disp"@,
        "map_Bump"@ != "map_d"@,
        "map_Bump"@ != "decal"@,
        "bump"@ != "disp"@,
        "bump"@ != "map_d"@,
        "bump"@ != "decal"@,
        "disp"@ != "map_d"@,
        "disp"@ != "decal"@,
        "map_d"@ != "decal"@,
{
    reveal_strlit("Ka");
    reveal_strlit("Kd");
    reveal_strlit("Ks");
    reveal_strlit("Ke");
    reveal_strlit("d");
    reveal_strlit("Ns");
    reveal_strlit("Ni");
    reveal_strlit("illum");
    reveal_strlit("map_Ka");
    reveal_strlit("map_Kd");
    reveal_strlit("map_Ks");
    reveal_strlit("map_Ke");
    reveal_strlit("map_Ns");
    reveal_strlit("map_Bump");
    reveal_strlit("bump");
    reveal_strlit("disp");
    reveal_strlit("map_d");
    reveal_strlit("decal");
    assert("Ka"@.len() == 2 && "Ka"@[0] == 'K' && "Ka"@[1] == 'a');
    assert("Kd"@.len() == 2 && "Kd"@[0] == 'K' && "Kd"@[1] == 'd');
    assert("Ks"@.len() == 2 && "Ks"@[0] == 'K' && "Ks"@[1] == 's');
    assert("Ke"@.len() == 2 && "Ke"@[0] == 'K' && "Ke"@[1] == 'e');
    assert("d"@.len() == 1 && "d"@[0] == 'd');
    assert("Ns"@.len() == 2 && "Ns"@[0] == 'N' && "Ns"@[1] == 's');
    assert("Ni"@.len() == 2 && "Ni"@[0] == 'N' && "Ni"@[1] == 'i');
    assert("illum"@.len() == 5 && "illum"@[0] == 'i' && "illum"@[1] == 'l' && "illum"@[2] == 'l' && "illum"@[3] == 'u' && "illum"@[4] == 'm');
    assert("map_Ka"@.len() == 6 && "map_Ka"@[0] == 'm' && "map_Ka"@[1] == 'a' && "map_Ka"@[2] == 'p' && "map_Ka"@[3] == '_' && "map_Ka"@[4] == 'K' && "map_Ka"@[5] == 'a');
    assert("map_Kd"@.len() == 6 && "map_Kd"@[0] == 'm' && "map_Kd"@[1] == 'a' && "map_Kd"@[2] == 'p' && "map_Kd"@[3] == '_' && "map_Kd"@[4] == 'K' && "map_Kd"@[5] == 'd');
    assert("map_Ks"@.len() == 6 && "map_Ks"@[0] == 'm' && "map_Ks"@[1] == 'a' && "map_Ks"@[2] == 'p' && "map_Ks"@[3] == '_' && "map_Ks"@[4] == 'K' && "map_Ks"@[5] == 's');
    assert("map_Ke"@.len() == 6 && "map_Ke"@[0] == 'm' && "map_Ke"@[1] == 'a' && "map_Ke"@[2] == 'p' && "map_Ke"@[3] == '_' && "map_Ke"@[4] == 'K' && "map_Ke"@[5] == 'e');
    assert("map_Ns"@.len() == 6 && "map_Ns"@[0] == 'm' && "map_Ns"@[1] == 'a' && "map_Ns"@[2] == 'p' && "map_Ns"@[3] == '_' && "map_Ns"@[4] == 'N' && "map_Ns"@[5] == 's');
    assert("map_Bump"@.len() == 8 && "map_Bump"@[0] == 'm' && "map_Bump"@[1] == 'a' && "map_Bump"@[2] == 'p' && "map_Bump"@[3] == '_' && "map_Bump"@[4] == 'B' && "map_Bump"@[5] == 'u' && "map_Bump"@[6] == 'm' && "map_Bump"@[7] == 'p');
    assert("bump"@.len() == 4 && "bump"@[0] == 'b' && "bump"@[1] == 'u' && "bump"@[2] == 'm' && "bump"@[3] == 'p');
    assert("disp"@.len() == 4 && "disp"@[0] == 'd' && "disp"@[1] == 'i' && "disp"@[2] == 's' && "disp"@[3] == 'p');
    assert("map_d"@.len() == 5 && "map_d"@[0] == 'm' && "map_d"@[1] == 'a' && "map_d"@[2] == 'p' && "map_d"@[3] == '_' && "map_d"@[4] == 'd');
    assert("decal"@.len() == 5 && "decal"@[0] == 'd' && "decal"@[1] == 'e' && "decal"@[2] == 'c' && "decal"@[3] == 'a' && "decal"@[4] == 'l');
}

/// A color statement sets the color of its own kind to the three numbers
/// that follow, red, green and blue in the order written, and changes
/// nothing else.
pub proof fn law_material_color_statement(
    m: MaterialModel,
    r: Seq<char>,
    g: Seq<char>,
    b: Seq<char>,
    rest: Seq<Seq<char>>,
)
    requires
        is_float_literal(r),
        is_float_literal(g),
        is_float_literal(b),
    ensures
        material_statement(m, seq!["Ka"@, r, g, b] + rest) == Parsed::<MaterialModel, ErrorKind>::Done(
            MaterialModel { color_ambient: ColorModel { r: r, g: g, b: b }, ..m },
            4,
        ),
        material_statement(m, seq!["Kd"@, r, g, b] + rest) == Parsed::<MaterialModel, ErrorKind>::Done(
            MaterialModel { color_diffuse: ColorModel { r: r, g: g, b: b }, ..m },
            4,
        ),
        material_statement(m, seq!["Ks"@, r, g, b] + rest) == Parsed::<MaterialModel, ErrorKind>::Done(
            MaterialModel { color_specular: ColorModel { r: r, g: g, b: b }, ..m },
            4,
        ),
        material_statement(m, seq!["Ke"@, r, g, b] + rest) == Parsed::<MaterialModel, ErrorKind>::Done(
            MaterialModel { color_emissive: ColorModel { r: r, g: g, b: b }, ..m },
            4,
        ),
{
    lemma_material_tags();
    assert forall|tag: Seq<char>| #![auto] (seq![tag, r, g, b] + rest)[0] == tag && (seq![tag, r, g, b] + rest).skip(
        1,
    ) =~= seq![r, g, b] + rest by {
    }
    let c = seq![r, g, b] + rest;
    assert(c[0] == r && c.skip(1)[0] == g && c.skip(2)[0] == b);
    assert(c[1] == g && c[2] == b);
}

/// A scalar statement sets the scalar of its own kind to the number that
/// follows, and changes nothing else.
pub proof fn law_material_scalar_statement(m: MaterialModel, x: Seq<char>, rest: Seq<Seq<char>>)
    requires
        is_float_literal(x),
    ensures
        material_statement(m, seq!["d"@, x] + rest) == Parsed::<MaterialModel, ErrorKind>::Done(
            MaterialModel { dissolve: x, ..m },
            2,
        ),
        material_statement(m, seq!["Ns"@, x] + rest) == Parsed::<MaterialModel, ErrorKind>::Done(
            MaterialModel { specular_exponent: x, ..m },
            2,
        ),
        material_statement(m, seq!["Ni"@, x] + rest) == Parsed::<MaterialModel, ErrorKind>::Done(
            MaterialModel { optical_density: Some(x), ..m },
            2,
        ),
{
    lemma_material_tags();
    assert forall|tag: Seq<char>| #![auto] (seq![tag, x] + rest)[0] == tag && (seq![tag, x] + rest).skip(1)[0] == x by {
    }
}

/// An `illum` statement with 0, 1 or 2 sets the illumination model to
/// ambient, ambient and diffuse, or ambient, diffuse and specular, and
/// changes nothing else.
pub proof fn law_material_illumination_statement(m: MaterialModel, k: Seq<char>, rest: Seq<Seq<char>>)
    ensures
        spec_parse_usize(k) == Some(0usize) ==> material_statement(m, seq!["illum"@, k] + rest) == Parsed::<
            MaterialModel,
            ErrorKind,
        >::Done(MaterialModel { illumination_model: IlluminationModel::Ambient, ..m }, 2),
        spec_parse_usize(k) == Some(1usize) ==> material_statement(m, seq!["illum"@, k] + rest) == Parsed::<
            MaterialModel,
            ErrorKind,
        >::Done(MaterialModel { illumination_model: IlluminationModel::AmbientDiffuse, ..m }, 2),
        spec_parse_usize(k) == Some(2usize) ==> material_statement(m, seq!["illum"@, k] + rest) == Parsed::<
            MaterialModel,
            ErrorKind,
        >::Done(MaterialModel { illumination_model: IlluminationModel::AmbientDiffuseSpecular, ..m }, 2),
{
    lemma_material_tags();
    let ts = seq!["illum"@, k] + rest;
    assert(ts[0] == "illum"@ && ts.skip(1)[0] == k);
}

/// A texture map statement sets the map of its own kind to the file name
/// that follows, and changes nothing else.
pub proof fn law_material_map_statement(m: MaterialModel, f: Seq<char>, rest: Seq<Seq<char>>)
    ensures
        material_statement(m, seq!["map_Ka"@, f] + rest) == Parsed::<MaterialModel, ErrorKind>::Done(
            MaterialModel { map_ambient: Some(f), ..m },
            2,
        ),
        material_statement(m, seq!["map_Kd"@, f] + rest) == Parsed::<MaterialModel, ErrorKind>::Done(
            MaterialModel { map_diffuse: Some(f), ..m },
            2,
        ),
        material_statement(m, seq!["map_Ks"@, f] + rest) == Parsed::<MaterialModel, ErrorKind>::Done(
            MaterialModel { map_specular: Some(f), ..m },
            2,
        ),
        material_statement(m, seq!["map_Ke"@, f] + rest) == Parsed::<MaterialModel, ErrorKind>::Done(
            MaterialModel { map_emissive: Some(f), ..m },
            2,
        ),
        material_statement(m, seq!["map_Ns"@, f] + rest) == Parsed::<MaterialModel, ErrorKind>::Done(
            MaterialModel { map_specular_exponent: Some(f), ..m },
            2,
        ),
        material_statement(m, seq!["map_Bump"@, f] + rest) == Parsed::<MaterialModel, ErrorKind>::Done(
            MaterialModel { map_bump: Some(f), ..m },
            2,
        ),
        material_statement(m, seq!["bump"@, f] + rest) == Parsed::<MaterialModel, ErrorKind>::Done(
            MaterialModel { map_bump: Some(f), ..m },
            2,
        ),
        material_statement(m, seq!["disp"@, f] + rest) == Parsed::<MaterialModel, ErrorKind>::Done(
            MaterialModel { map_displacement: Some(f), ..m },
            2,
        ),
        material_statement(m, seq!["map_d"@, f] + rest) == Parsed::<MaterialModel, ErrorKind>::Done(
            MaterialModel { map_dissolve: Some(f), ..m },
            2,
        ),
        material_statement(m, seq!["decal"@, f] + rest) == Parsed::<MaterialModel, ErrorKind>::Done(
            MaterialModel { map_decal: Some(f), ..m },
            2,
        ),
{
    lemma_material_tags();
    assert forall|tag: Seq<char>| #![auto] (seq![tag, f] + rest)[0] == tag && (seq![tag, f] + rest)[1] == f
        && (seq![tag, f] + rest).len() > 1 by {
    }
}

/// The statement tags of an object body are distinct.
proof fn lemma_object_tags()
    ensures
        "v"@ != "g"@,
        "v"@ != "s"@,
        "v"@ != "usemtl"@,
        "vt"@ != "g"@,
        "vt"@ != "s"@,
        "vt"@ != "usemtl"@,
        "vt"@ != "v"@,
        "vn"@ != "g"@,
        "vn"@ != "s"@,
        "vn"@ != "usemtl"@,
        "vn"@ != "v"@,
        "vn"@ != "vt"@,
{
    reveal_strlit("v");
    reveal_strlit("vt");
    reveal_strlit("vn");
    reveal_strlit("g");
    reveal_strlit("s");
    reveal_strlit("usemtl");
    assert("v"@.len() == 1 && "v"@[0] == 'v');
    assert("vt"@.len() == 2 && "vt"@[1] == 't');
    assert("vn"@.len() == 2 && "vn"@[1] == 'n');
    assert("g"@.len() == 1 && "g"@[0] == 'g');
    assert("s"@.len() == 1 && "s"@[0] == 's');
    assert("usemtl"@.len() == 6);
}

/// In an object's body, a vertex, texture vertex or normal statement adds
/// what it reads to the end of the set of its own kind, and changes
/// nothing else.
pub proof fn law_vertex_data_statements(st: crate::obj::ObjState, ts: Seq<Seq<char>>)
    requires
        ts.len() > 0,
    ensures
        ts[0] == "v"@ ==> (crate::obj::spec_parse_vertex(ts) matches Parsed::Done(x, n) ==> crate::obj::object_statement(
            st,
            ts,
        ) == Parsed::<crate::obj::ObjState, crate::obj::ErrorKind>::Done(
            crate::obj::ObjState { vertices: st.vertices.push(x), ..st },
            n,
        )),
        ts[0] == "vt"@ ==> (crate::obj::spec_parse_texture_vertex(ts) matches Parsed::Done(x, n)
            ==> crate::obj::object_statement(st, ts) == Parsed::<crate::obj::ObjState, crate::obj::ErrorKind>::Done(
            crate::obj::ObjState { texture_vertices: st.texture_vertices.push(x), ..st },
            n,
        )),
        ts[0] == "vn"@ ==> (crate::obj::spec_parse_normal_vertex(ts) matches Parsed::Done(x, n)
            ==> crate::obj::object_statement(st, ts) == Parsed::<crate::obj::ObjState, crate::obj::ErrorKind>::Done(
            crate::obj::ObjState { normal_vertices: st.normal_vertices.push(x), ..st },
            n,
        )),
{
    lemma_object_tags();
}

/// The same for the one-based parser.
pub proof fn law_vertex_data_statements_one(st: crate::parser::ObjState, ts: Seq<Seq<char>>)
    requires
        ts.len() > 0,
    ensures
        ts[0] == "v"@ ==> (crate::parser::spec_parse_vertex(ts) matches Parsed::Done(x, n)
            ==> crate::parser::object_statement(st, ts) == Parsed::<crate::parser::ObjState, ()>::Done(
            crate::parser::ObjState { vertices: st.vertices.push(x), ..st },
            n,
        )),
        ts[0] == "vt"@ ==> (crate::parser::spec_parse_texture_vertex(ts) matches Parsed::Done(x, n)
            ==> crate::parser::object_statement(st, ts) == Parsed::<crate::parser::ObjState, ()>::Done(
            crate::parser::ObjState { texture_vertices: st.texture_vertices.push(x), ..st },
            n,
        )),
        ts[0] == "vn"@ ==> (crate::parser::spec_parse_normal_vertex(ts) matches Parsed::Done(x, n)
            ==> crate::parser::object_statement(st, ts) == Parsed::<crate::parser::ObjState, ()>::Done(
            crate::parser::ObjState { normal_vertices: st.normal_vertices.push(x), ..st },
            n,
        )),
{
    lemma_object_tags();
}

} // verus!

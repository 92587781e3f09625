//! Reading back composed text: what the parser makes of the tokens of
//! each statement the text compositor writes.
use vstd::prelude::*;
use crate::lexer::{lemma_after_after, lemma_token_bounds, tokenize, Parsed};
use crate::obj::{leading_newlines, lemma_leading_newlines_bound, NormalVertexModel, TextureVertexModel, VertexModel};
use crate::parser::{
    apply_smoothing, element_count_exact, element_ranges, finished, group_rows, initial_state, lemma_chained_bounds,
    lemma_finished_object_wf, lemma_object_loop_step, lemma_objects_step, lemma_statement_wf,
    lemma_vtn_text_read_back, object_loop, object_statement, range_seq, spec_objects, spec_parse,
    spec_parse_elements, spec_parse_object, spec_parse_vtn_index, spec_vtn_run, state_wf, vtn_of, ObjState, Step,
};
use crate::object::{same_form, Element, ObjectModel, ShapeEntryModel, VTNIndex};
use crate::compose::{
    entry_group_names, instructions, run_nameable, run_statements, runs_of, same_grouping, text_composable,
    text_objects, vtn_text, GroupingModel,
};
use crate::roundtrip::{
    block_tokens, blocks_tokens, body_tokens, chunks_from, count_tokens, element_lines_tokens, element_tokens, is_word,
    lemma_chunks_split, lemma_index_word, lemma_peel_word, lemma_tokens_text_objects, normal_vertex_lines_tokens,
    normal_vertex_tokens, normal_vertex_words, statement_tokens, statements_tokens, text_words,
    texture_vertex_lines_tokens, texture_vertex_tokens, texture_vertex_words, vertex_lines_tokens, vertex_tokens,
    vertex_words,
};
use crate::text::{
    all_digits, decimal_text, is_digit_char, is_float_literal, is_newline_char, lemma_decimal_text,
    lemma_parse_decimal_u32,
};

verus! {

/// The tags and keywords the parser tells apart are distinct.
proof fn lemma_tags()
    ensures
        "\n"@ != "o"@,
        "\n"@ != "g"@,
        "\n"@ != "s"@,
        "\n"@ != "v"@,
        "\n"@ != "vt"@,
        "\n"@ != "vn"@,
        "\n"@ != "p"@,
        "\n"@ != "l"@,
        "\n"@ != "f"@,
        "\n"@ != "off"@,
        "o"@ != "g"@,
        "o"@ != "s"@,
        "o"@ != "v"@,
        "o"@ != "vt"@,
        "o"@ != "vn"@,
        "o"@ != "p"@,
        "o"@ != "l"@,
        "o"@ != "f"@,
        "o"@ != "off"@,
        "g"@ != "s"@,
        "g"@ != "v"@,
        "g"@ != "vt"@,
        "g"@ != "vn"@,
        "g"@ != "p"@,
        "g"@ != "l"@,
        "g"@ != "f"@,
        "g"@ != "off"@,
        "s"@ != "v"@,
        "s"@ != "vt"@,
        "s"@ != "vn"@,
        "s"@ != "p"@,
        "s"@ != "l"@,
        "s"@ != "f"@,
        "s"@ != "off"@,
        "v"@ != "vt"@,
        "v"@ != "vn"@,
        "v"@ != "p"@,
        "v"@ != "l"@,
        "v"@ != "f"@,
        "v"@ != "off"@,
        "vt"@ != "vn"@,
        "vt"@ != "p"@,
        "vt"@ != "l"@,
        "vt"@ != "f"@,
        "vt"@ != "off"@,
        "vn"@ != "p"@,
        "vn"@ != "l"@,
        "vn"@ != "f"@,
        "vn"@ != "off"@,
        "p"@ != "l"@,
        "p"@ != "f"@,
        "p"@ != "off"@,
        "l"@ != "f"@,
        "l"@ != "off"@,
        "f"@ != "off"@,
{
    reveal_strlit("\n");
    reveal_strlit("o");
    reveal_strlit("g");
    reveal_strlit("s");
    reveal_strlit("v");
    reveal_strlit("vt");
    reveal_strlit("vn");
    reveal_strlit("p");
    reveal_strlit("l");
    reveal_strlit("f");
    reveal_strlit("off");
    assert("\n"@.len() == 1 && "\n"@[0] == '\n');
    assert("o"@.len() == 1 && "o"@[0] == 'o');
    assert("g"@.len() == 1 && "g"@[0] == 'g');
    assert("s"@.len() == 1 && "s"@[0] == 's');
    assert("v"@.len() == 1 && "v"@[0] == 'v');
    assert("vt"@.len() == 2 && "vt"@[0] == 'v' && "vt"@[1] == 't');
    assert("vn"@.len() == 2 && "vn"@[0] == 'v' && "vn"@[1] == 'n');
    assert("p"@.len() == 1 && "p"@[0] == 'p');
    assert("l"@.len() == 1 && "l"@[0] == 'l');
    assert("f"@.len() == 1 && "f"@[0] == 'f');
    assert("off"@.len() == 3 && "off"@[0] == 'o');
}

/// A word is no line feed.
proof fn lemma_word_not_newline(w: Seq<char>)
    requires
        is_word(w),
    ensures
        w != "\n"@,
{
    reveal_strlit("\n");
    assert(!is_newline_char(w[0]));
}

/// A line feed is no number.
proof fn lemma_newline_not_float()
    ensures
        !is_float_literal("\n"@),
{
    reveal_strlit("\n");
    let s = "\n"@;
    assert(crate::text::strip_sign(s) == s);
    assert(crate::text::digit_run(s, 0) == 0);
}

/// What the parser's loop over the statements of an object's body makes
/// of the tokens `ts`, from the state `st`.
#[verifier::opaque]
pub open spec fn body_outcome(st: ObjState, ts: Seq<Seq<char>>) -> Step<ObjState> {
    object_loop(st, ts)
}

/// A line feed in the body of an object changes nothing.
proof fn lemma_loop_newline(st: ObjState, r: Seq<Seq<char>>)
    ensures
        body_outcome(st, seq!["\n"@] + r) == body_outcome(st, r).after(1),
{
    reveal(body_outcome);
    let ts = seq!["\n"@] + r;
    lemma_tags();
    assert(ts[0] == "\n"@);
    assert(ts.drop_first() =~= r);
    lemma_object_loop_step(st, ts);
    let l = leading_newlines(r);
    lemma_leading_newlines_bound(r);
    assert(ts.skip((1 + l) as int) =~= r.skip(l as int));
    if l > 0 {
        lemma_object_loop_step(st, r);
        lemma_after_after(body_outcome(st, r.skip(l as int)), l, 1);
    } else {
        assert(r.skip(0) =~= r);
    }
}

/// Line feeds at the front of the body change nothing.
proof fn lemma_loop_leading_newlines(st: ObjState, ts: Seq<Seq<char>>)
    ensures
        body_outcome(st, ts) == body_outcome(st, ts.skip(leading_newlines(ts) as int)).after(
            leading_newlines(ts),
        ),
    decreases ts.len(),
{
    reveal(body_outcome);
    if ts.len() > 0 && ts[0] == "\n"@ {
        let r = ts.drop_first();
        assert(ts =~= seq!["\n"@] + r);
        lemma_loop_newline(st, r);
        lemma_loop_leading_newlines(st, r);
        let l = leading_newlines(r);
        lemma_leading_newlines_bound(r);
        assert(ts.skip((1 + l) as int) =~= r.skip(l as int));
        lemma_after_after(body_outcome(st, r.skip(l as int)), l, 1);
    } else {
        assert(ts.skip(0) =~= ts);
    }
}

/// A coordinate as the compositor writes it and the parser reads it: one
/// token, and a number.
pub open spec fn coordinate(t: Seq<char>) -> bool {
    is_word(t) && is_float_literal(t)
}

/// A vertex reads back from its `v` statement: its coordinates are
/// numbers, and a weight left out is the unit weight.
pub open spec fn vertex_readable(v: VertexModel, unit_w: bool) -> bool {
    &&& coordinate(v.x) && coordinate(v.y) && coordinate(v.z)
    &&& if unit_w {
        v.w == "1"@
    } else {
        coordinate(v.w)
    }
}

/// A texture vertex reads back from its `vt` statement: its coordinates are
/// numbers.
pub open spec fn texture_vertex_readable(v: TextureVertexModel) -> bool {
    coordinate(v.u) && coordinate(v.v) && coordinate(v.w)
}

/// A normal reads back from its `vn` statement: its coordinates are numbers.
pub open spec fn normal_vertex_readable(v: NormalVertexModel) -> bool {
    coordinate(v.i) && coordinate(v.j) && coordinate(v.k)
}

proof fn lemma_loop_count(st: ObjState, r: Seq<Seq<char>>)
    ensures
        body_outcome(st, count_tokens() + r) == body_outcome(st, r).after(2),
{
    assert(count_tokens() + r =~= seq!["\n"@] + (seq!["\n"@] + r));
    lemma_loop_newline(st, seq!["\n"@] + r);
    lemma_loop_newline(st, r);
    lemma_after_after(body_outcome(st, r), 1, 1);
}

#[verifier::rlimit(80)]
#[verifier::spinoff_prover]
proof fn lemma_loop_vertex(st: ObjState, v: VertexModel, u: bool, r: Seq<Seq<char>>)
    requires
        vertex_readable(v, u),
    ensures
        body_outcome(st, vertex_tokens(v, u) + r) == body_outcome(
            ObjState { vertices: st.vertices.push(v), ..st },
            r,
        ).after(vertex_tokens(v, u).len()),
{
    reveal(body_outcome);
    let ts = vertex_tokens(v, u) + r;
    let st2 = ObjState { vertices: st.vertices.push(v), ..st };
    lemma_tags();
    lemma_newline_not_float();
    reveal_strlit("1");
    assert(ts[0] == "v"@);
    assert(ts.skip(1)[0] == v.x && ts.skip(2)[0] == v.y && ts.skip(3)[0] == v.z);
    assert(ts[1] == v.x && ts[2] == v.y && ts[3] == v.z);
    lemma_object_loop_step(st, ts);
    let n: nat = if u {
        4
    } else {
        5
    };
    if u {
        assert(ts.skip(4)[0] == "\n"@);
    } else {
        assert(ts.skip(4)[0] == v.w);
    }
    assert(ts.skip(n as int) =~= seq!["\n"@] + r);
    lemma_loop_newline(st2, r);
    lemma_after_after(body_outcome(st2, r), 1, n);
}

#[verifier::rlimit(80)]
#[verifier::spinoff_prover]
proof fn lemma_loop_texture_vertex(st: ObjState, v: TextureVertexModel, r: Seq<Seq<char>>)
    requires
        texture_vertex_readable(v),
    ensures
        body_outcome(st, texture_vertex_tokens(v) + r) == body_outcome(
            ObjState { texture_vertices: st.texture_vertices.push(v), ..st },
            r,
        ).after(5),
{
    reveal(body_outcome);
    let ts = texture_vertex_tokens(v) + r;
    let st2 = ObjState { texture_vertices: st.texture_vertices.push(v), ..st };
    lemma_tags();
    assert(ts[0] == "vt"@);
    assert(ts.skip(1)[0] == v.u && ts.skip(2)[0] == v.v && ts.skip(3)[0] == v.w);
    assert(ts[1] == v.u);
    lemma_object_loop_step(st, ts);
    assert(ts.skip(4) =~= seq!["\n"@] + r);
    lemma_loop_newline(st2, r);
    lemma_after_after(body_outcome(st2, r), 1, 4);
}

#[verifier::rlimit(80)]
#[verifier::spinoff_prover]
proof fn lemma_loop_normal_vertex(st: ObjState, v: NormalVertexModel, r: Seq<Seq<char>>)
    requires
        normal_vertex_readable(v),
    ensures
        body_outcome(st, normal_vertex_tokens(v) + r) == body_outcome(
            ObjState { normal_vertices: st.normal_vertices.push(v), ..st },
            r,
        ).after(5),
{
    reveal(body_outcome);
    let ts = normal_vertex_tokens(v) + r;
    let st2 = ObjState { normal_vertices: st.normal_vertices.push(v), ..st };
    lemma_tags();
    assert(ts[0] == "vn"@);
    assert(ts.skip(1)[0] == v.i && ts.skip(2)[0] == v.j && ts.skip(3)[0] == v.k);
    assert(ts[1] == v.i && ts[2] == v.j && ts[3] == v.k);
    lemma_object_loop_step(st, ts);
    assert(ts.skip(4) =~= seq!["\n"@] + r);
    lemma_loop_newline(st2, r);
    lemma_after_after(body_outcome(st2, r), 1, 4);
}

proof fn lemma_loop_vertices(st: ObjState, vs: Seq<VertexModel>, w: Seq<bool>, r: Seq<Seq<char>>)
    requires
        vs.len() <= w.len(),
        forall|j: int| 0 <= j < vs.len() ==> vertex_readable(#[trigger] vs[j], w[j]),
    ensures
        body_outcome(st, vertex_lines_tokens(vs, w) + r) == body_outcome(
            ObjState { vertices: st.vertices + vs, ..st },
            r,
        ).after(vertex_lines_tokens(vs, w).len()),
    decreases vs.len(),
{
    if vs.len() == 0 {
        assert(vertex_lines_tokens(vs, w) + r =~= r);
        assert(st.vertices + vs =~= st.vertices);
        assert(ObjState { vertices: st.vertices + vs, ..st } == st);
    } else {
        let front = vs.drop_last();
        let a = vertex_lines_tokens(front, w);
        let b = vertex_tokens(vs.last(), w[vs.len() - 1]);
        assert(vertex_lines_tokens(vs, w) + r =~= a + (b + r));
        assert forall|j: int| 0 <= j < front.len() implies vertex_readable(#[trigger] front[j], w[j]) by {
            assert(front[j] == vs[j]);
        }
        assert(vertex_readable(vs[vs.len() - 1], w[vs.len() - 1]));
        lemma_loop_vertices(st, front, w, b + r);
        let st1 = ObjState { vertices: st.vertices + front, ..st };
        lemma_loop_vertex(st1, vs.last(), w[vs.len() - 1], r);
        assert(st1.vertices.push(vs.last()) =~= st.vertices + vs);
        lemma_after_after(body_outcome(ObjState { vertices: st.vertices + vs, ..st }, r), b.len(), a.len());
    }
}

proof fn lemma_loop_texture_vertices(st: ObjState, vs: Seq<TextureVertexModel>, r: Seq<Seq<char>>)
    requires
        forall|j: int| 0 <= j < vs.len() ==> texture_vertex_readable(#[trigger] vs[j]),
    ensures
        body_outcome(st, texture_vertex_lines_tokens(vs) + r) == body_outcome(
            ObjState { texture_vertices: st.texture_vertices + vs, ..st },
            r,
        ).after(texture_vertex_lines_tokens(vs).len()),
    decreases vs.len(),
{
    if vs.len() == 0 {
        assert(texture_vertex_lines_tokens(vs) + r =~= r);
        assert(st.texture_vertices + vs =~= st.texture_vertices);
        assert(ObjState { texture_vertices: st.texture_vertices + vs, ..st } == st);
    } else {
        let front = vs.drop_last();
        let a = texture_vertex_lines_tokens(front);
        let b = texture_vertex_tokens(vs.last());
        assert(texture_vertex_lines_tokens(vs) + r =~= a + (b + r));
        assert forall|j: int| 0 <= j < front.len() implies texture_vertex_readable(#[trigger] front[j]) by {
            assert(front[j] == vs[j]);
        }
        assert(texture_vertex_readable(vs[vs.len() - 1]));
        lemma_loop_texture_vertices(st, front, b + r);
        let st1 = ObjState { texture_vertices: st.texture_vertices + front, ..st };
        lemma_loop_texture_vertex(st1, vs.last(), r);
        assert(st1.texture_vertices.push(vs.last()) =~= st.texture_vertices + vs);
        lemma_after_after(
            body_outcome(ObjState { texture_vertices: st.texture_vertices + vs, ..st }, r),
            b.len(),
            a.len(),
        );
    }
}

proof fn lemma_loop_normal_vertices(st: ObjState, vs: Seq<NormalVertexModel>, r: Seq<Seq<char>>)
    requires
        forall|j: int| 0 <= j < vs.len() ==> normal_vertex_readable(#[trigger] vs[j]),
    ensures
        body_outcome(st, normal_vertex_lines_tokens(vs) + r) == body_outcome(
            ObjState { normal_vertices: st.normal_vertices + vs, ..st },
            r,
        ).after(normal_vertex_lines_tokens(vs).len()),
    decreases vs.len(),
{
    if vs.len() == 0 {
        assert(normal_vertex_lines_tokens(vs) + r =~= r);
        assert(st.normal_vertices + vs =~= st.normal_vertices);
        assert(ObjState { normal_vertices: st.normal_vertices + vs, ..st } == st);
    } else {
        let front = vs.drop_last();
        let a = normal_vertex_lines_tokens(front);
        let b = normal_vertex_tokens(vs.last());
        assert(normal_vertex_lines_tokens(vs) + r =~= a + (b + r));
        assert forall|j: int| 0 <= j < front.len() implies normal_vertex_readable(#[trigger] front[j]) by {
            assert(front[j] == vs[j]);
        }
        assert(normal_vertex_readable(vs[vs.len() - 1]));
        lemma_loop_normal_vertices(st, front, b + r);
        let st1 = ObjState { normal_vertices: st.normal_vertices + front, ..st };
        lemma_loop_normal_vertex(st1, vs.last(), r);
        assert(st1.normal_vertices.push(vs.last()) =~= st.normal_vertices + vs);
        lemma_after_after(
            body_outcome(ObjState { normal_vertices: st.normal_vertices + vs, ..st }, r),
            b.len(),
            a.len(),
        );
    }
}

/// The state a statement of an object's body leaves, where it succeeds.
pub open spec fn after_statement(st: ObjState, ts: Seq<Seq<char>>) -> ObjState {
    match object_statement(st, ts) {
        Parsed::Done(st2, _) => st2,
        _ => st,
    }
}

/// The shape entries a parse state describes once its open ranges close.
#[verifier::opaque]
pub open spec fn state_rows(st: ObjState) -> Option<Seq<ShapeEntryModel>> {
    apply_smoothing(group_rows(finished(st).group_entry_table), finished(st).smoothing_group_entry_table)
}

proof fn lemma_body_step(st: ObjState, ts: Seq<Seq<char>>, n: nat)
    requires
        ts.len() > 0,
        ts[0] != "o"@,
        object_statement(st, ts) matches Parsed::Done(_, m) && m == n,
        0 < n <= ts.len(),
    ensures
        body_outcome(st, ts) == body_outcome(after_statement(st, ts), ts.skip(n as int)).after(n),
{
    reveal(body_outcome);
    lemma_object_loop_step(st, ts);
}

proof fn lemma_names_until_newline(ns: Seq<Seq<char>>, r: Seq<Seq<char>>)
    requires
        forall|j: int| 0 <= j < ns.len() ==> is_word(#[trigger] ns[j]),
    ensures
        crate::obj::names_until_newline(ns + seq!["\n"@] + r) == ns,
        crate::obj::names_consumed(ns + seq!["\n"@] + r) == ns.len() + 1,
    decreases ns.len(),
{
    let ts = ns + seq!["\n"@] + r;
    if ns.len() == 0 {
        assert(ts[0] == "\n"@);
    } else {
        lemma_word_not_newline(ns[0]);
        assert(ts[0] == ns[0]);
        let rest = ns.drop_first();
        assert forall|j: int| 0 <= j < rest.len() implies is_word(#[trigger] rest[j]) by {
            assert(rest[j] == ns[j + 1]);
        }
        lemma_names_until_newline(rest, r);
        assert(ts.drop_first() =~= rest + seq!["\n"@] + r);
        assert(seq![ns[0]] + rest =~= ns);
    }
}

proof fn lemma_group_rows_push_empty(t: Seq<((u32, u32), (u32, u32))>, x: ((u32, u32), (u32, u32)))
    requires
        x.0.0 == x.0.1,
    ensures
        group_rows(t.push(x)) == group_rows(t),
{
    assert(t.push(x).drop_last() =~= t);
    assert(range_seq(x.0.0, x.0.1) =~= Seq::<u32>::empty());
    assert(group_rows(t.push(x)) =~= group_rows(t));
}

proof fn lemma_apply_smoothing_push_empty(rows: Seq<ShapeEntryModel>, t: Seq<((u32, u32), u32)>, x: ((u32, u32), u32))
    requires
        x.0.0 == x.0.1,
    ensures
        apply_smoothing(rows, t.push(x)) == apply_smoothing(rows, t),
{
    assert(t.push(x).drop_last() =~= t);
    if let Some(r) = apply_smoothing(rows, t) {
        let r2 = apply_smoothing(rows, t.push(x))->0;
        assert(r2 =~= r);
    }
}

proof fn lemma_apply_smoothing_len(rows: Seq<ShapeEntryModel>, t: Seq<((u32, u32), u32)>)
    ensures
        apply_smoothing(rows, t) matches Some(r) ==> r.len() == rows.len(),
    decreases t.len(),
{
    if t.len() > 0 {
        lemma_apply_smoothing_len(rows, t.drop_last());
    }
}

/// A row added after every range of the table keeps its smoothing group.
proof fn lemma_apply_smoothing_push_row(rows: Seq<ShapeEntryModel>, t: Seq<((u32, u32), u32)>, x: ShapeEntryModel)
    requires
        forall|k: int| 0 <= k < t.len() ==> (#[trigger] t[k]).0.1 <= rows.len() + 1,
    ensures
        apply_smoothing(rows.push(x), t) == match apply_smoothing(rows, t) {
            Some(r) => Some(r.push(x)),
            None => None,
        },
    decreases t.len(),
{
    if t.len() > 0 {
        let front = t.drop_last();
        assert forall|k: int| 0 <= k < front.len() implies (#[trigger] front[k]).0.1 <= rows.len() + 1 by {
            assert(front[k] == t[k]);
        }
        lemma_apply_smoothing_push_row(rows, front, x);
        lemma_apply_smoothing_len(rows, front);
        let e = t.last();
        assert(e == t[t.len() - 1]);
        if let Some(r) = apply_smoothing(rows, front) {
            let r1 = r.push(x);
            if !(e.0.0 < e.0.1 && (e.0.0 == 0 || e.0.1 > r.len() + 1)) {
                let a = Seq::new(
                    r1.len(),
                    |j: int|
                        if e.0.0 <= j + 1 < e.0.1 {
                            ShapeEntryModel { smoothing_group: e.1, ..r1[j] }
                        } else {
                            r1[j]
                        },
                );
                let b = Seq::new(
                    r.len(),
                    |j: int|
                        if e.0.0 <= j + 1 < e.0.1 {
                            ShapeEntryModel { smoothing_group: e.1, ..r[j] }
                        } else {
                            r[j]
                        },
                );
                assert(a =~= b.push(x));
            }
        }
    }
}

/// An element in a state with a group and a smoothing group.
pub open spec fn with_element(st: ObjState, e: Element) -> ObjState {
    ObjState {
        elements: st.elements.push(e),
        max_element_group_index: (st.max_element_group_index + 1) as u32,
        max_element_smoothing_group_index: (st.max_element_smoothing_group_index + 1) as u32,
        ..st
    }
}

/// The shape entry of the next element of a state.
pub open spec fn next_row(st: ObjState) -> ShapeEntryModel {
    ShapeEntryModel {
        element: st.max_element_group_index,
        groups: range_seq(st.min_group_index, st.max_group_index),
        smoothing_group: st.smoothing_group_index,
    }
}

#[verifier::rlimit(40)]
#[verifier::spinoff_prover]
proof fn lemma_rows_element(st: ObjState, e: Element)
    requires
        state_wf(st),
        st.groups.len() > 0,
        st.smoothing_groups.len() > 0,
        st.elements.len() + 2 <= u32::MAX,
    ensures
        state_rows(with_element(st, e)) == match state_rows(st) {
            Some(rs) => Some(rs.push(next_row(st))),
            None => None,
        },
{
    reveal(state_rows);
    let st2 = with_element(st, e);
    let f1 = finished(st);
    let f2 = finished(st2);
    let x1 = f1.group_entry_table.last();
    let x2 = f2.group_entry_table.last();
    assert(f1.group_entry_table.drop_last() =~= st.group_entry_table);
    assert(f2.group_entry_table.drop_last() =~= st.group_entry_table);
    assert(range_seq(x2.0.0, x2.0.1) =~= range_seq(x1.0.0, x1.0.1).push(st.max_element_group_index));
    let rows1 = group_rows(f1.group_entry_table);
    let row = ShapeEntryModel {
        element: st.max_element_group_index,
        groups: range_seq(st.min_group_index, st.max_group_index),
        smoothing_group: 1,
    };
    assert(group_rows(f2.group_entry_table) =~= rows1.push(row));
    lemma_finished_object_wf(Seq::empty(), st);
    lemma_apply_smoothing_len(rows1, f1.smoothing_group_entry_table);
    assert(rows1.len() == st.elements.len());
    let t = st.smoothing_group_entry_table;
    lemma_chained_bounds(element_ranges(t), 1, st.min_element_smoothing_group_index as nat);
    assert forall|k: int| 0 <= k < t.len() implies (#[trigger] t[k]).0.1 <= rows1.len() + 1 by {
        assert(element_ranges(t)[k] == t[k].0);
    }
    lemma_apply_smoothing_push_row(rows1, t, row);
    lemma_apply_smoothing_len(rows1, t);
    let y1 = f1.smoothing_group_entry_table.last();
    let y2 = f2.smoothing_group_entry_table.last();
    assert(f1.smoothing_group_entry_table.drop_last() =~= t);
    assert(f2.smoothing_group_entry_table.drop_last() =~= t);
    if let Some(r) = apply_smoothing(rows1, t) {
        let r1 = r.push(row);
        let a = Seq::new(
            r1.len(),
            |j: int|
                if y2.0.0 <= j + 1 < y2.0.1 {
                    ShapeEntryModel { smoothing_group: y2.1, ..r1[j] }
                } else {
                    r1[j]
                },
        );
        let b = Seq::new(
            r.len(),
            |j: int|
                if y1.0.0 <= j + 1 < y1.0.1 {
                    ShapeEntryModel { smoothing_group: y1.1, ..r[j] }
                } else {
                    r[j]
                },
        );
        assert(a =~= b.push(next_row(st)));
    }
}

/// A `g` statement, in a state that is well formed.
#[verifier::rlimit(60)]
#[verifier::spinoff_prover]
proof fn lemma_loop_group_statement(st: ObjState, names: Seq<Seq<char>>, r: Seq<Seq<char>>)
    requires
        state_wf(st),
        names.len() > 0,
        forall|j: int| 0 <= j < names.len() ==> is_word(#[trigger] names[j]),
        st.groups.len() + names.len() + 1 <= u32::MAX,
    ensures
        ({
            let ts = statement_tokens(GroupingModel::G(names)) + r;
            let st2 = after_statement(st, ts);
            &&& body_outcome(st, ts) == body_outcome(st2, r).after(names.len() + 2)
            &&& state_wf(st2)
            &&& state_rows(st2) == state_rows(st)
            &&& st2.groups == st.groups + names
            &&& st2.min_group_index == (if st.groups.len() == 0 {
                1
            } else {
                st.max_group_index
            })
            &&& st2.max_group_index == st2.min_group_index + names.len()
            &&& st2.vertices == st.vertices
            &&& st2.texture_vertices == st.texture_vertices
            &&& st2.normal_vertices == st.normal_vertices
            &&& st2.elements == st.elements
            &&& st2.smoothing_groups == st.smoothing_groups
            &&& st2.smoothing_group_index == st.smoothing_group_index
        }),
{
    reveal(state_rows);
    let ts = statement_tokens(GroupingModel::G(names)) + r;
    lemma_tags();
    assert(ts[0] == "g"@);
    assert(ts.skip(1) =~= names + seq!["\n"@] + r);
    lemma_names_until_newline(names, r);
    let k = names.len();
    assert(ts.skip((k + 2) as int) =~= r);
    let st2 = after_statement(st, ts);
    lemma_body_step(st, ts, k + 2);
    assert(element_count_exact(ts));
    lemma_statement_wf(st, ts);
    if st.groups.len() > 0 {
        let x = finished(st2).group_entry_table.last();
        assert(finished(st2).group_entry_table == st2.group_entry_table.push(x));
        lemma_group_rows_push_empty(st2.group_entry_table, x);
    } else {
        let x1 = finished(st).group_entry_table.last();
        let x2 = finished(st2).group_entry_table.last();
        assert(st.group_entry_table =~= Seq::<((u32, u32), (u32, u32))>::empty());
        assert(finished(st).group_entry_table == st.group_entry_table.push(x1));
        assert(finished(st2).group_entry_table == st.group_entry_table.push(x2));
        lemma_group_rows_push_empty(st.group_entry_table, x1);
        lemma_group_rows_push_empty(st.group_entry_table, x2);
    }
    assert(finished(st2).smoothing_group_entry_table == finished(st).smoothing_group_entry_table);
}

/// A numeral is not the word `off`.
proof fn lemma_numeral_not_off(n: nat)
    ensures
        decimal_text(n) != "off"@,
{
    lemma_decimal_text(n);
    reveal_strlit("off");
    assert(is_digit_char(decimal_text(n)[0]));
}

/// An `s` statement, in a state that is well formed.
#[verifier::rlimit(60)]
#[verifier::spinoff_prover]
proof fn lemma_loop_smoothing_statement(st: ObjState, n: u32, r: Seq<Seq<char>>)
    requires
        state_wf(st),
        st.smoothing_groups.len() + 1 <= u32::MAX,
    ensures
        ({
            let ts = statement_tokens(GroupingModel::S(n)) + r;
            let st2 = after_statement(st, ts);
            &&& body_outcome(st, ts) == body_outcome(st2, r).after(3)
            &&& state_wf(st2)
            &&& state_rows(st2) == state_rows(st)
            &&& st2.smoothing_groups == st.smoothing_groups.push(n)
            &&& st2.smoothing_group_index == st.smoothing_groups.len() + 1
            &&& st2.groups == st.groups
            &&& st2.min_group_index == st.min_group_index
            &&& st2.max_group_index == st.max_group_index
            &&& st2.vertices == st.vertices
            &&& st2.texture_vertices == st.texture_vertices
            &&& st2.normal_vertices == st.normal_vertices
            &&& st2.elements == st.elements
        }),
{
    reveal(state_rows);
    let ts = statement_tokens(GroupingModel::S(n)) + r;
    lemma_tags();
    lemma_numeral_not_off(n as nat);
    lemma_parse_decimal_u32(n);
    assert(ts[0] == "s"@);
    assert(ts[1] == decimal_text(n as nat));
    assert(ts.skip(2) =~= seq!["\n"@] + r);
    let st2 = after_statement(st, ts);
    lemma_body_step(st, ts, 2);
    lemma_loop_newline(st2, r);
    lemma_after_after(body_outcome(st2, r), 1, 2);
    assert(element_count_exact(ts));
    lemma_statement_wf(st, ts);
    assert(st.smoothing_groups + seq![n] =~= st.smoothing_groups.push(n));
    assert(finished(st2).group_entry_table == finished(st).group_entry_table);
    let rows = group_rows(finished(st).group_entry_table);
    if st.smoothing_groups.len() > 0 {
        let x = finished(st2).smoothing_group_entry_table.last();
        assert(finished(st2).smoothing_group_entry_table == st2.smoothing_group_entry_table.push(x));
        lemma_apply_smoothing_push_empty(rows, st2.smoothing_group_entry_table, x);
    } else {
        let t = st.smoothing_group_entry_table;
        let x1 = finished(st).smoothing_group_entry_table.last();
        let x2 = finished(st2).smoothing_group_entry_table.last();
        assert(t =~= Seq::<((u32, u32), u32)>::empty());
        assert(finished(st).smoothing_group_entry_table == t.push(x1));
        assert(finished(st2).smoothing_group_entry_table == t.push(x2));
        lemma_apply_smoothing_push_empty(rows, t, x1);
        lemma_apply_smoothing_push_empty(rows, t, x2);
    }
}

/// A line feed is no index.
proof fn lemma_newline_not_index()
    ensures
        vtn_of("\n"@) is None,
{
    reveal_strlit("\n");
    let s = "\n"@;
    assert(crate::parser::find_double_slash_from(s, 0) is None);
    assert(crate::parser::find_char_from(s, '/', 1) is None);
    assert(crate::parser::find_char_from(s, '/', 0) is None);
    assert(crate::text::unsigned_digits(s) == s);
    assert(!all_digits(s));
}

/// An element reads back from its statement: a point by the number of its
/// vertex, a line or a face whose indices have one form.
pub open spec fn element_readable(e: Element) -> bool {
    match e {
        Element::Point(a) => a is V,
        Element::Line(a, b) => same_form(b, a),
        Element::Face(a, b, c) => same_form(b, a) && same_form(c, a),
    }
}

/// The parse of an element statement, and the element it adds.
#[verifier::rlimit(80)]
#[verifier::spinoff_prover]
proof fn lemma_parse_element(e: Element, r: Seq<Seq<char>>)
    requires
        element_readable(e),
    ensures
        spec_parse_elements(element_tokens(e) + r) == (
            seq![e],
            Parsed::<u32, ()>::Done(1, element_tokens(e).len()),
        ),
{
    let ts = element_tokens(e) + r;
    lemma_tags();
    lemma_newline_not_index();
    match e {
        Element::Point(a) => {
            let v = a->V_0;
            lemma_parse_decimal_u32(v);
            assert(ts[0] == "p"@);
            assert(ts.skip(1)[0] == decimal_text(v as nat));
            assert(ts.skip(2)[0] == "\n"@);
            assert(crate::parser::spec_point_tail(ts.skip(2)).0 =~= Seq::<Element>::empty());
            assert(seq![Element::Point(VTNIndex::V(v))] + Seq::<Element>::empty() =~= seq![e]);
        },
        Element::Line(a, b) => {
            lemma_vtn_text_read_back(a);
            lemma_vtn_text_read_back(b);
            assert(ts[0] == "l"@);
            assert(ts.skip(1)[0] == vtn_text(a));
            assert(ts.skip(2)[0] == vtn_text(b));
            assert(ts.skip(3)[0] == "\n"@);
            let idx = seq![a, b] + spec_vtn_run(ts.skip(3)).0;
            assert(idx =~= seq![a, b]);
            assert(crate::parser::line_segments(idx) =~= seq![e]);
        },
        Element::Face(a, b, c) => {
            lemma_vtn_text_read_back(a);
            lemma_vtn_text_read_back(b);
            lemma_vtn_text_read_back(c);
            assert(ts[0] == "f"@);
            assert(ts.skip(4)[0] == "\n"@);
            assert(spec_vtn_run(ts.skip(4)) == (Seq::<VTNIndex>::empty(), 1nat));
            assert(ts.skip(3)[0] == vtn_text(c));
            assert(ts.skip(3).drop_first() =~= ts.skip(4));
            assert(spec_vtn_run(ts.skip(3)).0 =~= seq![c]);
            assert(spec_vtn_run(ts.skip(3)).1 == 2);
            assert(ts.skip(2)[0] == vtn_text(b));
            assert(ts.skip(2).drop_first() =~= ts.skip(3));
            assert(spec_vtn_run(ts.skip(2)).0 =~= seq![b, c]);
            assert(spec_vtn_run(ts.skip(2)).1 == 3);
            assert(ts.skip(1)[0] == vtn_text(a));
            assert(ts.skip(1).drop_first() =~= ts.skip(2));
            assert(spec_vtn_run(ts.skip(1)).0 =~= seq![a, b, c]);
            assert(spec_vtn_run(ts.skip(1)).1 == 4);
            let idx = seq![a, b, c];
            assert(crate::parser::all_same_form(idx));
            assert(crate::parser::triangle_fan(idx) =~= seq![e]);
        },
    }
}

/// An element statement, in a state with a group and a smoothing group.
#[verifier::rlimit(60)]
#[verifier::spinoff_prover]
proof fn lemma_loop_element_statement(st: ObjState, e: Element, r: Seq<Seq<char>>)
    requires
        state_wf(st),
        st.groups.len() > 0,
        st.smoothing_groups.len() > 0,
        st.elements.len() + 2 <= u32::MAX,
        element_readable(e),
    ensures
        ({
            let ts = element_tokens(e) + r;
            &&& after_statement(st, ts) == with_element(st, e)
            &&& body_outcome(st, ts) == body_outcome(with_element(st, e), r).after(element_tokens(e).len())
            &&& state_wf(with_element(st, e))
        }),
{
    let ts = element_tokens(e) + r;
    lemma_tags();
    lemma_parse_element(e, r);
    assert(ts[0] == element_tokens(e)[0]);
    assert(crate::parser::prepared_for_elements(st) == st);
    assert(st.elements + seq![e] =~= st.elements.push(e));
    assert(after_statement(st, ts) == with_element(st, e));
    assert(ts.skip(element_tokens(e).len() as int) =~= r);
    lemma_body_step(st, ts, element_tokens(e).len());
    assert(element_count_exact(ts));
    lemma_statement_wf(st, ts);
}

/// The numbers from the first one up, one after another.
pub open spec fn consecutive(g: Seq<u32>) -> bool {
    g.len() > 0 && forall|j: int| 0 <= j < g.len() ==> #[trigger] g[j] == g[0] + j
}

proof fn lemma_consecutive_range(g: Seq<u32>)
    requires
        consecutive(g),
        g[0] + g.len() <= u32::MAX,
    ensures
        g.last() + 1 == g[0] + g.len(),
        range_seq(g[0], (g.last() + 1) as u32) == g,
{
    assert(g.last() == g[g.len() - 1]);
    assert(range_seq(g[0], (g.last() + 1) as u32) =~= g);
}

/// Within each run the entries have the grouping of the first.
pub proof fn lemma_runs_same_grouping(s: Seq<ShapeEntryModel>, n: nat)
    requires
        n <= s.len() <= usize::MAX,
    ensures
        ({
            let r = runs_of(s, n);
            forall|k: int, j: int|
                0 <= k < r.len() && (#[trigger] r[k]).0 <= j < r[k].1 ==> same_grouping(
                    #[trigger] s[j],
                    s[r[k].0 as int],
                )
        }),
    decreases n,
{
    if n > 0 {
        crate::compose::lemma_runs(s, (n - 1) as nat);
        crate::compose::lemma_runs(s, n);
        lemma_runs_same_grouping(s, (n - 1) as nat);
        let r = runs_of(s, (n - 1) as nat);
        let r2 = runs_of(s, n);
        if n >= 2 && same_grouping(s[n - 1], s[n - 2]) {
            assert forall|k: int, j: int|
                0 <= k < r2.len() && (#[trigger] r2[k]).0 <= j < r2[k].1 implies same_grouping(
                #[trigger] s[j],
                s[r2[k].0 as int],
            ) by {
                if k < r.len() - 1 {
                    assert(r2[k] == r[k]);
                } else {
                    assert(r[r.len() - 1] == r.last());
                    assert(r2[k] == (r.last().0, n as usize));
                    if j < n - 1 {
                        assert(r[r.len() - 1].0 <= j < r[r.len() - 1].1);
                    } else {
                        assert(r[r.len() - 1].0 <= n - 2 < r[r.len() - 1].1);
                        assert(same_grouping(s[n - 2], s[r[r.len() - 1].0 as int]));
                    }
                }
            }
        } else {
            assert forall|k: int, j: int|
                0 <= k < r2.len() && (#[trigger] r2[k]).0 <= j < r2[k].1 implies same_grouping(
                #[trigger] s[j],
                s[r2[k].0 as int],
            ) by {
                if k < r.len() {
                    assert(r2[k] == r[k]);
                }
            }
        }
    }
}

/// What the text of an object must hold for the parser to read the object
/// back from it: one token for its name, each coordinate and each group
/// name; points by their vertex numbers, lines and faces with indices of
/// one form; one element per shape entry, numbered in order; the groups of
/// each entry numbered one after another, from where those before end; the
/// smoothing groups numbered from one, counting up by one where they
/// change; and every group and smoothing group named by an entry.
#[verifier::opaque]
pub open spec fn reads_back(o: ObjectModel, unit_w: Seq<bool>) -> bool {
    let s = o.shape_set;
    let n = s.len();
    &&& is_word(o.name)
    &&& unit_w.len() == o.vertex_set.len()
    &&& forall|j: int| 0 <= j < o.vertex_set.len() ==> vertex_readable(#[trigger] o.vertex_set[j], unit_w[j])
    &&& forall|j: int| 0 <= j < o.texture_vertex_set.len() ==> texture_vertex_readable(#[trigger] o.texture_vertex_set[j])
    &&& forall|j: int| 0 <= j < o.normal_vertex_set.len() ==> normal_vertex_readable(#[trigger] o.normal_vertex_set[j])
    &&& forall|j: int| 0 <= j < o.group_set.len() ==> is_word(#[trigger] o.group_set[j])
    &&& o.element_set.len() == n
    &&& n + 1 <= u32::MAX
    &&& o.group_set.len() + 1 <= u32::MAX
    &&& o.smoothing_group_set.len() <= u32::MAX
    &&& forall|i: int| 0 <= i < n ==> element_readable(#[trigger] o.element_set[i])
    &&& forall|i: int| 0 <= i < n ==> (#[trigger] s[i]).element == i + 1
    &&& forall|i: int| 0 <= i < n ==> consecutive(#[trigger] s[i].groups)
    &&& n == 0 ==> o.group_set.len() == 0 && o.smoothing_group_set.len() == 0
    &&& n > 0 ==> s[0].groups[0] == 1 && s[0].smoothing_group == 1
    &&& forall|i: int|
        0 < i < n ==> (#[trigger] s[i]).groups == s[i - 1].groups || s[i].groups[0] == s[i - 1].groups.last() + 1
    &&& forall|i: int|
        0 < i < n ==> (#[trigger] s[i]).smoothing_group == s[i - 1].smoothing_group || s[i].smoothing_group
            == s[i - 1].smoothing_group + 1
    &&& n > 0 ==> s[n - 1].groups.last() == o.group_set.len() && s[n - 1].smoothing_group
        == o.smoothing_group_set.len()
}

/// What `reads_back` says of the entry at `i`, and of the sizes.
proof fn lemma_reads_back_entry(o: ObjectModel, w: Seq<bool>, i: int)
    requires
        reads_back(o, w),
        0 <= i < o.shape_set.len(),
    ensures
        element_readable(o.element_set[i]),
        o.shape_set[i].element == i + 1,
        consecutive(o.shape_set[i].groups),
        i == 0 ==> o.shape_set[i].groups[0] == 1 && o.shape_set[i].smoothing_group == 1,
        i > 0 && o.shape_set[i].groups != o.shape_set[i - 1].groups ==> o.shape_set[i].groups[0]
            == o.shape_set[i - 1].groups.last() + 1,
        i > 0 && o.shape_set[i].smoothing_group != o.shape_set[i - 1].smoothing_group
            ==> o.shape_set[i].smoothing_group == o.shape_set[i - 1].smoothing_group + 1,
{
    reveal(reads_back);
}

/// What `reads_back` says of the sizes and the group names.
proof fn lemma_reads_back_sizes(o: ObjectModel, w: Seq<bool>)
    requires
        reads_back(o, w),
    ensures
        o.element_set.len() == o.shape_set.len(),
        o.shape_set.len() + 1 <= u32::MAX,
        o.group_set.len() + 1 <= u32::MAX,
        o.smoothing_group_set.len() <= u32::MAX,
        forall|j: int| 0 <= j < o.group_set.len() ==> is_word(#[trigger] o.group_set[j]),
        o.shape_set.len() == 0 ==> o.group_set.len() == 0 && o.smoothing_group_set.len() == 0,
        o.shape_set.len() > 0 ==> o.shape_set.last().groups.last() == o.group_set.len()
            && o.shape_set.last().smoothing_group == o.smoothing_group_set.len(),
{
    reveal(reads_back);
}

/// What `reads_back` says of the name and the vertex data.
proof fn lemma_reads_back_data(o: ObjectModel, w: Seq<bool>)
    requires
        reads_back(o, w),
    ensures
        is_word(o.name),
        w.len() == o.vertex_set.len(),
        forall|j: int| 0 <= j < o.vertex_set.len() ==> vertex_readable(#[trigger] o.vertex_set[j], w[j]),
        forall|j: int| 0 <= j < o.texture_vertex_set.len() ==> texture_vertex_readable(#[trigger] o.texture_vertex_set[j]),
        forall|j: int| 0 <= j < o.normal_vertex_set.len() ==> normal_vertex_readable(#[trigger] o.normal_vertex_set[j]),
{
    reveal(reads_back);
}

/// The parse state after the entries of `o` before `m`, whose groups and
/// smoothing group, once named, are `g` and `sg`.
pub open spec fn state_at(st: ObjState, o: ObjectModel, m: nat, g: Option<Seq<u32>>, sg: Option<u32>) -> bool {
    &&& state_wf(st)
    &&& st.vertices == o.vertex_set
    &&& st.texture_vertices == o.texture_vertex_set
    &&& st.normal_vertices == o.normal_vertex_set
    &&& m <= o.element_set.len()
    &&& st.elements == o.element_set.take(m as int)
    &&& state_rows(st) == Some(o.shape_set.take(m as int))
    &&& match g {
        None => st.groups.len() == 0,
        Some(g) => {
            &&& consecutive(g)
            &&& 1 <= g[0]
            &&& g.last() <= o.group_set.len()
            &&& st.groups == o.group_set.take(g.last() as int)
            &&& st.min_group_index == g[0]
            &&& st.max_group_index == g.last() + 1
        },
    }
    &&& match sg {
        None => st.smoothing_groups.len() == 0,
        Some(k) => 1 <= k <= o.smoothing_group_set.len() && st.smoothing_groups == o.smoothing_group_set.take(
            k as int,
        ),
    }
}

/// The groups of the entry before `a`, if there is one.
pub open spec fn groups_before(o: ObjectModel, a: int) -> Option<Seq<u32>> {
    if a == 0 {
        None
    } else {
        Some(o.shape_set[a - 1].groups)
    }
}

/// The smoothing group of the entry before `a`, if there is one.
pub open spec fn smoothing_before(o: ObjectModel, a: int) -> Option<u32> {
    if a == 0 {
        None
    } else {
        Some(o.shape_set[a - 1].smoothing_group)
    }
}

/// The group statement of the run at `a`, if it has one.
pub open spec fn group_part(o: ObjectModel, a: int) -> Seq<GroupingModel> {
    let e = o.shape_set[a];
    if a == 0 || e.groups != o.shape_set[a - 1].groups {
        seq![GroupingModel::G(entry_group_names(o, e))]
    } else {
        Seq::empty()
    }
}

/// The smoothing group statement of the run at `a`, if it has one.
pub open spec fn smoothing_part(o: ObjectModel, a: int) -> Seq<GroupingModel> {
    let e = o.shape_set[a];
    if a == 0 || e.smoothing_group != o.shape_set[a - 1].smoothing_group {
        seq![GroupingModel::S(o.smoothing_group_set[e.smoothing_group - 1])]
    } else {
        Seq::empty()
    }
}

proof fn lemma_after_zero(p: Step<ObjState>)
    ensures
        p.after(0) == p,
{
}

proof fn lemma_statements_one(x: GroupingModel)
    ensures
        statements_tokens(seq![x]) == crate::roundtrip::statement_tokens(x),
{
    let e = Seq::<GroupingModel>::empty();
    assert(seq![x].drop_last() =~= e);
    assert(seq![x].last() == x);
    assert(statements_tokens(e) == Seq::<Seq<char>>::empty());
    assert(statements_tokens(seq![x]) == statements_tokens(e) + crate::roundtrip::statement_tokens(x));
    assert(statements_tokens(seq![x]) =~= crate::roundtrip::statement_tokens(x));
}

/// The names of groups numbered one after another from `p + 1` follow the
/// first `p` names.
proof fn lemma_names_extend(set: Seq<Seq<char>>, g: Seq<u32>, p: int)
    requires
        consecutive(g),
        0 <= p,
        g[0] == p + 1,
        g.last() <= set.len(),
    ensures
        g.last() == p + g.len(),
        set.take(p) + g.map_values(|x: u32| set[x - 1]) =~= set.take(g.last() as int),
{
    assert(g.last() == g[g.len() - 1]);
    let names = g.map_values(|x: u32| set[x - 1]);
    assert forall|j: int| 0 <= j < names.len() implies #[trigger] names[j] == set[p + j] by {
        assert(g[j] == g[0] + j);
    }
}

#[verifier::rlimit(60)]
#[verifier::spinoff_prover]
proof fn lemma_loop_group_part(st: ObjState, o: ObjectModel, a: int, sg: Option<u32>, r: Seq<Seq<char>>) -> (st2:
    ObjState)
    requires
        0 <= a < o.shape_set.len(),
        state_at(st, o, a as nat, groups_before(o, a), sg),
        consecutive(o.shape_set[a].groups),
        a == 0 ==> o.shape_set[a].groups[0] == 1,
        a > 0 && o.shape_set[a].groups != o.shape_set[a - 1].groups ==> o.shape_set[a].groups[0]
            == o.shape_set[a - 1].groups.last() + 1,
        o.shape_set[a].groups.last() <= o.group_set.len(),
        forall|j: int| 0 <= j < o.group_set.len() ==> is_word(#[trigger] o.group_set[j]),
        o.group_set.len() + 1 <= u32::MAX,
    ensures
        body_outcome(st, statements_tokens(group_part(o, a)) + r) == body_outcome(st2, r).after(
            statements_tokens(group_part(o, a)).len(),
        ),
        state_at(st2, o, a as nat, Some(o.shape_set[a].groups), sg),
{
    let e = o.shape_set[a];
    let gp = group_part(o, a);
    if a == 0 || e.groups != o.shape_set[a - 1].groups {
        let names = entry_group_names(o, e);
        lemma_statements_one(GroupingModel::G(names));
        let p: int = if a == 0 {
            0
        } else {
            o.shape_set[a - 1].groups.last() as int
        };
        assert(st.groups =~= o.group_set.take(p));
        lemma_names_extend(o.group_set, e.groups, p);
        assert forall|j: int| 0 <= j < names.len() implies is_word(#[trigger] names[j]) by {
            assert(e.groups[j] == e.groups[0] + j);
            assert(names[j] == o.group_set[e.groups[j] - 1]);
        }
        lemma_loop_group_statement(st, names, r);
        let ts = crate::roundtrip::statement_tokens(GroupingModel::G(names)) + r;
        if a > 0 {
            assert(o.shape_set[a - 1].groups[0] >= 1);
            assert(st.groups.len() > 0);
        }
        after_statement(st, ts)
    } else {
        assert(gp =~= Seq::<GroupingModel>::empty());
        assert(statements_tokens(gp) + r =~= r);
        lemma_after_zero(body_outcome(st, r));
        st
    }
}

#[verifier::rlimit(60)]
#[verifier::spinoff_prover]
proof fn lemma_loop_smoothing_part(st: ObjState, o: ObjectModel, a: int, g: Option<Seq<u32>>, r: Seq<Seq<char>>) -> (st2:
    ObjState)
    requires
        0 <= a < o.shape_set.len(),
        state_at(st, o, a as nat, g, smoothing_before(o, a)),
        a == 0 ==> o.shape_set[a].smoothing_group == 1,
        a > 0 && o.shape_set[a].smoothing_group != o.shape_set[a - 1].smoothing_group ==> o.shape_set[a].smoothing_group
            == o.shape_set[a - 1].smoothing_group + 1,
        o.shape_set[a].smoothing_group <= o.smoothing_group_set.len(),
        o.smoothing_group_set.len() <= u32::MAX,
    ensures
        body_outcome(st, statements_tokens(smoothing_part(o, a)) + r) == body_outcome(st2, r).after(
            statements_tokens(smoothing_part(o, a)).len(),
        ),
        state_at(st2, o, a as nat, g, Some(o.shape_set[a].smoothing_group)),
{
    let e = o.shape_set[a];
    let sp = smoothing_part(o, a);
    if a == 0 || e.smoothing_group != o.shape_set[a - 1].smoothing_group {
        let v = o.smoothing_group_set[e.smoothing_group - 1];
        lemma_statements_one(GroupingModel::S(v));
        let p: int = if a == 0 {
            0
        } else {
            o.shape_set[a - 1].smoothing_group as int
        };
        assert(st.smoothing_groups =~= o.smoothing_group_set.take(p));
        lemma_loop_smoothing_statement(st, v, r);
        assert(st.smoothing_groups.push(v) =~= o.smoothing_group_set.take(e.smoothing_group as int));
        let ts = crate::roundtrip::statement_tokens(GroupingModel::S(v)) + r;
        after_statement(st, ts)
    } else {
        assert(sp =~= Seq::<GroupingModel>::empty());
        assert(statements_tokens(sp) + r =~= r);
        lemma_after_zero(body_outcome(st, r));
        st
    }
}

/// The elements of a run, in a state with the run's grouping.
#[verifier::rlimit(60)]
#[verifier::spinoff_prover]
proof fn lemma_loop_elements(
    st: ObjState,
    o: ObjectModel,
    w: Seq<bool>,
    g: Seq<u32>,
    k: u32,
    a: nat,
    cnt: nat,
    r: Seq<Seq<char>>,
) -> (st2: ObjState)
    requires
        reads_back(o, w),
        state_at(st, o, a, Some(g), Some(k)),
        a + cnt <= o.shape_set.len(),
        forall|j: int|
            a <= j < a + cnt ==> (#[trigger] o.shape_set[j]).groups == g && o.shape_set[j].smoothing_group == k,
    ensures
        body_outcome(st, element_lines_tokens(o.element_set, a, cnt) + r) == body_outcome(st2, r).after(
            element_lines_tokens(o.element_set, a, cnt).len(),
        ),
        state_at(st2, o, a + cnt, Some(g), Some(k)),
    decreases cnt,
{
    if cnt == 0 {
        assert(element_lines_tokens(o.element_set, a, cnt) + r =~= r);
        lemma_after_zero(body_outcome(st, r));
        st
    } else {
        let m = a + cnt - 1;
        let es = o.element_set;
        let front = element_lines_tokens(es, a, (cnt - 1) as nat);
        let e = es[m as int];
        let et = element_tokens(e);
        assert(element_lines_tokens(es, a, cnt) + r =~= front + (et + r));
        let st1 = lemma_loop_elements(st, o, w, g, k, a, (cnt - 1) as nat, et + r);
        lemma_reads_back_entry(o, w, m as int);
        lemma_reads_back_sizes(o, w);
        lemma_loop_element_statement(st1, e, r);
        lemma_rows_element(st1, e);
        let st2 = with_element(st1, e);
        lemma_consecutive_range(g);
        assert(o.shape_set[m as int].element == m + 1);
        assert(next_row(st1) == o.shape_set[m as int]);
        assert(o.shape_set.take(m as int).push(o.shape_set[m as int]) =~= o.shape_set.take(m + 1));
        assert(es.take(m as int).push(e) =~= es.take(m + 1));
        lemma_after_after(body_outcome(st2, r), et.len(), front.len());
        st2
    }
}

proof fn lemma_statements_add(x: Seq<GroupingModel>, y: Seq<GroupingModel>)
    ensures
        statements_tokens(x + y) == statements_tokens(x) + statements_tokens(y),
    decreases y.len(),
{
    if y.len() == 0 {
        assert(x + y =~= x);
        assert(statements_tokens(x) + statements_tokens(y) =~= statements_tokens(x));
    } else {
        assert((x + y).drop_last() =~= x + y.drop_last());
        assert((x + y).last() == y.last());
        lemma_statements_add(x, y.drop_last());
        assert(statements_tokens(x + y) =~= statements_tokens(x) + statements_tokens(y));
    }
}

/// The run `q` of an object's entries: its statements, its elements and
/// their count.
#[verifier::rlimit(100)]
#[verifier::spinoff_prover]
proof fn lemma_loop_block(st: ObjState, o: ObjectModel, w: Seq<bool>, q: int, r: Seq<Seq<char>>) -> (st2: ObjState)
    requires
        reads_back(o, w),
        text_composable(o),
        0 <= q < runs_of(o.shape_set, o.shape_set.len()).len(),
        state_at(
            st,
            o,
            runs_of(o.shape_set, o.shape_set.len())[q].0 as nat,
            groups_before(o, runs_of(o.shape_set, o.shape_set.len())[q].0 as int),
            smoothing_before(o, runs_of(o.shape_set, o.shape_set.len())[q].0 as int),
        ),
    ensures
        ({
            let iv = runs_of(o.shape_set, o.shape_set.len())[q];
            &&& body_outcome(st, block_tokens(o, iv, run_statements(o, iv.0 as int)) + r) == body_outcome(
                st2,
                r,
            ).after(block_tokens(o, iv, run_statements(o, iv.0 as int)).len())
            &&& state_at(st2, o, iv.1 as nat, groups_before(o, iv.1 as int), smoothing_before(o, iv.1 as int))
        }),
{
    let s = o.shape_set;
    let n = s.len();
    lemma_reads_back_sizes(o, w);
    crate::compose::lemma_runs(s, n);
    lemma_runs_same_grouping(s, n);
    let runs = runs_of(s, n);
    let iv = runs[q];
    let a = iv.0 as int;
    let b = iv.1 as int;
    assert(a < b <= n);
    let e = s[a];
    lemma_reads_back_entry(o, w, a);
    lemma_reads_back_sizes(o, w);
    assert(run_nameable(o, a));
    assert(e.groups.last() <= o.group_set.len()) by {
        if a == 0 || e.groups != s[a - 1].groups {
            assert(e.groups.last() == e.groups[e.groups.len() - 1]);
        }
    }
    assert(a > 0 && e.groups != s[a - 1].groups ==> e.groups[0] == s[a - 1].groups.last() + 1);
    assert(a > 0 && e.smoothing_group != s[a - 1].smoothing_group ==> e.smoothing_group == s[a
        - 1].smoothing_group + 1);
    let gp = statements_tokens(group_part(o, a));
    let sp = statements_tokens(smoothing_part(o, a));
    let el = element_lines_tokens(o.element_set, a as nat, (b - a) as nat);
    assert(run_statements(o, a) == group_part(o, a) + smoothing_part(o, a));
    lemma_statements_add(group_part(o, a), smoothing_part(o, a));
    assert(block_tokens(o, iv, run_statements(o, a)) + r =~= gp + (sp + (el + (count_tokens() + r))));
    let st1 = lemma_loop_group_part(st, o, a, smoothing_before(o, a), sp + (el + (count_tokens() + r)));
    let st2 = lemma_loop_smoothing_part(st1, o, a, Some(e.groups), el + (count_tokens() + r));
    assert forall|j: int| a <= j < a + (b - a) implies (#[trigger] s[j]).groups == e.groups
        && s[j].smoothing_group == e.smoothing_group by {
        assert(runs[q].0 <= j < runs[q].1);
        assert(same_grouping(s[j], s[runs[q].0 as int]));
    }
    let st3 = lemma_loop_elements(
        st2,
        o,
        w,
        e.groups,
        e.smoothing_group,
        a as nat,
        (b - a) as nat,
        count_tokens() + r,
    );
    lemma_loop_count(st3, r);
    assert(runs[q].0 <= b - 1 < runs[q].1);
    assert(same_grouping(s[b - 1], s[a]));
    let p = body_outcome(st3, r);
    lemma_after_after(p, 2, el.len());
    lemma_after_after(p, 2 + el.len(), sp.len());
    lemma_after_after(p, 2 + el.len() + sp.len(), gp.len());
    st3
}

/// The end of the first `q` runs of an object's entries.
pub open spec fn runs_end(o: ObjectModel, q: int) -> nat {
    if q == 0 {
        0
    } else {
        runs_of(o.shape_set, o.shape_set.len())[q - 1].1 as nat
    }
}

/// The first `q` runs of an object's entries.
#[verifier::rlimit(60)]
#[verifier::spinoff_prover]
proof fn lemma_loop_blocks(st: ObjState, o: ObjectModel, w: Seq<bool>, q: int, r: Seq<Seq<char>>) -> (st2: ObjState)
    requires
        reads_back(o, w),
        text_composable(o),
        0 <= q <= runs_of(o.shape_set, o.shape_set.len()).len(),
        state_at(st, o, 0, None, None),
    ensures
        body_outcome(st, blocks_tokens(o, instructions(o).take(q)) + r) == body_outcome(st2, r).after(
            blocks_tokens(o, instructions(o).take(q)).len(),
        ),
        state_at(st2, o, runs_end(o, q), groups_before(o, runs_end(o, q) as int), smoothing_before(o, runs_end(o, q) as int)),
    decreases q,
{
    let ins = instructions(o);
    let runs = runs_of(o.shape_set, o.shape_set.len());
    if q == 0 {
        assert(ins.take(0) =~= Seq::<((usize, usize), Seq<GroupingModel>)>::empty());
        assert(blocks_tokens(o, ins.take(0)) + r =~= r);
        lemma_after_zero(body_outcome(st, r));
        st
    } else {
        lemma_reads_back_sizes(o, w);
        crate::compose::lemma_runs(o.shape_set, o.shape_set.len());
        let t = ins.take(q);
        assert(t.drop_last() =~= ins.take(q - 1));
        assert(t.last() == ins[q - 1]);
        let iv = runs[q - 1];
        assert(ins[q - 1] == (iv, run_statements(o, iv.0 as int)));
        let front = blocks_tokens(o, ins.take(q - 1));
        let blk = block_tokens(o, iv, run_statements(o, iv.0 as int));
        assert(blocks_tokens(o, t) + r =~= front + (blk + r));
        let st1 = lemma_loop_blocks(st, o, w, q - 1, blk + r);
        if q >= 2 {
            assert(runs[q - 2].1 == runs[q - 1].0);
        }
        assert(runs_end(o, q - 1) == iv.0);
        let st2 = lemma_loop_block(st1, o, w, q - 1, r);
        lemma_after_after(body_outcome(st2, r), blk.len(), front.len());
        st2
    }
}

/// The body of an object's text, from the start of the object.
#[verifier::rlimit(100)]
#[verifier::spinoff_prover]
proof fn lemma_loop_body(o: ObjectModel, w: Seq<bool>, r: Seq<Seq<char>>) -> (st2: ObjState)
    requires
        reads_back(o, w),
        text_composable(o),
    ensures
        body_outcome(initial_state(), body_tokens(o, w) + r) == body_outcome(st2, r).after(
            body_tokens(o, w).len(),
        ),
        state_at(
            st2,
            o,
            o.shape_set.len(),
            groups_before(o, o.shape_set.len() as int),
            smoothing_before(o, o.shape_set.len() as int),
        ),
{
    lemma_reads_back_data(o, w);
    lemma_reads_back_sizes(o, w);
    let c = count_tokens();
    let vt = vertex_lines_tokens(o.vertex_set, w);
    let tt = texture_vertex_lines_tokens(o.texture_vertex_set);
    let nt = normal_vertex_lines_tokens(o.normal_vertex_set);
    let bt = blocks_tokens(o, instructions(o));
    let r5 = bt + r;
    let r4 = c + r5;
    let r3 = nt + r4;
    let r2 = c + r3;
    let r1 = tt + r2;
    let r0 = c + r1;
    assert(body_tokens(o, w) + r =~= vt + r0);
    let i0 = initial_state();
    lemma_loop_vertices(i0, o.vertex_set, w, r0);
    let s1 = ObjState { vertices: i0.vertices + o.vertex_set, ..i0 };
    lemma_loop_count(s1, r1);
    lemma_loop_texture_vertices(s1, o.texture_vertex_set, r2);
    let s2 = ObjState { texture_vertices: s1.texture_vertices + o.texture_vertex_set, ..s1 };
    lemma_loop_count(s2, r3);
    lemma_loop_normal_vertices(s2, o.normal_vertex_set, r4);
    let s3 = ObjState { normal_vertices: s2.normal_vertices + o.normal_vertex_set, ..s2 };
    lemma_loop_count(s3, r5);
    assert(s3.vertices =~= o.vertex_set);
    assert(s3.texture_vertices =~= o.texture_vertex_set);
    assert(s3.normal_vertices =~= o.normal_vertex_set);
    assert(state_rows(s3) == Some(o.shape_set.take(0))) by {
        reveal(state_rows);
        let f = finished(s3);
        let e = Seq::<((u32, u32), (u32, u32))>::empty();
        assert(f.group_entry_table == e.push(f.group_entry_table.last()));
        lemma_group_rows_push_empty(e, f.group_entry_table.last());
        let rows = group_rows(f.group_entry_table);
        assert(rows =~= Seq::<ShapeEntryModel>::empty());
        let t = Seq::<((u32, u32), u32)>::empty();
        assert(f.smoothing_group_entry_table == t.push(f.smoothing_group_entry_table.last()));
        lemma_apply_smoothing_push_empty(rows, t, f.smoothing_group_entry_table.last());
        assert(o.shape_set.take(0) =~= Seq::<ShapeEntryModel>::empty());
    }
    assert(s3.elements =~= o.element_set.take(0));
    assert(state_at(s3, o, 0, None, None));
    let n = o.shape_set.len();
    crate::compose::lemma_runs(o.shape_set, n);
    let q = runs_of(o.shape_set, n).len();
    assert(instructions(o).take(q as int) =~= instructions(o));
    let st = lemma_loop_blocks(s3, o, w, q as int, r);
    assert(runs_end(o, q as int) == n);
    let p = body_outcome(st, r);
    lemma_after_after(p, bt.len(), 2);
    lemma_after_after(p, bt.len() + 2, nt.len());
    lemma_after_after(p, bt.len() + 2 + nt.len(), 2);
    lemma_after_after(p, bt.len() + 4 + nt.len(), tt.len());
    lemma_after_after(p, bt.len() + 4 + nt.len() + tt.len(), 2);
    lemma_after_after(p, bt.len() + 6 + nt.len() + tt.len(), vt.len());
    st
}

/// One object of composed text, ahead of the line feeds that end it and
/// start the next object, if there is one.
#[verifier::rlimit(100)]
#[verifier::spinoff_prover]
proof fn lemma_object_read_back(o: ObjectModel, w: Seq<bool>, next: Seq<Seq<char>>, tail: nat, next_objects: Seq<
    Seq<char>,
>)
    requires
        reads_back(o, w),
        text_composable(o),
        (tail == 0 && next_objects == next) || (tail == 1 && next == seq!["\n"@] + next_objects),
        next_objects.len() == 0 || next_objects[0] == "o"@,
    ensures
        spec_parse_object(seq!["o"@, o.name, "\n"@] + (body_tokens(o, w) + (count_tokens() + next)))
            == Parsed::<ObjectModel, ()>::Done(o, 5 + body_tokens(o, w).len() + tail),
{
    let body = body_tokens(o, w);
    let y = body + (count_tokens() + next);
    let x = seq!["o"@, o.name, "\n"@] + y;
    lemma_tags();
    lemma_reads_back_data(o, w);
    lemma_reads_back_sizes(o, w);
    assert(x.skip(3) =~= y);
    assert(x.skip(2) =~= seq!["\n"@] + y);
    assert(x.skip(2).drop_first() =~= y);
    let st = lemma_loop_body(o, w, count_tokens() + next);
    lemma_loop_count(st, next);
    assert(body_outcome(st, next) == body_outcome(st, next_objects).after(tail)) by {
        if tail == 1 {
            lemma_loop_newline(st, next_objects);
        } else {
            lemma_after_zero(body_outcome(st, next));
        }
    }
    assert(body_outcome(st, next_objects) == Parsed::<ObjState, ()>::Done(finished(st), 0)) by {
        reveal(body_outcome);
    }
    let cy = body.len() + 2 + tail;
    lemma_after_after(body_outcome(st, next_objects), tail, 2);
    lemma_after_after(body_outcome(st, next_objects), tail + 2, body.len());
    assert(body_outcome(initial_state(), y) == Parsed::<ObjState, ()>::Done(finished(st), cy));
    lemma_loop_leading_newlines(initial_state(), y);
    let l = leading_newlines(y);
    lemma_leading_newlines_bound(y);
    assert(x.skip((3 + l) as int) =~= y.skip(l as int));
    assert(object_loop(initial_state(), y.skip(l as int)) == Parsed::<ObjState, ()>::Done(
        finished(st),
        (cy - l) as nat,
    )) by {
        reveal(body_outcome);
    }
    let n = o.shape_set.len();
    assert(o.shape_set.take(n as int) =~= o.shape_set);
    assert(state_rows(st) == apply_smoothing(
        group_rows(finished(st).group_entry_table),
        finished(st).smoothing_group_entry_table,
    )) by {
        reveal(state_rows);
    }
    assert(o.element_set.take(n as int) =~= o.element_set);
    if n > 0 {
        assert(o.shape_set.last() == o.shape_set[n - 1]);
        assert(o.group_set.take(o.group_set.len() as int) =~= o.group_set);
        assert(o.smoothing_group_set.take(o.smoothing_group_set.len() as int) =~= o.smoothing_group_set);
    } else {
        assert(st.groups =~= o.group_set);
        assert(st.smoothing_groups =~= o.smoothing_group_set);
    }
    let f = finished(st);
    assert(f.groups == o.group_set);
    assert(f.smoothing_groups == o.smoothing_group_set);
    assert(f.elements == o.element_set);
    assert(f.vertices == o.vertex_set);
    let om = ObjectModel {
        name: o.name,
        vertex_set: f.vertices,
        texture_vertex_set: f.texture_vertices,
        normal_vertex_set: f.normal_vertices,
        group_set: f.groups,
        smoothing_group_set: f.smoothing_groups,
        element_set: f.elements,
        shape_set: o.shape_set,
    };
    assert(om == o);
    assert(apply_smoothing(group_rows(f.group_entry_table), f.smoothing_group_entry_table) == Some(o.shape_set));
    assert(x[0] == "o"@ && x.len() > 1);
    assert(x[1] == o.name);
    assert(x.skip(2)[0] == "\n"@);
    assert(crate::parser::spec_skip_one_or_more_newlines(x.skip(2)) == Parsed::<(), ()>::Done((), 1 + l));
    assert(crate::parser::spec_parse_object_name(x) == Parsed::<Seq<char>, ()>::Done(o.name, 3 + l));
}

/// The objects of composed text from the `i`-th on.
#[verifier::rlimit(60)]
#[verifier::spinoff_prover]
proof fn lemma_objects_read_back(os: Seq<ObjectModel>, ws: Seq<Seq<bool>>, i: nat)
    requires
        ws.len() == os.len(),
        forall|j: int| 0 <= j < os.len() ==> reads_back(#[trigger] os[j], ws[j]),
        forall|j: int| 0 <= j < os.len() ==> text_composable(#[trigger] os[j]),
        i < os.len(),
    ensures
        spec_objects(chunks_from(os, ws, i).drop_first()) == Parsed::<Seq<ObjectModel>, ()>::Done(
            os.subrange(i as int, os.len() as int),
            (chunks_from(os, ws, i).len() - 1) as nat,
        ),
    decreases os.len() - i,
{
    let o = os[i as int];
    let w = ws[i as int];
    let next = chunks_from(os, ws, i + 1);
    let body = body_tokens(o, w);
    let x = chunks_from(os, ws, i).drop_first();
    lemma_tags();
    assert(x =~= seq!["o"@, o.name, "\n"@] + (body + (count_tokens() + next)));
    let tail: nat = if i + 1 < os.len() {
        1
    } else {
        0
    };
    let next_objects = if i + 1 < os.len() {
        next.drop_first()
    } else {
        next
    };
    if i + 1 < os.len() {
        assert(next =~= seq!["\n"@] + next_objects);
    }
    assert(next_objects.len() == 0 || next_objects[0] == "o"@);
    lemma_object_read_back(o, w, next, tail, next_objects);
    let c = 5 + body.len() + tail;
    lemma_objects_step(x);
    assert(x.skip(c as int) =~= next_objects);
    if i + 1 < os.len() {
        lemma_objects_read_back(os, ws, i + 1);
        assert(os.subrange(i as int, os.len() as int) =~= seq![o] + os.subrange((i + 1) as int, os.len() as int));
    } else {
        assert(os.subrange(i as int, os.len() as int) =~= seq![o]);
        assert(seq![o] + Seq::<ObjectModel>::empty() =~= seq![o]);
    }
}

/// Parsing the tokens of the texts of objects that read back gives the
/// objects.
pub proof fn lemma_parse_chunks(os: Seq<ObjectModel>, ws: Seq<Seq<bool>>)
    requires
        ws.len() == os.len(),
        forall|j: int| 0 <= j < os.len() ==> reads_back(#[trigger] os[j], ws[j]),
        forall|j: int| 0 <= j < os.len() ==> text_composable(#[trigger] os[j]),
    ensures
        spec_parse(chunks_from(os, ws, 0)) == Parsed::<Seq<ObjectModel>, ()>::Done(
            os,
            chunks_from(os, ws, 0).len(),
        ),
{
    let t = chunks_from(os, ws, 0);
    lemma_tags();
    if os.len() == 0 {
        assert(t =~= Seq::<Seq<char>>::empty());
        assert(t.skip(0) =~= t);
        assert(os =~= Seq::<ObjectModel>::empty());
    } else {
        lemma_objects_read_back(os, ws, 0);
        assert(t[0] == "\n"@);
        assert(t.drop_first()[0] == "o"@);
        assert(leading_newlines(t.drop_first()) == 0);
        assert(leading_newlines(t) == 1);
        assert(t.skip(1) =~= t.drop_first());
        assert(os.subrange(0, os.len() as int) =~= os);
    }
}

proof fn lemma_reads_back_words(o: ObjectModel, w: Seq<bool>)
    requires
        reads_back(o, w),
    ensures
        text_words(o, w),
        o.shape_set.len() <= usize::MAX,
{
    lemma_reads_back_data(o, w);
    lemma_reads_back_sizes(o, w);
    assert forall|j: int| 0 <= j < o.vertex_set.len() implies vertex_words(#[trigger] o.vertex_set[j], w[j]) by {
        assert(vertex_readable(o.vertex_set[j], w[j]));
    }
    assert forall|j: int| 0 <= j < o.texture_vertex_set.len() implies texture_vertex_words(
        #[trigger] o.texture_vertex_set[j],
    ) by {
        assert(texture_vertex_readable(o.texture_vertex_set[j]));
    }
    assert forall|j: int| 0 <= j < o.normal_vertex_set.len() implies normal_vertex_words(
        #[trigger] o.normal_vertex_set[j],
    ) by {
        assert(normal_vertex_readable(o.normal_vertex_set[j]));
    }
}

/// Parsing the OBJ text that the text compositor writes for an object set
/// gives the object set back, for objects that it can write and that read
/// back from their text (`reads_back`).
pub proof fn lemma_compose_then_parse(os: Seq<ObjectModel>, unit_w: Seq<Seq<bool>>)
    requires
        unit_w.len() == os.len(),
        forall|i: int| 0 <= i < os.len() ==> text_composable(#[trigger] os[i]),
        forall|i: int| 0 <= i < os.len() ==> reads_back(#[trigger] os[i], unit_w[i]),
    ensures
        spec_parse(tokenize(text_objects(os, unit_w, os.len()))) matches Parsed::Done(os2, _) && os2 == os,
{
    let text = text_objects(os, unit_w, os.len());
    let empty = Seq::<char>::empty();
    assert forall|j: int| 0 <= j < os.len() implies text_words(#[trigger] os[j], unit_w[j]) && os[j].shape_set.len()
        <= usize::MAX by {
        lemma_reads_back_words(os[j], unit_w[j]);
    }
    lemma_tokens_text_objects(os, unit_w, os.len(), empty);
    assert(text + empty =~= text);
    lemma_token_bounds(empty, 0);
    assert(tokenize(empty) =~= Seq::<Seq<char>>::empty());
    lemma_chunks_split(os, unit_w, os.len());
    assert(crate::roundtrip::chunks_from(os, unit_w, os.len()) =~= Seq::<Seq<char>>::empty());
    assert(tokenize(text) =~= crate::roundtrip::chunks_from(os, unit_w, 0));
    lemma_parse_chunks(os, unit_w);
}

/// The text of an index, as the compositors write it, is one token, which
/// the index parser reads back as the index.
pub proof fn lemma_index_text_reads_back(i: VTNIndex)
    ensures
        tokenize(vtn_text(i)) == seq![vtn_text(i)],
        spec_parse_vtn_index(tokenize(vtn_text(i))) == Parsed::<VTNIndex, ()>::Done(i, 1),
{
    let empty = Seq::<char>::empty();
    lemma_index_word(i);
    lemma_peel_word(vtn_text(i), empty);
    assert(vtn_text(i) + empty =~= vtn_text(i));
    lemma_token_bounds(empty, 0);
    assert(tokenize(empty) =~= Seq::<Seq<char>>::empty());
    assert(seq![vtn_text(i)] + tokenize(empty) =~= seq![vtn_text(i)]);
    lemma_vtn_text_read_back(i);
}

} // verus!

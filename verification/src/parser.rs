//! An OBJ parser over the object model of [`crate::object`], whose indices
//! count from one, as the file writes them.
use vstd::prelude::*;
use crate::lexer::{
    advanced, lemma_advanced_one, lemma_advanced_trans, lemma_advanced_zero, lemma_after_after, lemma_tokens_count,
    newline_tokens,
    tokenize, Parsed, TokenStream,
};
use crate::obj::{
    done_value, leading_newlines, lemma_leading_newlines_bound, lemma_names_bound, names_consumed,
    names_until_newline, optional_float, token_views,
};
use crate::object::{
    group_views, normal_vertex_views, object_views, same_form, shape_views, smoothing_views,
    texture_vertex_views, vertex_views, Element, Group, NormalVertex, Object, ObjectModel, ObjectSet,
    ShapeEntry, ShapeEntryModel, SmoothingGroup, TextureVertex, VTNIndex, Vertex,
};
use crate::obj::{NormalVertexModel, TextureVertexModel, VertexModel};
use crate::text::{
    all_digits, chars_to_string, concat2, concat3, copy_range, decimal_text, is_digit_char, is_float_literal,
    is_float_token, lemma_decimal_text, lemma_parse_decimal_u32, parse_u32_token, spec_parse_u32, text_of, token_is,
};

verus! {

/// What can go wrong in reading an OBJ source.
#[derive(Clone, Debug)]
pub enum ObjError {
    Source,
    SourceDoesNotExist(String),
    Parse(ParseError),
}

/// The kinds of errors in an OBJ file.
#[derive(Clone, Debug, PartialEq, Eq)]
pub enum ErrorKind {
    EndOfFile,
    ExpectedStatementButGot(String, String),
    ExpectedFloatButGot(String),
    ExpectedIntegerButGot(String),
    ExpectedVertexIndexButGot(String),
    ExpectedTextureIndexButGot(String),
    ExpectedNormalIndexButGot(String),
    ExpectedVertexNormalIndexButGot(String),
    ExpectedVertexTextureIndexButGot(String),
    ExpectedVertexTextureNormalIndexButGot(String),
    EveryFaceElementMustHaveAtLeastThreeVertices,
    EveryVTNIndexMustHaveTheSameFormForAGivenFace,
    InvalidElementDeclaration(String),
    InvalidElement,
}

/// An error in an OBJ file: the line it was found on and a message.
#[derive(Clone, Debug, PartialEq, Eq)]
pub struct ParseError {
    line_number: usize,
    kind: String,
}

impl ParseError {
    pub closed spec fn line(&self) -> nat {
        self.line_number as nat
    }

    pub closed spec fn text(&self) -> Seq<char> {
        self.kind@
    }

    fn new(line_number: usize, kind: String) -> (e: ParseError)
        ensures
            e.line() == line_number,
            e.text() == kind@,
    {
        ParseError { line_number: line_number, kind: kind }
    }

    pub fn line_number(&self) -> (n: usize)
        ensures
            n == self.line(),
    {
        self.line_number
    }

    /// How the error reads to the user: "Parse error at line", the line,
    /// a colon, and the message.
    pub fn describe(&self) -> (s: String)
        ensures
            s@ == crate::text::error_report(self.line(), self.text()),
    {
        crate::text::report_text(self.line_number, self.kind.as_str())
    }

    /// The message.
    pub fn kind(&self) -> (m: &String)
        ensures
            m@ == self.text(),
    {
        &self.kind
    }
}

/// A step of the parser: its value and the tokens it consumed, or the
/// message of its error and the tokens consumed up to the error, or an input
/// on which the parser is not defined.
pub type Step<T> = Parsed<T, ()>;

/// A call on a parser that held `ts` on line `line0` and now holds `ts1` on
/// line `line1` returned `r`, as the step `p` prescribes.
pub open spec fn reports<E: View>(
    r: Result<E, ParseError>,
    p: Step<E::V>,
    ts: Seq<Seq<char>>,
    line0: nat,
    ts1: Seq<Seq<char>>,
    line1: nat,
) -> bool {
    match p {
        Parsed::Done(v, n) => {
            &&& r matches Ok(e) && e@ == v
            &&& advanced(ts, line0, ts1, line1, n)
        },
        Parsed::Fail(_, m, n) => {
            &&& r matches Err(e) && e.text() == m && e.line() == line1
            &&& advanced(ts, line0, ts1, line1, n)
        },
        Parsed::Abort => false,
    }
}

pub open spec fn eof_message() -> Seq<char> {
    "Expected string but got `end of file`."@
}

pub open spec fn spec_next_string(ts: Seq<Seq<char>>) -> Step<Seq<char>> {
    if ts.len() > 0 {
        Parsed::Done(ts[0], 1)
    } else {
        Parsed::Fail((), eof_message(), 0)
    }
}

pub open spec fn spec_expect(ts: Seq<Seq<char>>, tag: Seq<char>) -> Step<Seq<char>> {
    if ts.len() == 0 {
        Parsed::Fail((), eof_message(), 0)
    } else if ts[0] != tag {
        Parsed::Fail((), "Expected `"@ + tag + "` statement but got: `"@ + ts[0] + "`."@, 1)
    } else {
        Parsed::Done(ts[0], 1)
    }
}

pub open spec fn spec_parse_f32(ts: Seq<Seq<char>>) -> Step<Seq<char>> {
    if ts.len() == 0 {
        Parsed::Fail((), eof_message(), 0)
    } else if is_float_literal(ts[0]) {
        Parsed::Done(ts[0], 1)
    } else {
        Parsed::Fail((), "Expected `f32` but got `"@ + ts[0] + "`."@, 1)
    }
}

pub open spec fn integer_message(t: Seq<char>) -> Seq<char> {
    "Expected integer but got `"@ + t + "`."@
}

pub open spec fn spec_parse_u32_step(ts: Seq<Seq<char>>) -> Step<u32> {
    if ts.len() == 0 {
        Parsed::Fail((), eof_message(), 0)
    } else if spec_parse_u32(ts[0]) is Some {
        Parsed::Done(spec_parse_u32(ts[0])->0, 1)
    } else {
        Parsed::Fail((), integer_message(ts[0]), 1)
    }
}

pub open spec fn spec_parse_vertex(ts: Seq<Seq<char>>) -> Step<VertexModel> {
    let t = spec_expect(ts, "v"@);
    let x = spec_parse_f32(ts.skip(1));
    let y = spec_parse_f32(ts.skip(2));
    let z = spec_parse_f32(ts.skip(3));
    if !(t is Done) {
        t.fail_as()
    } else if !(x is Done) {
        x.after(1).fail_as()
    } else if !(y is Done) {
        y.after(2).fail_as()
    } else if !(z is Done) {
        z.after(3).fail_as()
    } else {
        let (w, n) = optional_float(ts.skip(4), "1"@);
        Parsed::Done(VertexModel { x: ts[1], y: ts[2], z: ts[3], w: w }, 4 + n)
    }
}

pub open spec fn spec_parse_texture_vertex(ts: Seq<Seq<char>>) -> Step<TextureVertexModel> {
    let t = spec_expect(ts, "vt"@);
    let u = spec_parse_f32(ts.skip(1));
    if !(t is Done) {
        t.fail_as()
    } else if !(u is Done) {
        u.after(1).fail_as()
    } else {
        let (v, n1) = optional_float(ts.skip(2), "0"@);
        let (w, n2) = optional_float(ts.skip((2 + n1) as int), "0"@);
        Parsed::Done(TextureVertexModel { u: ts[1], v: v, w: w }, 2 + n1 + n2)
    }
}

pub open spec fn spec_parse_normal_vertex(ts: Seq<Seq<char>>) -> Step<NormalVertexModel> {
    let t = spec_expect(ts, "vn"@);
    let i = spec_parse_f32(ts.skip(1));
    let j = spec_parse_f32(ts.skip(2));
    let k = spec_parse_f32(ts.skip(3));
    if !(t is Done) {
        t.fail_as()
    } else if !(i is Done) {
        i.after(1).fail_as()
    } else if !(j is Done) {
        j.after(2).fail_as()
    } else if !(k is Done) {
        k.after(3).fail_as()
    } else {
        Parsed::Done(NormalVertexModel { i: ts[1], j: ts[2], k: ts[3] }, 4)
    }
}

pub open spec fn spec_skip_one_or_more_newlines(ts: Seq<Seq<char>>) -> Step<()> {
    let t = spec_expect(ts, "\n"@);
    if !(t is Done) {
        t.fail_as()
    } else {
        Parsed::Done((), 1 + leading_newlines(ts.drop_first()))
    }
}

pub open spec fn spec_parse_object_name(ts: Seq<Seq<char>>) -> Step<Seq<char>> {
    if ts.len() > 0 && ts[0] == "o"@ {
        let n1: nat = if ts.len() > 1 {
            2
        } else {
            1
        };
        let skip = spec_skip_one_or_more_newlines(ts.skip(n1 as int));
        if !(skip is Done) {
            skip.after(n1).fail_as()
        } else {
            Parsed::Done(ts[1], n1 + skip.consumed())
        }
    } else {
        Parsed::Done(Seq::empty(), 0)
    }
}

/// The position of the first `c` in `s` from position `i` on.
pub open spec fn find_char_from(s: Seq<char>, c: char, i: int) -> Option<int>
    decreases s.len() - i,
{
    if i < 0 || i >= s.len() {
        None
    } else if s[i] == c {
        Some(i)
    } else {
        find_char_from(s, c, i + 1)
    }
}

/// The position of the first `//` in `s` from position `i` on.
pub open spec fn find_double_slash_from(s: Seq<char>, i: int) -> Option<int>
    decreases s.len() - i,
{
    if i < 0 || i + 1 >= s.len() {
        None
    } else if s[i] == '/' && s[i + 1] == '/' {
        Some(i)
    } else {
        find_double_slash_from(s, i + 1)
    }
}

/// `v//n`: the numbers on either side of the first `//`.
pub open spec fn vtn_as_vn(t: Seq<char>) -> Option<VTNIndex> {
    match find_double_slash_from(t, 0) {
        Some(i) => match (spec_parse_u32(t.subrange(0, i)), spec_parse_u32(t.subrange(i + 2, t.len() as int))) {
            (Some(v), Some(n)) => Some(VTNIndex::VN(v, n)),
            _ => None,
        },
        None => None,
    }
}

/// `v/t/n`: the numbers before the first `/`, between it and the next, and
/// after that.
pub open spec fn vtn_as_vtn(t: Seq<char>) -> Option<VTNIndex> {
    match find_char_from(t, '/', 0) {
        Some(i) => match find_char_from(t, '/', i + 1) {
            Some(j) => match (
                spec_parse_u32(t.subrange(0, i)),
                spec_parse_u32(t.subrange(i + 1, j)),
                spec_parse_u32(t.subrange(j + 1, t.len() as int)),
            ) {
                (Some(v), Some(x), Some(n)) => Some(VTNIndex::VTN(v, x, n)),
                _ => None,
            },
            None => None,
        },
        None => None,
    }
}

/// `v/t`: the numbers on either side of the first `/`.
pub open spec fn vtn_as_vt(t: Seq<char>) -> Option<VTNIndex> {
    match find_char_from(t, '/', 0) {
        Some(i) => match (spec_parse_u32(t.subrange(0, i)), spec_parse_u32(t.subrange(i + 1, t.len() as int))) {
            (Some(v), Some(x)) => Some(VTNIndex::VT(v, x)),
            _ => None,
        },
        None => None,
    }
}

/// The index a token denotes: the first of the forms `v//n`, `v/t/n`, `v/t`
/// and `v` that it has.
pub open spec fn vtn_of(t: Seq<char>) -> Option<VTNIndex> {
    if vtn_as_vn(t) is Some {
        vtn_as_vn(t)
    } else if vtn_as_vtn(t) is Some {
        vtn_as_vtn(t)
    } else if vtn_as_vt(t) is Some {
        vtn_as_vt(t)
    } else {
        match spec_parse_u32(t) {
            Some(v) => Some(VTNIndex::V(v)),
            None => None,
        }
    }
}

pub open spec fn vtn_message(t: Seq<char>) -> Seq<char> {
    "Expected `vertex/texture/normal` index but got `"@ + t + "`"@
}

pub open spec fn spec_parse_vtn_index(ts: Seq<Seq<char>>) -> Step<VTNIndex> {
    if ts.len() == 0 {
        Parsed::Fail((), eof_message(), 0)
    } else if vtn_of(ts[0]) is Some {
        Parsed::Done(vtn_of(ts[0])->0, 1)
    } else {
        Parsed::Fail((), vtn_message(ts[0]), 1)
    }
}

/// Indices for as long as they parse; the token that does not is consumed.
pub open spec fn spec_vtn_run(ts: Seq<Seq<char>>) -> (Seq<VTNIndex>, nat)
    decreases ts.len(),
{
    if ts.len() == 0 {
        (Seq::empty(), 0)
    } else if vtn_of(ts[0]) is None {
        (Seq::empty(), 1)
    } else {
        let rest = spec_vtn_run(ts.drop_first());
        (seq![vtn_of(ts[0])->0] + rest.0, rest.1 + 1)
    }
}

/// The points that follow a `p` and its first index, up to the end of the
/// line.
pub open spec fn spec_point_tail(ts: Seq<Seq<char>>) -> (Seq<Element>, Step<()>)
    decreases ts.len(),
{
    if ts.len() == 0 {
        (Seq::empty(), Parsed::Done((), 0))
    } else if ts[0] == "\n"@ {
        (Seq::empty(), Parsed::Done((), 1))
    } else if spec_parse_u32(ts[0]) is None {
        (Seq::empty(), Parsed::Fail((), integer_message(ts[0]), 1))
    } else {
        let rest = spec_point_tail(ts.drop_first());
        (seq![Element::Point(VTNIndex::V(spec_parse_u32(ts[0])->0))] + rest.0, rest.1.after(1))
    }
}

/// A `p` statement: the points it adds, and the number of them.
pub open spec fn spec_parse_point(ts: Seq<Seq<char>>) -> (Seq<Element>, Step<u32>) {
    let tag = spec_expect(ts, "p"@);
    let first = spec_parse_u32_step(ts.skip(1));
    if !(tag is Done) {
        (Seq::empty(), tag.fail_as())
    } else if !(first is Done) {
        (Seq::empty(), first.after(1).fail_as())
    } else {
        let tail = spec_point_tail(ts.skip(2));
        let pushed = seq![Element::Point(VTNIndex::V(done_value(first)))] + tail.0;
        if pushed.len() > u32::MAX {
            // The count of points overflows.
            (pushed, Parsed::Abort)
        } else {
            (
                pushed,
                match tail.1 {
                    Parsed::Done(_, m) => Parsed::Done(pushed.len() as u32, m + 2),
                    other => other.after(2).fail_as(),
                },
            )
        }
    }
}

pub open spec fn all_same_form(idx: Seq<VTNIndex>) -> bool {
    forall|i: int| 1 <= i < idx.len() ==> same_form(#[trigger] idx[i], idx[0])
}

/// The line segments between consecutive indices.
pub open spec fn line_segments(idx: Seq<VTNIndex>) -> Seq<Element> {
    Seq::new((idx.len() - 1) as nat, |i: int| Element::Line(idx[i], idx[i + 1]))
}

/// The triangles of a fan around the first index.
pub open spec fn triangle_fan(idx: Seq<VTNIndex>) -> Seq<Element> {
    Seq::new((idx.len() - 2) as nat, |i: int| Element::Face(idx[0], idx[i + 1], idx[i + 2]))
}

pub open spec fn form_message() -> Seq<char> {
    "Every vertex/texture/normal index must have the same form."@
}

pub open spec fn face_size_message() -> Seq<char> {
    "A face element must have at least three vertices."@
}

/// An `l` statement: the segments it adds, and the number of them.
pub open spec fn spec_parse_line(ts: Seq<Seq<char>>) -> (Seq<Element>, Step<u32>) {
    let tag = spec_expect(ts, "l"@);
    let a = spec_parse_vtn_index(ts.skip(1));
    let b = spec_parse_vtn_index(ts.skip(2));
    let run = spec_vtn_run(ts.skip(3));
    if !(tag is Done) {
        (Seq::empty(), tag.fail_as())
    } else if !(a is Done) {
        (Seq::empty(), a.after(1).fail_as())
    } else if !(b is Done) {
        (Seq::empty(), b.after(2).fail_as())
    } else if run.0.len() > u32::MAX {
        // The count of indices overflows.
        (Seq::empty(), Parsed::Abort)
    } else {
        let idx = seq![done_value(a), done_value(b)] + run.0;
        let n = 3 + run.1;
        if !all_same_form(idx) {
            (Seq::empty(), Parsed::Fail((), form_message(), n))
        } else {
            (line_segments(idx), Parsed::Done((idx.len() - 1) as u32, n))
        }
    }
}

/// An `f` statement: the triangles it adds, and the number of them.
pub open spec fn spec_parse_face(ts: Seq<Seq<char>>) -> (Seq<Element>, Step<u32>) {
    let tag = spec_expect(ts, "f"@);
    let run = spec_vtn_run(ts.skip(1));
    if !(tag is Done) {
        (Seq::empty(), tag.fail_as())
    } else if run.0.len() > u32::MAX {
        (Seq::empty(), Parsed::Abort)
    } else {
        let idx = run.0;
        let n = 1 + run.1;
        if idx.len() < 3 {
            (Seq::empty(), Parsed::Fail((), face_size_message(), n))
        } else if !all_same_form(idx) {
            (Seq::empty(), Parsed::Fail((), form_message(), n))
        } else {
            (triangle_fan(idx), Parsed::Done((idx.len() - 2) as u32, n))
        }
    }
}

pub open spec fn element_kind_message() -> Seq<char> {
    "Parser error: Line must be a point, line, or face."@
}

/// A `p`, `l` or `f` statement.
pub open spec fn spec_parse_elements(ts: Seq<Seq<char>>) -> (Seq<Element>, Step<u32>) {
    if ts.len() > 0 && ts[0] == "p"@ {
        spec_parse_point(ts)
    } else if ts.len() > 0 && ts[0] == "l"@ {
        spec_parse_line(ts)
    } else if ts.len() > 0 && ts[0] == "f"@ {
        spec_parse_face(ts)
    } else {
        (Seq::empty(), Parsed::Fail((), element_kind_message(), 0))
    }
}

/// A `g` statement: the group names it adds, and the number of them.
pub open spec fn spec_parse_groups(ts: Seq<Seq<char>>) -> (Seq<Seq<char>>, Step<u32>) {
    let tag = spec_expect(ts, "g"@);
    if !(tag is Done) {
        (Seq::empty(), tag.fail_as())
    } else {
        let names = crate::obj::group_names(ts.skip(1));
        if names.len() > u32::MAX {
            (names, Parsed::Abort)
        } else {
            (names, Parsed::Done(names.len() as u32, 1 + names_consumed(ts.skip(1))))
        }
    }
}

pub open spec fn smoothing_name_message(t: Seq<char>) -> Seq<char> {
    "Expected integer or `off` for smoothing group name but got `"@ + t + "`"@
}

pub open spec fn smoothing_missing_message() -> Seq<char> {
    "Parser error: Invalid smoothing group name."@
}

/// An `s` statement: the smoothing group number it adds.
pub open spec fn spec_parse_smoothing_group(ts: Seq<Seq<char>>) -> (Seq<u32>, Step<u32>) {
    let tag = spec_expect(ts, "s"@);
    if !(tag is Done) {
        (Seq::empty(), tag.fail_as())
    } else if ts.len() < 2 {
        (Seq::empty(), Parsed::Fail((), smoothing_missing_message(), 1))
    } else if ts[1] == "off"@ {
        (seq![0u32], Parsed::Done(1, 2))
    } else if spec_parse_u32(ts[1]) is Some {
        (seq![spec_parse_u32(ts[1])->0], Parsed::Done(1, 2))
    } else {
        (Seq::empty(), Parsed::Fail((), smoothing_name_message(ts[1]), 2))
    }
}

/// What the parser has gathered of an object so far: the data, and the
/// tables that record which elements each group and smoothing group covers.
/// Element, group and smoothing group numbers count from one.
pub struct ObjState {
    pub vertices: Seq<VertexModel>,
    pub texture_vertices: Seq<TextureVertexModel>,
    pub normal_vertices: Seq<NormalVertexModel>,
    pub elements: Seq<Element>,
    pub group_entry_table: Seq<((u32, u32), (u32, u32))>,
    pub groups: Seq<Seq<char>>,
    pub min_element_group_index: u32,
    pub max_element_group_index: u32,
    pub min_group_index: u32,
    pub max_group_index: u32,
    pub smoothing_group_entry_table: Seq<((u32, u32), u32)>,
    pub smoothing_groups: Seq<u32>,
    pub min_element_smoothing_group_index: u32,
    pub max_element_smoothing_group_index: u32,
    pub smoothing_group_index: u32,
}

pub open spec fn initial_state() -> ObjState {
    ObjState {
        vertices: Seq::empty(),
        texture_vertices: Seq::empty(),
        normal_vertices: Seq::empty(),
        elements: Seq::empty(),
        group_entry_table: Seq::empty(),
        groups: Seq::empty(),
        min_element_group_index: 0,
        max_element_group_index: 0,
        min_group_index: 0,
        max_group_index: 0,
        smoothing_group_entry_table: Seq::empty(),
        smoothing_groups: Seq::empty(),
        min_element_smoothing_group_index: 0,
        max_element_smoothing_group_index: 0,
        smoothing_group_index: 0,
    }
}

/// A `g` statement.
pub open spec fn group_statement(st: ObjState, ts: Seq<Seq<char>>) -> Step<ObjState> {
    let (names, r) = spec_parse_groups(ts);
    match r {
        Parsed::Done(cnt, n) => if st.groups.len() == 0 {
            if 1 + cnt > u32::MAX {
                Parsed::Abort
            } else {
                Parsed::Done(
                    ObjState {
                        groups: st.groups + names,
                        min_element_group_index: 1,
                        max_element_group_index: 1,
                        min_group_index: 1,
                        max_group_index: (1 + cnt) as u32,
                        ..st
                    },
                    n,
                )
            }
        } else if st.max_group_index + cnt > u32::MAX {
            Parsed::Abort
        } else {
            Parsed::Done(
                ObjState {
                    group_entry_table: st.group_entry_table.push(
                        (
                            (st.min_element_group_index, st.max_element_group_index),
                            (st.min_group_index, st.max_group_index),
                        ),
                    ),
                    groups: st.groups + names,
                    min_group_index: st.max_group_index,
                    max_group_index: (st.max_group_index + cnt) as u32,
                    min_element_group_index: st.max_element_group_index,
                    ..st
                },
                n,
            )
        },
        other => other.fail_as(),
    }
}

/// An `s` statement.
pub open spec fn smoothing_statement(st: ObjState, ts: Seq<Seq<char>>) -> Step<ObjState> {
    let (numbers, r) = spec_parse_smoothing_group(ts);
    match r {
        Parsed::Done(_, n) => if st.smoothing_groups.len() == 0 {
            Parsed::Done(
                ObjState {
                    smoothing_groups: st.smoothing_groups + numbers,
                    min_element_smoothing_group_index: 1,
                    max_element_smoothing_group_index: 1,
                    smoothing_group_index: 1,
                    ..st
                },
                n,
            )
        } else if st.smoothing_group_index + 1 > u32::MAX {
            Parsed::Abort
        } else {
            Parsed::Done(
                ObjState {
                    smoothing_group_entry_table: st.smoothing_group_entry_table.push(
                        (
                            (st.min_element_smoothing_group_index, st.max_element_smoothing_group_index),
                            st.smoothing_group_index,
                        ),
                    ),
                    smoothing_groups: st.smoothing_groups + numbers,
                    smoothing_group_index: (st.smoothing_group_index + 1) as u32,
                    min_element_smoothing_group_index: st.max_element_smoothing_group_index,
                    ..st
                },
                n,
            )
        },
        other => other.fail_as(),
    }
}

/// Before the first element, the default group and smoothing group stand in
/// for those not yet named.
pub open spec fn prepared_for_elements(st: ObjState) -> ObjState {
    let st1 = if st.groups.len() == 0 {
        ObjState {
            groups: seq![crate::obj::default_group_name()],
            min_element_group_index: 1,
            max_element_group_index: 1,
            min_group_index: 1,
            max_group_index: 2,
            ..st
        }
    } else {
        st
    };
    if st1.smoothing_groups.len() == 0 {
        ObjState {
            smoothing_groups: seq![0u32],
            min_element_smoothing_group_index: 1,
            max_element_smoothing_group_index: 1,
            smoothing_group_index: 1,
            ..st1
        }
    } else {
        st1
    }
}

/// A `p`, `l` or `f` statement.
pub open spec fn element_statement(st: ObjState, ts: Seq<Seq<char>>) -> Step<ObjState> {
    let st1 = prepared_for_elements(st);
    let (elements, r) = spec_parse_elements(ts);
    match r {
        Parsed::Done(cnt, n) => if st1.max_element_group_index + cnt > u32::MAX
            || st1.max_element_smoothing_group_index + cnt > u32::MAX {
            Parsed::Abort
        } else {
            Parsed::Done(
                ObjState {
                    elements: st1.elements + elements,
                    max_element_group_index: (st1.max_element_group_index + cnt) as u32,
                    max_element_smoothing_group_index: (st1.max_element_smoothing_group_index + cnt) as u32,
                    ..st1
                },
                n,
            )
        },
        other => other.fail_as(),
    }
}

pub open spec fn invalid_statement_message(t: Seq<char>) -> Seq<char> {
    "Parse error: Invalid element declaration in obj file. Got `"@ + t + "`"@
}

/// One statement of an object's body, which starts `ts`.
pub open spec fn object_statement(st: ObjState, ts: Seq<Seq<char>>) -> Step<ObjState> {
    let t = ts[0];
    if t == "g"@ {
        group_statement(st, ts)
    } else if t == "s"@ {
        smoothing_statement(st, ts)
    } else if t == "v"@ {
        match spec_parse_vertex(ts) {
            Parsed::Done(v, n) => Parsed::Done(ObjState { vertices: st.vertices.push(v), ..st }, n),
            other => other.fail_as(),
        }
    } else if t == "vt"@ {
        match spec_parse_texture_vertex(ts) {
            Parsed::Done(v, n) => Parsed::Done(ObjState { texture_vertices: st.texture_vertices.push(v), ..st }, n),
            other => other.fail_as(),
        }
    } else if t == "vn"@ {
        match spec_parse_normal_vertex(ts) {
            Parsed::Done(v, n) => Parsed::Done(ObjState { normal_vertices: st.normal_vertices.push(v), ..st }, n),
            other => other.fail_as(),
        }
    } else if t == "p"@ || t == "l"@ || t == "f"@ {
        element_statement(st, ts)
    } else if t == "\n"@ {
        match spec_skip_one_or_more_newlines(ts) {
            Parsed::Done(_, n) => Parsed::Done(st, n),
            other => other.fail_as(),
        }
    } else {
        Parsed::Fail((), invalid_statement_message(t), 0)
    }
}

/// At the end of the object, the open ranges are closed.
pub open spec fn finished(st: ObjState) -> ObjState {
    ObjState {
        group_entry_table: st.group_entry_table.push(
            ((st.min_element_group_index, st.max_element_group_index), (st.min_group_index, st.max_group_index)),
        ),
        min_element_group_index: st.max_element_group_index,
        smoothing_group_entry_table: st.smoothing_group_entry_table.push(
            (
                (st.min_element_smoothing_group_index, st.max_element_smoothing_group_index),
                st.smoothing_group_index,
            ),
        ),
        min_element_smoothing_group_index: st.max_element_smoothing_group_index,
        ..st
    }
}

/// The statements of an object's body, up to the next `o` statement or the
/// end of the input.
pub open spec fn object_loop(st: ObjState, ts: Seq<Seq<char>>) -> Step<ObjState>
    decreases ts.len(),
{
    if ts.len() == 0 || ts[0] == "o"@ {
        Parsed::Done(finished(st), 0)
    } else {
        match object_statement(st, ts) {
            Parsed::Done(st2, n) => if 0 < n <= ts.len() {
                object_loop(st2, ts.skip(n as int)).after(n)
            } else {
                Parsed::Abort
            },
            other => other,
        }
    }
}

pub proof fn lemma_object_loop_step(st: ObjState, ts: Seq<Seq<char>>)
    requires
        ts.len() > 0,
        ts[0] != "o"@,
    ensures
        match object_statement(st, ts) {
            Parsed::Done(st2, m) => 0 < m <= ts.len() ==> object_loop(st, ts) == object_loop(
                st2,
                ts.skip(m as int),
            ).after(m),
            _ => object_loop(st, ts) == object_statement(st, ts),
        },
{
}

/// The numbers `lo` up to `hi`.
pub open spec fn range_seq(lo: u32, hi: u32) -> Seq<u32> {
    Seq::new(if lo <= hi { (hi - lo) as nat } else { 0 }, |j: int| (lo + j) as u32)
}

/// The shape entries the group table describes, with smoothing group 1.
pub open spec fn group_rows(t: Seq<((u32, u32), (u32, u32))>) -> Seq<ShapeEntryModel>
    decreases t.len(),
{
    if t.len() == 0 {
        Seq::empty()
    } else {
        let e = t.last();
        group_rows(t.drop_last()) + range_seq(e.0.0, e.0.1).map_values(
            |i: u32| ShapeEntryModel { element: i, groups: range_seq(e.1.0, e.1.1), smoothing_group: 1 },
        )
    }
}

/// The shape entries with the smoothing group of each range of the
/// smoothing group table written in, in order; element `i` is entry
/// `i - 1`. `None` where a range reaches an element number that is zero or
/// past the entries.
pub open spec fn apply_smoothing(rows: Seq<ShapeEntryModel>, t: Seq<((u32, u32), u32)>) -> Option<
    Seq<ShapeEntryModel>,
>
    decreases t.len(),
{
    if t.len() == 0 {
        Some(rows)
    } else {
        match apply_smoothing(rows, t.drop_last()) {
            None => None,
            Some(r) => {
                let e = t.last();
                if e.0.0 < e.0.1 && (e.0.0 == 0 || e.0.1 > r.len() + 1) {
                    None
                } else {
                    Some(
                        Seq::new(
                            r.len(),
                            |j: int|
                                if e.0.0 <= j + 1 < e.0.1 {
                                    ShapeEntryModel { smoothing_group: e.1, ..r[j] }
                                } else {
                                    r[j]
                                },
                        ),
                    )
                }
            },
        }
    }
}

/// An object: an optional `o` statement, then the body.
pub open spec fn spec_parse_object(ts: Seq<Seq<char>>) -> Step<ObjectModel> {
    match spec_parse_object_name(ts) {
        Parsed::Done(object_name, n) => match object_loop(initial_state(), ts.skip(n as int)) {
            Parsed::Done(st, m) => match apply_smoothing(group_rows(st.group_entry_table), st.smoothing_group_entry_table) {
                Some(shapes) => Parsed::Done(
                    ObjectModel {
                        name: object_name,
                        vertex_set: st.vertices,
                        texture_vertex_set: st.texture_vertices,
                        normal_vertex_set: st.normal_vertices,
                        group_set: st.groups,
                        smoothing_group_set: st.smoothing_groups,
                        element_set: st.elements,
                        shape_set: shapes,
                    },
                    n + m,
                ),
                None => Parsed::Abort,
            },
            other => other.after(n).fail_as(),
        },
        other => other.fail_as(),
    }
}

/// The objects at the front of `ts`, which starts with no line feed.
pub open spec fn spec_objects(ts: Seq<Seq<char>>) -> Step<Seq<ObjectModel>>
    decreases ts.len(),
{
    if ts.len() == 0 {
        Parsed::Done(Seq::empty(), 0)
    } else {
        match spec_parse_object(ts) {
            Parsed::Done(o, n) => if 0 < n <= ts.len() {
                let k = leading_newlines(ts.skip(n as int));
                proof {
                    lemma_leading_newlines_bound(ts.skip(n as int));
                }
                match spec_objects(ts.skip((n + k) as int)) {
                    Parsed::Done(os, m) => Parsed::Done(seq![o] + os, n + k + m),
                    other => other.after(n + k),
                }
            } else {
                Parsed::Abort
            },
            other => other.fail_as(),
        }
    }
}

/// A whole file: empty lines, then objects.
pub open spec fn spec_parse(ts: Seq<Seq<char>>) -> Step<Seq<ObjectModel>> {
    let k = leading_newlines(ts);
    spec_objects(ts.skip(k as int)).after(k)
}

/// One object, and the objects after it.
pub proof fn lemma_objects_step(ts: Seq<Seq<char>>)
    requires
        ts.len() > 0,
    ensures
        match spec_parse_object(ts) {
            Parsed::Done(o, c) => 0 < c <= ts.len() ==> spec_objects(ts) == match spec_objects(
                ts.skip((c + leading_newlines(ts.skip(c as int))) as int),
            ) {
                Parsed::Done(os, m) => Parsed::Done(seq![o] + os, c + leading_newlines(ts.skip(c as int)) + m),
                other => other.after(c + leading_newlines(ts.skip(c as int))),
            },
            other => spec_objects(ts) == other.fail_as::<Seq<ObjectModel>>(),
        },
{
}

/// The outcome `p` of parsing the rest, after `n` tokens that gave the
/// objects `prefix`.
pub open spec fn prefixed(prefix: Seq<ObjectModel>, p: Step<Seq<ObjectModel>>, n: nat) -> Step<Seq<ObjectModel>> {
    match p {
        Parsed::Done(os, m) => Parsed::Done(prefix + os, n + m),
        other => other.after(n),
    }
}

pub proof fn lemma_prefixed_empty(p: Step<Seq<ObjectModel>>, n: nat)
    ensures
        prefixed(Seq::empty(), p, n) == p.after(n),
{
    if let Parsed::Done(os, m) = p {
        assert(Seq::<ObjectModel>::empty() + os =~= os);
    }
}

pub proof fn lemma_prefixed_push(prefix: Seq<ObjectModel>, o: ObjectModel, p: Step<Seq<ObjectModel>>, n: nat, c: nat)
    ensures
        prefixed(prefix, match p {
            Parsed::Done(os, m) => Parsed::Done(seq![o] + os, c + m),
            other => other.after(c),
        }, n) == prefixed(prefix.push(o), p, n + c),
{
    if let Parsed::Done(os, m) = p {
        assert(prefix + (seq![o] + os) =~= prefix.push(o) + os);
    }
}

/// What parsing the text `input` gives, as `r` reports it: the object set,
/// or the error with the line it was found on.
pub open spec fn parse_reports(r: Result<ObjectSet, ParseError>, input: Seq<char>) -> bool {
    match spec_parse(tokenize(input)) {
        Parsed::Done(objects, _) => r matches Ok(s) && s@ == objects,
        Parsed::Fail(_, m, n) => r matches Err(e) && e.text() == m && e.line() == 1 + newline_tokens(
            tokenize(input).take(n as int),
        ),
        Parsed::Abort => false,
    }
}

/// The element ranges of a table.
pub open spec fn element_ranges<T>(t: Seq<((u32, u32), T)>) -> Seq<(u32, u32)> {
    t.map_values(|e: ((u32, u32), T)| e.0)
}

/// The ranges follow one another from `start` up to `end`, none running
/// backwards.
pub open spec fn chained_from(ranges: Seq<(u32, u32)>, start: nat, end: nat) -> bool {
    &&& forall|k: int| 0 <= k < ranges.len() ==> (#[trigger] ranges[k]).0 <= ranges[k].1
    &&& forall|j: int, k: int|
        0 <= j && k == j + 1 && k < ranges.len() ==> (#[trigger] ranges[j]).1 == (#[trigger] ranges[k]).0
    &&& ranges.len() == 0 ==> end == start
    &&& ranges.len() > 0 ==> ranges[0].0 == start && ranges.last().1 == end
}

/// What holds of the state of an object's parse between two statements.
pub open spec fn state_wf(st: ObjState) -> bool {
    let e = st.elements.len();
    &&& st.groups.len() == 0 ==> e == 0 && st.group_entry_table.len() == 0 && st.min_element_group_index
        == st.max_element_group_index <= 1
    &&& st.groups.len() > 0 ==> {
        &&& st.max_element_group_index == 1 + e
        &&& 1 <= st.min_element_group_index <= st.max_element_group_index
        &&& chained_from(element_ranges(st.group_entry_table), 1, st.min_element_group_index as nat)
        &&& st.max_group_index == 1 + st.groups.len()
        &&& 1 <= st.min_group_index <= st.max_group_index
        &&& forall|k: int|
            0 <= k < st.group_entry_table.len() ==> 1 <= (#[trigger] st.group_entry_table[k]).1.0
                <= st.group_entry_table[k].1.1 <= st.min_group_index
    }
    &&& st.smoothing_groups.len() == 0 ==> e == 0 && st.smoothing_group_entry_table.len() == 0
        && st.min_element_smoothing_group_index == st.max_element_smoothing_group_index <= 1
    &&& st.smoothing_groups.len() > 0 ==> {
        &&& st.max_element_smoothing_group_index == 1 + e
        &&& 1 <= st.min_element_smoothing_group_index <= st.max_element_smoothing_group_index
        &&& chained_from(
            element_ranges(st.smoothing_group_entry_table),
            1,
            st.min_element_smoothing_group_index as nat,
        )
        &&& st.smoothing_group_index == st.smoothing_groups.len()
        &&& forall|k: int|
            0 <= k < st.smoothing_group_entry_table.len() ==> 1 <= (
            #[trigger] st.smoothing_group_entry_table[k]).1 <= st.smoothing_groups.len()
    }
}

/// What holds of every object the parser builds: there is one shape entry
/// per element, numbered from one in order; each names groups, in strictly
/// increasing order, and a smoothing group that exist, counting from one;
/// and an object with elements has at least one group and one smoothing
/// group.
pub open spec fn object_wf(o: ObjectModel) -> bool {
    let e = o.element_set.len();
    &&& o.shape_set.len() == e
    &&& forall|i: int| 0 <= i < e ==> (#[trigger] o.shape_set[i]).element == i + 1
    &&& forall|i: int, j: int|
        0 <= i < e && 0 <= j < o.shape_set[i].groups.len() ==> 1 <= (#[trigger] o.shape_set[i].groups[j])
            <= o.group_set.len()
    &&& forall|i: int|
        0 <= i < e ==> 1 <= (#[trigger] o.shape_set[i]).smoothing_group <= o.smoothing_group_set.len()
    &&& forall|i: int| 0 <= i < e ==> increasing((#[trigger] o.shape_set[i]).groups)
    &&& e > 0 ==> o.group_set.len() > 0 && o.smoothing_group_set.len() > 0
}

/// The numbers strictly increase.
pub open spec fn increasing(s: Seq<u32>) -> bool {
    forall|j: int, k: int| 0 <= j < k < s.len() ==> s[j] < s[k]
}

/// The group lists of the shape entries a group table describes strictly
/// increase.
pub proof fn lemma_group_rows_increasing(t: Seq<((u32, u32), (u32, u32))>)
    ensures
        forall|i: int| 0 <= i < group_rows(t).len() ==> increasing((#[trigger] group_rows(t)[i]).groups),
    decreases t.len(),
{
    if t.len() > 0 {
        let front = t.drop_last();
        lemma_group_rows_increasing(front);
        let e = t.last();
        let tail = range_seq(e.0.0, e.0.1).map_values(
            |i: u32| ShapeEntryModel { element: i, groups: range_seq(e.1.0, e.1.1), smoothing_group: 1 },
        );
        assert(group_rows(t) == group_rows(front) + tail);
        assert(increasing(range_seq(e.1.0, e.1.1)));
        assert forall|i: int| 0 <= i < group_rows(t).len() implies increasing((#[trigger] group_rows(t)[i]).groups) by {
            if i >= group_rows(front).len() {
                assert(group_rows(t)[i] == tail[i - group_rows(front).len()]);
            } else {
                assert(group_rows(t)[i] == group_rows(front)[i]);
            }
        }
    }
}

/// Every object of the set is well formed.
pub open spec fn objects_wf(os: Seq<ObjectModel>) -> bool {
    forall|i: int| 0 <= i < os.len() ==> object_wf(#[trigger] os[i])
}

pub proof fn lemma_element_ranges_push<T>(t: Seq<((u32, u32), T)>, x: ((u32, u32), T))
    ensures
        element_ranges(t.push(x)) == element_ranges(t).push(x.0),
{
    assert(element_ranges(t.push(x)) =~= element_ranges(t).push(x.0));
}

pub proof fn lemma_chained_push(ranges: Seq<(u32, u32)>, start: nat, a: nat, b: u32)
    requires
        chained_from(ranges, start, a),
        a <= b,
    ensures
        chained_from(ranges.push((a as u32, b)), start, b as nat),
{
    let r2 = ranges.push((a as u32, b));
    assert forall|j: int, k: int| 0 <= j && k == j + 1 && k < r2.len() implies (#[trigger] r2[j]).1 == (
    #[trigger] r2[k]).0 by {
        if k == r2.len() - 1 {
            if ranges.len() > 0 {
                assert(r2[j] == ranges.last());
            }
        } else {
            assert(r2[j] == ranges[j]);
            assert(r2[k] == ranges[k]);
        }
    }
}

/// A chain that starts at `start` has every range within `start..end`.
pub proof fn lemma_chained_bounds(ranges: Seq<(u32, u32)>, start: nat, end: nat)
    requires
        chained_from(ranges, start, end),
    ensures
        forall|k: int| 0 <= k < ranges.len() ==> start <= (#[trigger] ranges[k]).0 && ranges[k].1 <= end,
    decreases ranges.len(),
{
    if ranges.len() > 0 {
        let front = ranges.drop_last();
        let mid = ranges.last().0;
        assert(chained_from(front, start, mid as nat)) by {
            assert forall|j: int, k: int| 0 <= j && k == j + 1 && k < front.len() implies (
            #[trigger] front[j]).1 == (#[trigger] front[k]).0 by {
                assert(front[j] == ranges[j]);
                assert(front[k] == ranges[k]);
            }
            if front.len() > 0 {
                assert(front.last() == ranges[ranges.len() - 2]);
                assert(front[0] == ranges[0]);
            }
        }
        lemma_chained_bounds(front, start, mid as nat);
        assert forall|k: int| 0 <= k < ranges.len() implies start <= (#[trigger] ranges[k]).0 && ranges[k].1
            <= end by {
            if k < ranges.len() - 1 {
                assert(ranges[k] == front[k]);
                assert(front[k].0 <= front[k].1);
            }
        }
    }
}

/// The shape entries of a group table whose element ranges chain from 1 up
/// to `end`: one per element, numbered from one in order, naming groups
/// within `1..=gmax`.
pub proof fn lemma_group_rows(t: Seq<((u32, u32), (u32, u32))>, end: nat, gmax: nat)
    requires
        chained_from(element_ranges(t), 1, end),
        forall|k: int| 0 <= k < t.len() ==> 1 <= (#[trigger] t[k]).1.0 <= t[k].1.1 <= gmax + 1,
    ensures
        group_rows(t).len() == end - 1,
        forall|i: int| 0 <= i < end - 1 ==> (#[trigger] group_rows(t)[i]).element == i + 1,
        forall|i: int| 0 <= i < end - 1 ==> (#[trigger] group_rows(t)[i]).smoothing_group == 1,
        forall|i: int, j: int|
            0 <= i < end - 1 && 0 <= j < group_rows(t)[i].groups.len() ==> 1 <= (
            #[trigger] group_rows(t)[i].groups[j]) <= gmax,
    decreases t.len(),
{
    let r = element_ranges(t);
    if t.len() == 0 {
    } else {
        let front = t.drop_last();
        let mid = t.last().0.0;
        let rf = element_ranges(front);
        assert(rf =~= r.drop_last());
        assert(r.last() == t.last().0);
        assert(chained_from(rf, 1, mid as nat)) by {
            assert forall|j: int, k: int| 0 <= j && k == j + 1 && k < rf.len() implies (#[trigger] rf[j]).1 == (
            #[trigger] rf[k]).0 by {
                assert(rf[j] == r[j]);
                assert(rf[k] == r[k]);
            }
            if rf.len() > 0 {
                assert(rf.last() == r[r.len() - 2]);
                assert(rf[0] == r[0]);
            }
        }
        assert forall|k: int| 0 <= k < front.len() implies 1 <= (#[trigger] front[k]).1.0 <= front[k].1.1
            <= gmax + 1 by {
            assert(front[k] == t[k]);
        }
        lemma_chained_bounds(r, 1, end);
        assert(r[r.len() - 1].0 <= r[r.len() - 1].1);
        lemma_group_rows(front, mid as nat, gmax);
        let e = t.last();
        let tail = range_seq(e.0.0, e.0.1).map_values(
            |i: u32| ShapeEntryModel { element: i, groups: range_seq(e.1.0, e.1.1), smoothing_group: 1 },
        );
        assert(group_rows(t) == group_rows(front) + tail);
        assert forall|i: int| 0 <= i < end - 1 implies (#[trigger] group_rows(t)[i]).element == i + 1
            && group_rows(t)[i].smoothing_group == 1 && forall|j: int|
            0 <= j < group_rows(t)[i].groups.len() ==> 1 <= (#[trigger] group_rows(t)[i].groups[j]) <= gmax by {
            if i >= mid - 1 {
                assert(group_rows(t)[i] == tail[i - (mid - 1)]);
            } else {
                assert(group_rows(t)[i] == group_rows(front)[i]);
            }
        }
    }
}

/// The smoothing table of a finished object never reaches past its shape
/// entries, and writes smoothing groups within `1..=smax`.
pub proof fn lemma_apply_smoothing(rows: Seq<ShapeEntryModel>, t: Seq<((u32, u32), u32)>, end: nat, smax: nat)
    requires
        rows.len() + 1 == end,
        chained_from(element_ranges(t), 1, end) || (t.len() == 1 && t[0].0.0 == t[0].0.1),
        forall|k: int| 0 <= k < t.len() ==> 1 <= (#[trigger] t[k]).1 <= smax,
        forall|i: int| 0 <= i < rows.len() ==> 1 <= (#[trigger] rows[i]).smoothing_group <= smax,
    ensures
        apply_smoothing(rows, t) matches Some(r) && r.len() == rows.len() && (forall|i: int|
            0 <= i < rows.len() ==> (#[trigger] r[i]).element == rows[i].element && r[i].groups == rows[i].groups
                && 1 <= r[i].smoothing_group <= smax),
    decreases t.len(),
{
    if t.len() > 0 {
        let front = t.drop_last();
        let r = element_ranges(t);
        if chained_from(r, 1, end) {
            lemma_chained_bounds(r, 1, end);
            assert forall|k: int| 0 <= k < front.len() implies (#[trigger] front[k]).0.0 <= front[k].0.1 by {
                assert(front[k] == t[k]);
                assert(r[k] == t[k].0);
            }
            assert forall|k: int| 0 <= k < front.len() implies 1 <= (#[trigger] front[k]).0.0 && front[k].0.1
                <= end by {
                assert(front[k] == t[k]);
                assert(r[k] == t[k].0);
            }
            assert forall|k: int| 0 <= k < front.len() implies 1 <= (#[trigger] front[k]).1 <= smax by {
                assert(front[k] == t[k]);
            }
            lemma_apply_smoothing_prefix(rows, front, end, smax);
        } else {
            assert(front.len() == 0);
            assert(apply_smoothing(rows, front) == Some(rows));
        }
    }
}

/// The ranges of a prefix of a chain from 1 up to `end` lie within
/// `1..end`, so the smoothing table's prefix writes within the entries.
pub proof fn lemma_apply_smoothing_prefix(rows: Seq<ShapeEntryModel>, t: Seq<((u32, u32), u32)>, end: nat, smax: nat)
    requires
        rows.len() + 1 == end,
        forall|k: int| 0 <= k < t.len() ==> (#[trigger] t[k]).0.0 <= t[k].0.1,
        forall|k: int| 0 <= k < t.len() ==> 1 <= (#[trigger] t[k]).0.0 && t[k].0.1 <= end,
        forall|k: int| 0 <= k < t.len() ==> 1 <= (#[trigger] t[k]).1 <= smax,
        forall|i: int| 0 <= i < rows.len() ==> 1 <= (#[trigger] rows[i]).smoothing_group <= smax,
    ensures
        apply_smoothing(rows, t) matches Some(r) && r.len() == rows.len() && (forall|i: int|
            0 <= i < rows.len() ==> (#[trigger] r[i]).element == rows[i].element && r[i].groups == rows[i].groups
                && 1 <= r[i].smoothing_group <= smax),
    decreases t.len(),
{
    if t.len() > 0 {
        let front = t.drop_last();
        assert forall|k: int| 0 <= k < front.len() implies (#[trigger] front[k]).0.0 <= front[k].0.1 by {
            assert(front[k] == t[k]);
        }
        assert forall|k: int| 0 <= k < front.len() implies 1 <= (#[trigger] front[k]).0.0 && front[k].0.1
            <= end by {
            assert(front[k] == t[k]);
        }
        assert forall|k: int| 0 <= k < front.len() implies 1 <= (#[trigger] front[k]).1 <= smax by {
            assert(front[k] == t[k]);
        }
        lemma_apply_smoothing_prefix(rows, front, end, smax);
        assert(t.last() == t[t.len() - 1]);
    }
}

/// The object a finished parse state describes, with the shape entries
/// `shapes`.
pub open spec fn object_with(name: Seq<char>, st: ObjState, shapes: Seq<ShapeEntryModel>) -> ObjectModel {
    ObjectModel {
        name: name,
        vertex_set: st.vertices,
        texture_vertex_set: st.texture_vertices,
        normal_vertex_set: st.normal_vertices,
        group_set: st.groups,
        smoothing_group_set: st.smoothing_groups,
        element_set: st.elements,
        shape_set: shapes,
    }
}

/// A parse state that holds between statements gives, once finished, shape
/// entries that are well defined and an object that is well formed.
pub proof fn lemma_finished_object_wf(name: Seq<char>, st: ObjState)
    requires
        state_wf(st),
    ensures
        apply_smoothing(group_rows(finished(st).group_entry_table), finished(st).smoothing_group_entry_table)
            matches Some(shapes) && object_wf(object_with(name, st, shapes)),
{
    let f = finished(st);
    let e = st.elements.len();
    let gt = f.group_entry_table;
    let stt = f.smoothing_group_entry_table;
    lemma_element_ranges_push(st.group_entry_table, gt.last());
    lemma_element_ranges_push(st.smoothing_group_entry_table, stt.last());
    let rows = group_rows(gt);
    lemma_group_rows_increasing(gt);
    if st.groups.len() > 0 {
        lemma_chained_push(element_ranges(st.group_entry_table), 1, st.min_element_group_index as nat,
            st.max_element_group_index);
        assert forall|k: int| 0 <= k < gt.len() implies 1 <= (#[trigger] gt[k]).1.0 <= gt[k].1.1
            <= st.groups.len() + 1 by {
            if k < gt.len() - 1 {
                assert(gt[k] == st.group_entry_table[k]);
            }
        }
        lemma_group_rows(gt, 1 + e, st.groups.len());
    } else {
        assert(gt.drop_last() =~= Seq::<((u32, u32), (u32, u32))>::empty());
        assert(group_rows(gt.drop_last()) =~= Seq::<ShapeEntryModel>::empty());
        assert(range_seq(gt.last().0.0, gt.last().0.1) =~= Seq::<u32>::empty());
        assert(rows =~= Seq::<ShapeEntryModel>::empty());
    }
    if st.smoothing_groups.len() > 0 {
        lemma_chained_push(element_ranges(st.smoothing_group_entry_table), 1,
            st.min_element_smoothing_group_index as nat, st.max_element_smoothing_group_index);
        assert forall|k: int| 0 <= k < stt.len() implies 1 <= (#[trigger] stt[k]).1
            <= st.smoothing_groups.len() by {
            if k < stt.len() - 1 {
                assert(stt[k] == st.smoothing_group_entry_table[k]);
            }
        }
        lemma_apply_smoothing(rows, stt, 1 + e, st.smoothing_groups.len());
    } else {
        assert(stt.drop_last() =~= Seq::<((u32, u32), u32)>::empty());
        assert(apply_smoothing(rows, stt.drop_last()) == Some(rows));
        let r = apply_smoothing(rows, stt)->0;
        assert(r =~= rows);
    }
}

/// The number of indices a run reads is at most the number of tokens.
pub proof fn lemma_vtn_run_len(ts: Seq<Seq<char>>)
    ensures
        spec_vtn_run(ts).0.len() <= ts.len(),
    decreases ts.len(),
{
    if ts.len() > 0 && vtn_of(ts[0]) is Some {
        lemma_vtn_run_len(ts.drop_first());
    }
}

/// The count an element statement returns is the number of elements it
/// adds.
pub open spec fn element_count_exact(ts: Seq<Seq<char>>) -> bool {
    spec_parse_elements(ts).1 matches Parsed::Done(cnt, _) ==> cnt == spec_parse_elements(ts).0.len()
}

/// On an input of at most `u32::MAX` tokens, the count an element statement
/// returns is the number of elements it adds.
pub proof fn lemma_element_count(ts: Seq<Seq<char>>)
    requires
        ts.len() <= u32::MAX,
    ensures
        element_count_exact(ts),
{
    lemma_vtn_run_len(ts.skip(3));
    lemma_vtn_run_len(ts.skip(1));
}

/// Each statement of an object's body keeps the state well formed.
pub proof fn lemma_statement_wf(st: ObjState, ts: Seq<Seq<char>>)
    requires
        state_wf(st),
        0 < ts.len(),
        ts.len() <= u32::MAX || element_count_exact(ts),
    ensures
        object_statement(st, ts) matches Parsed::Done(st2, _) ==> state_wf(st2),
{
    let t = ts[0];
    if t == "g"@ {
        if let Parsed::Done(st2, _) = group_statement(st, ts) {
            if st.groups.len() > 0 {
                lemma_element_ranges_push(st.group_entry_table, st2.group_entry_table.last());
                lemma_chained_push(
                    element_ranges(st.group_entry_table),
                    1,
                    st.min_element_group_index as nat,
                    st.max_element_group_index,
                );
                assert forall|k: int| 0 <= k < st2.group_entry_table.len() implies 1 <= (
                #[trigger] st2.group_entry_table[k]).1.0 <= st2.group_entry_table[k].1.1
                    <= st2.min_group_index by {
                    if k < st.group_entry_table.len() {
                        assert(st2.group_entry_table[k] == st.group_entry_table[k]);
                    }
                }
            } else {
                assert(element_ranges(st2.group_entry_table).len() == 0);
            }
        }
    } else if t == "s"@ {
        if let Parsed::Done(st2, _) = smoothing_statement(st, ts) {
            if st.smoothing_groups.len() > 0 {
                lemma_element_ranges_push(st.smoothing_group_entry_table, st2.smoothing_group_entry_table.last());
                lemma_chained_push(
                    element_ranges(st.smoothing_group_entry_table),
                    1,
                    st.min_element_smoothing_group_index as nat,
                    st.max_element_smoothing_group_index,
                );
                assert forall|k: int| 0 <= k < st2.smoothing_group_entry_table.len() implies 1 <= (
                #[trigger] st2.smoothing_group_entry_table[k]).1 <= st2.smoothing_groups.len() by {
                    if k < st.smoothing_group_entry_table.len() {
                        assert(st2.smoothing_group_entry_table[k] == st.smoothing_group_entry_table[k]);
                    }
                }
            } else {
                assert(element_ranges(st2.smoothing_group_entry_table).len() == 0);
            }
        }
    } else if t == "p"@ || t == "l"@ || t == "f"@ {
        let st1 = prepared_for_elements(st);
        assert(state_wf(st1));
        if ts.len() <= u32::MAX {
            lemma_element_count(ts);
        }
    }
}

/// Between statements the state stays well formed, so the object the body
/// loop finishes is well formed.
pub proof fn lemma_object_loop_wf(name: Seq<char>, st: ObjState, ts: Seq<Seq<char>>)
    requires
        state_wf(st),
        ts.len() <= u32::MAX,
    ensures
        object_loop(st, ts) matches Parsed::Done(st2, _) ==> apply_smoothing(
            group_rows(st2.group_entry_table),
            st2.smoothing_group_entry_table,
        ) matches Some(shapes) && object_wf(object_with(name, st2, shapes)),
    decreases ts.len(),
{
    if ts.len() == 0 || ts[0] == "o"@ {
        lemma_finished_object_wf(name, st);
        let f = finished(st);
        if let Some(shapes) = apply_smoothing(group_rows(f.group_entry_table), f.smoothing_group_entry_table) {
            assert(object_with(name, f, shapes) == object_with(name, st, shapes));
        }
    } else {
        lemma_statement_wf(st, ts);
        if let Parsed::Done(st2, n) = object_statement(st, ts) {
            if 0 < n <= ts.len() {
                lemma_object_loop_wf(name, st2, ts.skip(n as int));
            }
        }
    }
}

/// Every object the parser builds is well formed.
pub proof fn lemma_parse_object_wf(ts: Seq<Seq<char>>)
    requires
        ts.len() <= u32::MAX,
    ensures
        spec_parse_object(ts) matches Parsed::Done(o, _) ==> object_wf(o),
{
    if ts.len() > 1 {
        lemma_leading_newlines_bound(ts.skip(2).drop_first());
    } else if ts.len() > 0 {
        lemma_leading_newlines_bound(ts.skip(1).drop_first());
    }
    if let Parsed::Done(name, n) = spec_parse_object_name(ts) {
        assert(n <= ts.len());
        lemma_object_loop_wf(name, initial_state(), ts.skip(n as int));
        if let Parsed::Done(st, m) = object_loop(initial_state(), ts.skip(n as int)) {
            if let Some(shapes) = apply_smoothing(group_rows(st.group_entry_table), st.smoothing_group_entry_table) {
                assert(spec_parse_object(ts) == Parsed::<ObjectModel, ()>::Done(object_with(name, st, shapes), n + m));
            }
        }
    }
}

/// Every object of a parsed set is well formed.
pub proof fn lemma_objects_wf(ts: Seq<Seq<char>>)
    requires
        ts.len() <= u32::MAX,
    ensures
        spec_objects(ts) matches Parsed::Done(os, _) ==> objects_wf(os),
    decreases ts.len(),
{
    if ts.len() > 0 {
        lemma_parse_object_wf(ts);
        lemma_objects_step(ts);
        if let Parsed::Done(o, n) = spec_parse_object(ts) {
            if 0 < n <= ts.len() {
                let k = leading_newlines(ts.skip(n as int));
                lemma_leading_newlines_bound(ts.skip(n as int));
                lemma_objects_wf(ts.skip((n + k) as int));
                if let Parsed::Done(os, m) = spec_objects(ts.skip((n + k) as int)) {
                    assert forall|i: int| 0 <= i < os.len() + 1 implies object_wf(#[trigger] (seq![o] + os)[i]) by {
                        if i > 0 {
                            assert((seq![o] + os)[i] == os[i - 1]);
                        }
                    }
                }
            }
        }
    }
}

/// Every object that parsing a whole text of at most `u32::MAX` characters
/// gives is well formed: one shape entry per element, numbered from one in
/// order, each naming groups and a smoothing group the object has.
pub proof fn lemma_parse_wf(input: Seq<char>)
    requires
        input.len() <= u32::MAX,
    ensures
        spec_parse(tokenize(input)) matches Parsed::Done(os, _) ==> objects_wf(os),
{
    let ts = tokenize(input);
    lemma_tokens_count(input, 0);
    let k = leading_newlines(ts);
    lemma_leading_newlines_bound(ts);
    lemma_objects_wf(ts.skip(k as int));
}

/// Once an object has groups, the current and every recorded range of
/// group numbers is nonempty.
pub open spec fn groups_strict(st: ObjState) -> bool {
    st.groups.len() > 0 ==> st.min_group_index < st.max_group_index && forall|k: int|
        0 <= k < st.group_entry_table.len() ==> (#[trigger] st.group_entry_table[k]).1.0
            < st.group_entry_table[k].1.1
}

/// Every shape entry of the object names at least one group.
pub open spec fn entries_grouped(o: ObjectModel) -> bool {
    forall|i: int| 0 <= i < o.shape_set.len() ==> (#[trigger] o.shape_set[i]).groups.len() > 0
}

/// Every statement keeps the group ranges nonempty: a `g` statement names at
/// least one group.
pub proof fn lemma_statement_grouped(st: ObjState, ts: Seq<Seq<char>>)
    requires
        state_wf(st),
        groups_strict(st),
        0 < ts.len() <= u32::MAX,
    ensures
        object_statement(st, ts) matches Parsed::Done(st2, _) ==> groups_strict(st2),
{
    let t = ts[0];
    if t == "g"@ {
        if let Parsed::Done(st2, _) = group_statement(st, ts) {
            if st.groups.len() > 0 {
                assert forall|k: int| 0 <= k < st2.group_entry_table.len() implies (
                #[trigger] st2.group_entry_table[k]).1.0 < st2.group_entry_table[k].1.1 by {
                    if k < st.group_entry_table.len() {
                        assert(st2.group_entry_table[k] == st.group_entry_table[k]);
                    }
                }
            }
        }
    }
}

/// The shape entries of a group table each of whose nonempty element ranges
/// has a nonempty range of groups each name a group.
pub proof fn lemma_group_rows_grouped(t: Seq<((u32, u32), (u32, u32))>)
    requires
        forall|k: int| 0 <= k < t.len() && (#[trigger] t[k]).0.0 < t[k].0.1 ==> t[k].1.0 < t[k].1.1,
    ensures
        forall|i: int| 0 <= i < group_rows(t).len() ==> (#[trigger] group_rows(t)[i]).groups.len() > 0,
    decreases t.len(),
{
    if t.len() > 0 {
        let front = t.drop_last();
        assert forall|k: int| 0 <= k < front.len() && (#[trigger] front[k]).0.0 < front[k].0.1 implies front[k].1.0
            < front[k].1.1 by {
            assert(front[k] == t[k]);
        }
        lemma_group_rows_grouped(front);
        let e = t.last();
        assert(e == t[t.len() - 1]);
        let tail = range_seq(e.0.0, e.0.1).map_values(
            |i: u32| ShapeEntryModel { element: i, groups: range_seq(e.1.0, e.1.1), smoothing_group: 1 },
        );
        assert(group_rows(t) == group_rows(front) + tail);
        assert forall|i: int| 0 <= i < group_rows(t).len() implies (#[trigger] group_rows(t)[i]).groups.len()
            > 0 by {
            if i >= group_rows(front).len() {
                assert(group_rows(t)[i] == tail[i - group_rows(front).len()]);
            } else {
                assert(group_rows(t)[i] == group_rows(front)[i]);
            }
        }
    }
}

/// Every shape entry of the object the body loop finishes names a group.
pub proof fn lemma_object_loop_grouped(name: Seq<char>, st: ObjState, ts: Seq<Seq<char>>)
    requires
        state_wf(st),
        groups_strict(st),
        ts.len() <= u32::MAX,
    ensures
        object_loop(st, ts) matches Parsed::Done(st2, _) ==> apply_smoothing(
            group_rows(st2.group_entry_table),
            st2.smoothing_group_entry_table,
        ) matches Some(shapes) && entries_grouped(object_with(name, st2, shapes)),
    decreases ts.len(),
{
    if ts.len() == 0 || ts[0] == "o"@ {
        lemma_finished_object_wf(name, st);
        let f = finished(st);
        let gt = f.group_entry_table;
        if st.groups.len() > 0 {
            assert forall|k: int| 0 <= k < gt.len() && (#[trigger] gt[k]).0.0 < gt[k].0.1 implies gt[k].1.0
                < gt[k].1.1 by {
                if k < gt.len() - 1 {
                    assert(gt[k] == st.group_entry_table[k]);
                }
            }
            lemma_group_rows_grouped(gt);
        } else {
            assert(gt.drop_last() =~= Seq::<((u32, u32), (u32, u32))>::empty());
            assert(group_rows(gt.drop_last()) =~= Seq::<ShapeEntryModel>::empty());
            assert(range_seq(gt.last().0.0, gt.last().0.1) =~= Seq::<u32>::empty());
            assert(group_rows(gt) =~= Seq::<ShapeEntryModel>::empty());
        }
        let rows = group_rows(gt);
        let e = st.elements.len();
        if st.smoothing_groups.len() > 0 {
            lemma_element_ranges_push(st.smoothing_group_entry_table, f.smoothing_group_entry_table.last());
            lemma_chained_push(element_ranges(st.smoothing_group_entry_table), 1,
                st.min_element_smoothing_group_index as nat, st.max_element_smoothing_group_index);
            let stt = f.smoothing_group_entry_table;
            assert forall|k: int| 0 <= k < stt.len() implies 1 <= (#[trigger] stt[k]).1
                <= st.smoothing_groups.len() by {
                if k < stt.len() - 1 {
                    assert(stt[k] == st.smoothing_group_entry_table[k]);
                }
            }
            if st.groups.len() > 0 {
                lemma_element_ranges_push(st.group_entry_table, gt.last());
                lemma_chained_push(element_ranges(st.group_entry_table), 1, st.min_element_group_index as nat,
                    st.max_element_group_index);
                assert forall|k: int| 0 <= k < gt.len() implies 1 <= (#[trigger] gt[k]).1.0 <= gt[k].1.1
                    <= st.groups.len() + 1 by {
                    if k < gt.len() - 1 {
                        assert(gt[k] == st.group_entry_table[k]);
                    }
                }
                lemma_group_rows(gt, 1 + e, st.groups.len());
            }
            lemma_apply_smoothing(rows, stt, 1 + e, st.smoothing_groups.len());
        } else {
            let stt = f.smoothing_group_entry_table;
            assert(stt.drop_last() =~= Seq::<((u32, u32), u32)>::empty());
            assert(apply_smoothing(rows, stt.drop_last()) == Some(rows));
        }
    } else {
        lemma_statement_wf(st, ts);
        lemma_statement_grouped(st, ts);
        if let Parsed::Done(st2, n) = object_statement(st, ts) {
            if 0 < n <= ts.len() {
                lemma_object_loop_grouped(name, st2, ts.skip(n as int));
            }
        }
    }
}

/// Every shape entry of the object the parser builds names a group.
pub proof fn lemma_parse_object_grouped(ts: Seq<Seq<char>>)
    requires
        ts.len() <= u32::MAX,
    ensures
        spec_parse_object(ts) matches Parsed::Done(o, _) ==> entries_grouped(o),
{
    if ts.len() > 1 {
        lemma_leading_newlines_bound(ts.skip(2).drop_first());
    } else if ts.len() > 0 {
        lemma_leading_newlines_bound(ts.skip(1).drop_first());
    }
    if let Parsed::Done(name, n) = spec_parse_object_name(ts) {
        assert(n <= ts.len());
        lemma_object_loop_grouped(name, initial_state(), ts.skip(n as int));
        if let Parsed::Done(st, m) = object_loop(initial_state(), ts.skip(n as int)) {
            if let Some(shapes) = apply_smoothing(group_rows(st.group_entry_table), st.smoothing_group_entry_table) {
                assert(spec_parse_object(ts) == Parsed::<ObjectModel, ()>::Done(object_with(name, st, shapes), n + m));
            }
        }
    }
}

pub proof fn lemma_objects_grouped(ts: Seq<Seq<char>>)
    requires
        ts.len() <= u32::MAX,
    ensures
        spec_objects(ts) matches Parsed::Done(os, _) ==> forall|i: int| 0 <= i < os.len() ==> entries_grouped(
            #[trigger] os[i],
        ),
    decreases ts.len(),
{
    if ts.len() > 0 {
        lemma_parse_object_grouped(ts);
        lemma_objects_step(ts);
        if let Parsed::Done(o, n) = spec_parse_object(ts) {
            if 0 < n <= ts.len() {
                let k = leading_newlines(ts.skip(n as int));
                lemma_leading_newlines_bound(ts.skip(n as int));
                lemma_objects_grouped(ts.skip((n + k) as int));
                if let Parsed::Done(os, m) = spec_objects(ts.skip((n + k) as int)) {
                    assert forall|i: int| 0 <= i < os.len() + 1 implies entries_grouped(#[trigger] (seq![o] + os)[i]) by {
                        if i > 0 {
                            assert((seq![o] + os)[i] == os[i - 1]);
                        }
                    }
                }
            }
        }
    }
}

/// Every element of every object parsed from a text of at most `u32::MAX`
/// characters belongs to a group: its shape entry names at least one.
pub proof fn lemma_parse_grouped(input: Seq<char>)
    requires
        input.len() <= u32::MAX,
    ensures
        spec_parse(tokenize(input)) matches Parsed::Done(os, _) ==> forall|i: int|
            0 <= i < os.len() ==> entries_grouped(#[trigger] os[i]),
{
    let ts = tokenize(input);
    lemma_tokens_count(input, 0);
    let k = leading_newlines(ts);
    lemma_leading_newlines_bound(ts);
    lemma_objects_grouped(ts.skip(k as int));
}

/// Why an internal parsing step produced no value.
enum Stop {
    Invalid(ParseError),
    Undefined,
}

/// `reports`, for steps that may reach the inputs on which the parser is
/// not defined.
spec fn reports_stop<E: View>(
    r: Result<E, Stop>,
    p: Step<E::V>,
    ts: Seq<Seq<char>>,
    line0: nat,
    ts1: Seq<Seq<char>>,
    line1: nat,
) -> bool {
    match p {
        Parsed::Done(v, n) => {
            &&& r matches Ok(e) && e@ == v
            &&& advanced(ts, line0, ts1, line1, n)
        },
        Parsed::Fail(_, m, n) => {
            &&& r matches Err(Stop::Invalid(e)) && e.text() == m && e.line() == line1
            &&& advanced(ts, line0, ts1, line1, n)
        },
        Parsed::Abort => r matches Err(Stop::Undefined),
    }
}

/// `reports_stop` for a step that appends to a vector.
spec fn reports_push<T>(
    r: Result<u32, Stop>,
    p: (Seq<T>, Step<u32>),
    before: Seq<T>,
    after: Seq<T>,
    ts: Seq<Seq<char>>,
    line0: nat,
    ts1: Seq<Seq<char>>,
    line1: nat,
) -> bool {
    &&& reports_stop(r, p.1, ts, line0, ts1, line1)
    &&& !(p.1 is Abort) ==> after == before + p.0
}

/// `reports` for a step that appends to a vector.
pub open spec fn reports_pushed<T>(
    r: Result<u32, ParseError>,
    p: (Seq<T>, Step<u32>),
    before: Seq<T>,
    after: Seq<T>,
    ts: Seq<Seq<char>>,
    line0: nat,
    ts1: Seq<Seq<char>>,
    line1: nat,
) -> bool {
    &&& reports(r, p.1, ts, line0, ts1, line1)
    &&& after == before + p.0
}

/// The position of the first `c` in `t` from `from` on.
fn find_char(t: &Vec<char>, c: char, from: usize) -> (r: Option<usize>)
    requires
        from <= t@.len(),
    ensures
        match find_char_from(t@, c, from as int) {
            Some(i) => r == Some(i as usize),
            None => r is None,
        },
{
    let mut i: usize = from;
    while i < t.len()
        invariant
            from <= i <= t@.len(),
            find_char_from(t@, c, from as int) == find_char_from(t@, c, i as int),
        decreases t@.len() - i,
    {
        if t[i] == c {
            return Some(i);
        }
        i = i + 1;
    }
    None
}

/// The position of the first `//` in `t`.
fn find_double_slash(t: &Vec<char>) -> (r: Option<usize>)
    ensures
        match find_double_slash_from(t@, 0) {
            Some(i) => r == Some(i as usize),
            None => r is None,
        },
{
    let mut i: usize = 0;
    while i < t.len()
        invariant
            i <= t@.len(),
            find_double_slash_from(t@, 0) == find_double_slash_from(t@, i as int),
        decreases t@.len() - i,
    {
        if i + 1 >= t.len() {
            return None;
        }
        if t[i] == '/' && t[i + 1] == '/' {
            return Some(i);
        }
        i = i + 1;
    }
    None
}

/// The number the characters `from..to` of `t` spell, as `str::parse::<u32>`
/// reads it.
fn u32_between(t: &Vec<char>, from: usize, to: usize) -> (r: Option<u32>)
    requires
        from <= to <= t@.len(),
    ensures
        r == spec_parse_u32(t@.subrange(from as int, to as int)),
{
    let part = copy_range(t, from, to);
    parse_u32_token(&part)
}

/// The search for `c` passes over characters other than `c`.
proof fn lemma_find_char_skip(s: Seq<char>, c: char, k: int, p: int)
    requires
        0 <= k <= p <= s.len(),
        forall|m: int| k <= m < p ==> s[m] != c,
    ensures
        find_char_from(s, c, k) == find_char_from(s, c, p),
    decreases p - k,
{
    if k < p {
        lemma_find_char_skip(s, c, k + 1, p);
    }
}

/// The search for `//` passes over places where it does not stand.
proof fn lemma_find_double_slash_skip(s: Seq<char>, k: int, p: int)
    requires
        0 <= k <= p <= s.len(),
        forall|m: int| k <= m < p && m + 1 < s.len() ==> !(#[trigger] s[m] == '/' && s[m + 1] == '/'),
    ensures
        find_double_slash_from(s, k) == find_double_slash_from(s, p),
    decreases p - k,
{
    if k < p && k + 1 < s.len() {
        lemma_find_double_slash_skip(s, k + 1, p);
    } else if k < p {
        assert(find_double_slash_from(s, k) is None);
        assert(find_double_slash_from(s, p) is None);
    }
}

#[verifier::spinoff_prover]
proof fn lemma_read_back_v(v: u32)
    ensures
        vtn_of(crate::compose::vtn_text(VTNIndex::V(v))) == Some(VTNIndex::V(v)),
{
    reveal_strlit("/");
    reveal_strlit("//");
    let dv = decimal_text(v as nat);
    lemma_decimal_text(v as nat);
    lemma_parse_decimal_u32(v);
    let t = crate::compose::vtn_text(VTNIndex::V(v));
    assert(t == dv);
    lemma_find_char_skip(t, '/', 0, t.len() as int);
    lemma_find_double_slash_skip(t, 0, t.len() as int);
}

#[verifier::spinoff_prover]
proof fn lemma_read_back_vt(v: u32, x: u32)
    ensures
        vtn_of(crate::compose::vtn_text(VTNIndex::VT(v, x))) == Some(VTNIndex::VT(v, x)),
{
    reveal_strlit("/");
    reveal_strlit("//");
    let dv = decimal_text(v as nat);
    let dx = decimal_text(x as nat);
    lemma_decimal_text(v as nat);
    lemma_decimal_text(x as nat);
    lemma_parse_decimal_u32(v);
    lemma_parse_decimal_u32(x);
    let t = crate::compose::vtn_text(VTNIndex::VT(v, x));
    let l = dv.len() as int;
    assert(t =~= dv + seq!['/'] + dx);
    assert forall|m: int| 0 <= m < l implies t[m] != '/' by {
        assert(t[m] == dv[m]);
    }
    assert forall|m: int| l < m < t.len() implies t[m] != '/' by {
        assert(t[m] == dx[m - l - 1]);
    }
    assert(t[l] == '/');
    lemma_find_char_skip(t, '/', 0, l);
    lemma_find_char_skip(t, '/', l + 1, t.len() as int);
    assert(t[l + 1] == dx[0]);
    lemma_find_double_slash_skip(t, 0, t.len() as int);
    assert(t.subrange(0, l) =~= dv);
    assert(t.subrange(l + 1, t.len() as int) =~= dx);
}

#[verifier::spinoff_prover]
proof fn lemma_read_back_vn(v: u32, n: u32)
    ensures
        vtn_of(crate::compose::vtn_text(VTNIndex::VN(v, n))) == Some(VTNIndex::VN(v, n)),
{
    reveal_strlit("/");
    reveal_strlit("//");
    let dv = decimal_text(v as nat);
    let dn = decimal_text(n as nat);
    lemma_decimal_text(v as nat);
    lemma_decimal_text(n as nat);
    lemma_parse_decimal_u32(v);
    lemma_parse_decimal_u32(n);
    let t = crate::compose::vtn_text(VTNIndex::VN(v, n));
    let l = dv.len() as int;
    assert(t =~= dv + seq!['/', '/'] + dn);
    assert forall|m: int| 0 <= m < l implies t[m] != '/' by {
        assert(t[m] == dv[m]);
    }
    assert(t[l] == '/' && t[l + 1] == '/');
    lemma_find_double_slash_skip(t, 0, l);
    assert(t.subrange(0, l) =~= dv);
    assert(t.subrange(l + 2, t.len() as int) =~= dn);
}

#[verifier::spinoff_prover]
proof fn lemma_read_back_vtn(v: u32, x: u32, n: u32)
    ensures
        vtn_of(crate::compose::vtn_text(VTNIndex::VTN(v, x, n))) == Some(VTNIndex::VTN(v, x, n)),
{
    reveal_strlit("/");
    reveal_strlit("//");
    let dv = decimal_text(v as nat);
    let dx = decimal_text(x as nat);
    let dn = decimal_text(n as nat);
    lemma_decimal_text(v as nat);
    lemma_decimal_text(x as nat);
    lemma_decimal_text(n as nat);
    lemma_parse_decimal_u32(v);
    lemma_parse_decimal_u32(x);
    lemma_parse_decimal_u32(n);
    let t = crate::compose::vtn_text(VTNIndex::VTN(v, x, n));
    let l1 = dv.len() as int;
    let l2 = l1 + 1 + dx.len();
    assert(t =~= dv + seq!['/'] + dx + seq!['/'] + dn);
    assert forall|m: int| 0 <= m < l1 implies t[m] != '/' by {
        assert(t[m] == dv[m]);
    }
    assert forall|m: int| l1 < m < l2 implies t[m] != '/' by {
        assert(t[m] == dx[m - l1 - 1]);
    }
    assert forall|m: int| l2 < m < t.len() implies t[m] != '/' by {
        assert(t[m] == dn[m - l2 - 1]);
    }
    assert(t[l1] == '/' && t[l2] == '/');
    assert(t[l1 + 1] == dx[0] && t[l2 + 1] == dn[0]);
    lemma_find_char_skip(t, '/', 0, l1);
    lemma_find_char_skip(t, '/', l1 + 1, l2);
    lemma_find_double_slash_skip(t, 0, t.len() as int);
    assert(t.subrange(0, l1) =~= dv);
    assert(t.subrange(l1 + 1, l2) =~= dx);
    assert(t.subrange(l2 + 1, t.len() as int) =~= dn);
}

/// Reading the text of an index, as the compositors write it, gives the
/// index back.
pub proof fn lemma_vtn_text_read_back(i: VTNIndex)
    ensures
        vtn_of(crate::compose::vtn_text(i)) == Some(i),
{
    match i {
        VTNIndex::V(v) => lemma_read_back_v(v),
        VTNIndex::VT(v, x) => lemma_read_back_vt(v, x),
        VTNIndex::VN(v, n) => lemma_read_back_vn(v, n),
        VTNIndex::VTN(v, x, n) => lemma_read_back_vtn(v, x, n),
    }
}

proof fn lemma_find_char_bounds(s: Seq<char>, c: char, i: int)
    ensures
        find_char_from(s, c, i) matches Some(k) ==> i <= k < s.len() && s[k] == c,
    decreases s.len() - i,
{
    if !(i < 0 || i >= s.len()) && s[i] != c {
        lemma_find_char_bounds(s, c, i + 1);
    }
}

proof fn lemma_find_double_slash_bounds(s: Seq<char>, i: int)
    ensures
        find_double_slash_from(s, i) matches Some(k) ==> i <= k && k + 1 < s.len(),
    decreases s.len() - i,
{
    if !(i < 0 || i + 1 >= s.len()) && !(s[i] == '/' && s[i + 1] == '/') {
        lemma_find_double_slash_bounds(s, i + 1);
    }
}

/// A token of the form `v//n`.
fn parse_vn(t: &Vec<char>) -> (r: Option<VTNIndex>)
    ensures
        r == vtn_as_vn(t@),
{
    proof {
        lemma_find_double_slash_bounds(t@, 0);
    }
    let len = t.len();
    match find_double_slash(t) {
        Some(i) => match (u32_between(t, 0, i), u32_between(t, i + 2, len)) {
            (Some(v), Some(n)) => Some(VTNIndex::VN(v, n)),
            _ => None,
        },
        None => None,
    }
}

/// A token of the form `v/t/n`.
fn parse_vtn(t: &Vec<char>) -> (r: Option<VTNIndex>)
    ensures
        r == vtn_as_vtn(t@),
{
    proof {
        lemma_find_char_bounds(t@, '/', 0);
        if let Some(i) = find_char_from(t@, '/', 0) {
            lemma_find_char_bounds(t@, '/', i + 1);
        }
    }
    let len = t.len();
    match find_char(t, '/', 0) {
        Some(i) => match find_char(t, '/', i + 1) {
            Some(j) => match (u32_between(t, 0, i), u32_between(t, i + 1, j), u32_between(t, j + 1, len)) {
                (Some(v), Some(x), Some(n)) => Some(VTNIndex::VTN(v, x, n)),
                _ => None,
            },
            None => None,
        },
        None => None,
    }
}

/// A token of the form `v/t`.
fn parse_vt(t: &Vec<char>) -> (r: Option<VTNIndex>)
    ensures
        r == vtn_as_vt(t@),
{
    proof {
        lemma_find_char_bounds(t@, '/', 0);
    }
    let len = t.len();
    match find_char(t, '/', 0) {
        Some(i) => match (u32_between(t, 0, i), u32_between(t, i + 1, len)) {
            (Some(v), Some(x)) => Some(VTNIndex::VT(v, x)),
            _ => None,
        },
        None => None,
    }
}

/// A token of the form `v`.
fn parse_v(t: &Vec<char>) -> (r: Option<VTNIndex>)
    ensures
        r == (match spec_parse_u32(t@) {
            Some(v) => Some(VTNIndex::V(v)),
            None => None,
        }),
{
    match parse_u32_token(t) {
        Some(v) => Some(VTNIndex::V(v)),
        None => None,
    }
}

/// The index a token denotes, in the first of the forms `v//n`, `v/t/n`,
/// `v/t` and `v` that it has.
fn vtn_of_token(t: &Vec<char>) -> (r: Option<VTNIndex>)
    ensures
        r == vtn_of(t@),
{
    let vn = parse_vn(t);
    if vn.is_some() {
        return vn;
    }
    let vtn = parse_vtn(t);
    if vtn.is_some() {
        return vtn;
    }
    let vt = parse_vt(t);
    if vt.is_some() {
        return vt;
    }
    parse_v(t)
}

/// The state of an object's parse, as the parser keeps it.
struct ObjectTables {
    vertices: Vec<Vertex>,
    texture_vertices: Vec<TextureVertex>,
    normal_vertices: Vec<NormalVertex>,
    elements: Vec<Element>,
    group_entry_table: Vec<((u32, u32), (u32, u32))>,
    groups: Vec<Group>,
    min_element_group_index: u32,
    max_element_group_index: u32,
    min_group_index: u32,
    max_group_index: u32,
    smoothing_group_entry_table: Vec<((u32, u32), u32)>,
    smoothing_groups: Vec<SmoothingGroup>,
    min_element_smoothing_group_index: u32,
    max_element_smoothing_group_index: u32,
    smoothing_group_index: u32,
}

impl View for ObjectTables {
    type V = ObjState;

    closed spec fn view(&self) -> ObjState {
        ObjState {
            vertices: vertex_views(self.vertices@),
            texture_vertices: texture_vertex_views(self.texture_vertices@),
            normal_vertices: normal_vertex_views(self.normal_vertices@),
            elements: self.elements@,
            group_entry_table: self.group_entry_table@,
            groups: group_views(self.groups@),
            min_element_group_index: self.min_element_group_index,
            max_element_group_index: self.max_element_group_index,
            min_group_index: self.min_group_index,
            max_group_index: self.max_group_index,
            smoothing_group_entry_table: self.smoothing_group_entry_table@,
            smoothing_groups: smoothing_views(self.smoothing_groups@),
            min_element_smoothing_group_index: self.min_element_smoothing_group_index,
            max_element_smoothing_group_index: self.max_element_smoothing_group_index,
            smoothing_group_index: self.smoothing_group_index,
        }
    }
}

impl ObjectTables {
    fn new() -> (t: ObjectTables)
        ensures
            t@ == initial_state(),
    {
        let t = ObjectTables {
            vertices: Vec::new(),
            texture_vertices: Vec::new(),
            normal_vertices: Vec::new(),
            elements: Vec::new(),
            group_entry_table: Vec::new(),
            groups: Vec::new(),
            min_element_group_index: 0,
            max_element_group_index: 0,
            min_group_index: 0,
            max_group_index: 0,
            smoothing_group_entry_table: Vec::new(),
            smoothing_groups: Vec::new(),
            min_element_smoothing_group_index: 0,
            max_element_smoothing_group_index: 0,
            smoothing_group_index: 0,
        };
        assert(vertex_views(t.vertices@) =~= Seq::empty());
        assert(texture_vertex_views(t.texture_vertices@) =~= Seq::empty());
        assert(normal_vertex_views(t.normal_vertices@) =~= Seq::empty());
        assert(group_views(t.groups@) =~= Seq::empty());
        assert(smoothing_views(t.smoothing_groups@) =~= Seq::empty());
        assert(t@ =~= initial_state());
        t
    }

    /// Closes the open ranges at the end of the object.
    fn finish(&mut self)
        ensures
            final(self)@ == finished(old(self)@),
    {
        let entry = (
            (self.min_element_group_index, self.max_element_group_index),
            (self.min_group_index, self.max_group_index),
        );
        self.group_entry_table.push(entry);
        self.min_element_group_index = self.max_element_group_index;
        let entry = (
            (self.min_element_smoothing_group_index, self.max_element_smoothing_group_index),
            self.smoothing_group_index,
        );
        self.smoothing_group_entry_table.push(entry);
        self.min_element_smoothing_group_index = self.max_element_smoothing_group_index;
        assert(self@ =~= finished(old(self)@));
    }
}

/// `reports_stop` for a statement of an object's body, which updates the
/// parse state to `acc`.
spec fn reports_statement(
    r: Result<(), Stop>,
    p: Step<ObjState>,
    acc: ObjState,
    ts: Seq<Seq<char>>,
    line0: nat,
    ts1: Seq<Seq<char>>,
    line1: nat,
) -> bool {
    match p {
        Parsed::Done(st, n) => {
            &&& r is Ok && acc == st
            &&& advanced(ts, line0, ts1, line1, n)
            &&& n > 0
        },
        Parsed::Fail(_, m, n) => {
            &&& r matches Err(Stop::Invalid(e)) && e.text() == m && e.line() == line1
            &&& advanced(ts, line0, ts1, line1, n)
        },
        Parsed::Abort => r matches Err(Stop::Undefined),
    }
}

/// The numbers `lo` up to `hi`.
fn range_vec(lo: u32, hi: u32) -> (v: Vec<u32>)
    ensures
        v@ == range_seq(lo, hi),
{
    let mut v: Vec<u32> = Vec::new();
    if hi <= lo {
        assert(v@ =~= range_seq(lo, hi));
        return v;
    }
    let mut i: u32 = lo;
    while i < hi
        invariant
            lo <= i <= hi,
            v@ =~= range_seq(lo, i),
        decreases hi - i,
    {
        v.push(i);
        i = i + 1;
    }
    v
}

/// The shape entries a group table describes, with smoothing group 1.
fn group_shape_entries(table: &Vec<((u32, u32), (u32, u32))>) -> (rows: Vec<ShapeEntry>)
    ensures
        shape_views(rows@) == group_rows(table@),
{
    let mut rows: Vec<ShapeEntry> = Vec::new();
    let mut k: usize = 0;
    while k < table.len()
        invariant
            k <= table@.len(),
            shape_views(rows@) == group_rows(table@.take(k as int)),
        decreases table@.len() - k,
    {
        let ((lo, hi), (glo, ghi)) = table[k];
        let groups = range_vec(glo, ghi);
        let ghost start = shape_views(rows@);
        let ghost f = |i: u32| ShapeEntryModel { element: i, groups: range_seq(glo, ghi), smoothing_group: 1 };
        if lo < hi {
            let mut i: u32 = lo;
            while i < hi
                invariant
                    lo <= i <= hi,
                    groups@ == range_seq(glo, ghi),
                    f == (|i: u32| ShapeEntryModel { element: i, groups: range_seq(glo, ghi), smoothing_group: 1 }),
                    shape_views(rows@) == start + range_seq(lo, i).map_values(f),
                decreases hi - i,
            {
                let ghost before = rows@;
                rows.push(ShapeEntry::new(i, groups.as_slice(), 1));
                assert(shape_views(rows@) =~= shape_views(before).push(f(i)));
                assert(range_seq(lo, (i + 1) as u32).map_values(f) =~= range_seq(lo, i).map_values(f).push(f(i)));
                i = i + 1;
            }
        } else {
            assert(range_seq(lo, hi).map_values(f) =~= Seq::<ShapeEntryModel>::empty());
            assert(shape_views(rows@) =~= start + range_seq(lo, hi).map_values(f));
        }
        proof {
            let t = table@.take(k + 1);
            assert(t.drop_last() =~= table@.take(k as int));
            assert(t.last() == table@[k as int]);
        }
        k = k + 1;
    }
    assert(table@.take(table@.len() as int) =~= table@);
    rows
}

/// Writes the smoothing group of each range of the table into the shape
/// entries; `false` where a range reaches an element number that is zero
/// or past the entries.
fn apply_smoothing_table(rows: &mut Vec<ShapeEntry>, table: &Vec<((u32, u32), u32)>) -> (ok: bool)
    ensures
        match apply_smoothing(shape_views(old(rows)@), table@) {
            Some(r) => ok && shape_views(final(rows)@) == r,
            None => !ok,
        },
{
    let ghost rows0 = shape_views(rows@);
    let mut k: usize = 0;
    while k < table.len()
        invariant
            k <= table@.len(),
            rows0 == shape_views(old(rows)@),
            apply_smoothing(rows0, table@.take(k as int)) == Some(shape_views(rows@)),
        decreases table@.len() - k,
    {
        let ((lo, hi), sg) = table[k];
        proof {
            let t = table@.take(k + 1);
            assert(t.drop_last() =~= table@.take(k as int));
            assert(t.last() == table@[k as int]);
        }
        if lo < hi && (lo == 0 || (hi - 1) as usize > rows.len()) {
            proof {
                assert(apply_smoothing(rows0, table@.take(k + 1)) is None);
                lemma_apply_smoothing_none(rows0, table@, k + 1);
                assert(table@.take(table@.len() as int) =~= table@);
            }
            return false;
        }
        let ghost prev = shape_views(rows@);
        if lo < hi {
            let mut i: u32 = lo;
            while i < hi
                invariant
                    1 <= lo <= i <= hi,
                    (hi - 1) as usize <= rows@.len(),
                    rows@.len() == prev.len(),
                    shape_views(rows@) =~= Seq::new(
                        prev.len(),
                        |j: int|
                            if lo <= j + 1 < i {
                                ShapeEntryModel { smoothing_group: sg, ..prev[j] }
                            } else {
                                prev[j]
                            },
                    ),
                decreases hi - i,
            {
                let ghost before = rows@;
                let at = (i - 1) as usize;
                let mut entry = ShapeEntry::new(0, &[], 0);
                rows.set_and_swap(at, &mut entry);
                entry.smoothing_group = sg;
                rows.set_and_swap(at, &mut entry);
                proof {
                    assert(rows@ == before.update(at as int, ShapeEntry { smoothing_group: sg, ..before[at as int] }));
                    assert(shape_views(rows@) =~= shape_views(before).update(
                        at as int,
                        ShapeEntryModel { smoothing_group: sg, ..shape_views(before)[at as int] },
                    ));
                }
                i = i + 1;
            }
        } else {
            assert(shape_views(rows@) =~= Seq::new(
                prev.len(),
                |j: int|
                    if lo <= j + 1 < hi {
                        ShapeEntryModel { smoothing_group: sg, ..prev[j] }
                    } else {
                        prev[j]
                    },
            ));
        }
        k = k + 1;
    }
    assert(table@.take(table@.len() as int) =~= table@);
    true
}

/// Once a prefix of the table reaches a bad element number, the whole table
/// does.
proof fn lemma_apply_smoothing_none(rows: Seq<ShapeEntryModel>, t: Seq<((u32, u32), u32)>, k: int)
    requires
        0 <= k <= t.len(),
        apply_smoothing(rows, t.take(k)) is None,
    ensures
        apply_smoothing(rows, t) is None,
    decreases t.len() - k,
{
    if k < t.len() {
        let t1 = t.take(k + 1);
        assert(t1.drop_last() =~= t.take(k));
        lemma_apply_smoothing_none(rows, t, k + 1);
    } else {
        assert(t.take(k) =~= t);
    }
}

/// An OBJ parser whose indices count from one.
pub struct Parser {
    stream: TokenStream,
}

impl Parser {
    pub closed spec fn wf(&self) -> bool {
        self.stream.wf()
    }

    /// The tokens left to parse.
    pub closed spec fn tokens(&self) -> Seq<Seq<char>> {
        self.stream.tokens()
    }

    /// The line the parser stands on.
    pub closed spec fn line(&self) -> nat {
        self.stream.line()
    }

    pub fn new(input: &str) -> (p: Parser)
        requires
            input@.len() < usize::MAX - 1,
        ensures
            p.wf(),
            p.tokens() == tokenize(input@),
            p.line() == 1,
    {
        Parser { stream: TokenStream::new(input) }
    }

    fn peek(&mut self) -> (token: Option<Vec<char>>)
        requires
            old(self).wf(),
        ensures
            final(self).wf(),
            final(self).tokens() == old(self).tokens(),
            final(self).line() == old(self).line(),
            token matches Some(t) ==> old(self).tokens().len() > 0 && t@ == old(self).tokens()[0],
            token is None ==> old(self).tokens().len() == 0,
    {
        self.stream.peek()
    }

    /// Whether the next token is `tag`.
    fn peek_is(&mut self, tag: &str) -> (b: bool)
        requires
            old(self).wf(),
        ensures
            final(self).wf(),
            final(self).tokens() == old(self).tokens(),
            final(self).line() == old(self).line(),
            b == (old(self).tokens().len() > 0 && old(self).tokens()[0] == tag@),
    {
        match self.peek() {
            Some(t) => token_is(&t, tag),
            None => false,
        }
    }

    /// Consumes and returns the next token.
    pub fn next(&mut self) -> (token: Option<Vec<char>>)
        requires
            old(self).wf(),
        ensures
            final(self).wf(),
            old(self).tokens().len() > 0 ==> (token matches Some(t) && t@ == old(self).tokens()[0])
                && advanced(old(self).tokens(), old(self).line(), final(self).tokens(), final(self).line(), 1),
            old(self).tokens().len() == 0 ==> token is None
                && advanced(old(self).tokens(), old(self).line(), final(self).tokens(), final(self).line(), 0),
    {
        proof {
            lemma_advanced_zero(self.tokens(), self.line());
            if self.tokens().len() > 0 {
                lemma_advanced_one(self.tokens(), self.line());
            }
        }
        let ghost ts = self.tokens();
        let token = self.stream.next();
        proof {
            if ts.len() == 0 {
                assert(self.tokens() =~= ts);
            }
        }
        token
    }

    fn error<T>(&self, message: String) -> (r: Result<T, ParseError>)
        ensures
            r matches Err(e) && e.text() == message@ && e.line() == self.line(),
    {
        Err(ParseError::new(self.stream.line_number(), message))
    }

    fn stop<T>(&self, message: String) -> (r: Result<T, Stop>)
        ensures
            r matches Err(Stop::Invalid(e)) && e.text() == message@ && e.line() == self.line(),
    {
        Err(Stop::Invalid(ParseError::new(self.stream.line_number(), message)))
    }

    fn next_string(&mut self) -> (r: Result<Vec<char>, ParseError>)
        requires
            old(self).wf(),
        ensures
            final(self).wf(),
            reports(r, spec_next_string(old(self).tokens()), old(self).tokens(), old(self).line(),
                final(self).tokens(), final(self).line()),
    {
        match self.next() {
            Some(st) => Ok(st),
            None => self.error(text_of("Expected string but got `end of file`.")),
        }
    }

    /// Consumes the statement tag `tag`, returning it.
    pub fn expect(&mut self, tag: &str) -> (r: Result<Vec<char>, ParseError>)
        requires
            old(self).wf(),
        ensures
            final(self).wf(),
            reports(r, spec_expect(old(self).tokens(), tag@), old(self).tokens(), old(self).line(),
                final(self).tokens(), final(self).line()),
    {
        let st = self.next_string()?;
        if token_is(&st, tag) {
            Ok(st)
        } else {
            let mut m = text_of("Expected `");
            m.append(tag);
            let rest = concat3("` statement but got: `", st.as_slice(), "`.");
            m.append(rest.as_str());
            assert(m@ =~= "Expected `"@ + tag@ + "` statement but got: `"@ + st@ + "`."@);
            self.error(m)
        }
    }

    /// Parses a floating point literal; the result is the literal's text.
    pub fn parse_f32(&mut self) -> (r: Result<String, ParseError>)
        requires
            old(self).wf(),
        ensures
            final(self).wf(),
            reports(r, spec_parse_f32(old(self).tokens()), old(self).tokens(), old(self).line(),
                final(self).tokens(), final(self).line()),
    {
        let st = self.next_string()?;
        if is_float_token(&st) {
            Ok(chars_to_string(st.as_slice()))
        } else {
            self.error(concat3("Expected `f32` but got `", st.as_slice(), "`."))
        }
    }

    pub fn parse_u32(&mut self) -> (r: Result<u32, ParseError>)
        requires
            old(self).wf(),
        ensures
            final(self).wf(),
            reports(r, spec_parse_u32_step(old(self).tokens()), old(self).tokens(), old(self).line(),
                final(self).tokens(), final(self).line()),
    {
        let st = self.next_string()?;
        match parse_u32_token(&st) {
            Some(val) => Ok(val),
            None => self.error(concat3("Expected integer but got `", st.as_slice(), "`.")),
        }
    }

    fn try_once_float(&mut self, default: &str) -> (r: String)
        requires
            old(self).wf(),
        ensures
            final(self).wf(),
            r@ == optional_float(old(self).tokens(), default@).0,
            advanced(old(self).tokens(), old(self).line(), final(self).tokens(), final(self).line(),
                optional_float(old(self).tokens(), default@).1),
    {
        proof {
            lemma_advanced_zero(self.tokens(), self.line());
        }
        match self.peek() {
            Some(st) => {
                if is_float_token(&st) {
                    self.next();
                    chars_to_string(st.as_slice())
                } else {
                    text_of(default)
                }
            },
            None => text_of(default),
        }
    }

    pub fn parse_vertex(&mut self) -> (r: Result<Vertex, ParseError>)
        requires
            old(self).wf(),
        ensures
            final(self).wf(),
            reports(r, spec_parse_vertex(old(self).tokens()), old(self).tokens(), old(self).line(),
                final(self).tokens(), final(self).line()),
    {
        let ghost ts = self.tokens();
        let ghost l0 = self.line();
        self.expect("v")?;
        let ghost ts1 = self.tokens();
        let ghost l1 = self.line();
        let x = self.parse_f32();
        proof { lemma_advanced_trans(ts, l0, ts1, l1, 1, self.tokens(), self.line(), spec_parse_f32(ts1).consumed()); }
        let x = x?;
        let ghost ts2 = self.tokens();
        let ghost l2 = self.line();
        let y = self.parse_f32();
        proof { lemma_advanced_trans(ts, l0, ts2, l2, 2, self.tokens(), self.line(), spec_parse_f32(ts2).consumed()); }
        let y = y?;
        let ghost ts3 = self.tokens();
        let ghost l3 = self.line();
        let z = self.parse_f32();
        proof { lemma_advanced_trans(ts, l0, ts3, l3, 3, self.tokens(), self.line(), spec_parse_f32(ts3).consumed()); }
        let z = z?;
        let ghost ts4 = self.tokens();
        let ghost l4 = self.line();
        let w = self.try_once_float("1");
        proof {
            lemma_advanced_trans(ts, l0, ts4, l4, 4, self.tokens(), self.line(), optional_float(ts4, "1"@).1);
            assert(ts1 =~= ts.skip(1));
            assert(ts2 =~= ts.skip(2));
            assert(ts3 =~= ts.skip(3));
            assert(ts4 =~= ts.skip(4));
        }
        Ok(Vertex { x: x, y: y, z: z, w: w })
    }

    pub fn parse_texture_vertex(&mut self) -> (r: Result<TextureVertex, ParseError>)
        requires
            old(self).wf(),
        ensures
            final(self).wf(),
            reports(r, spec_parse_texture_vertex(old(self).tokens()), old(self).tokens(), old(self).line(),
                final(self).tokens(), final(self).line()),
    {
        let ghost ts = self.tokens();
        let ghost l0 = self.line();
        self.expect("vt")?;
        let ghost ts1 = self.tokens();
        let ghost l1 = self.line();
        let u = self.parse_f32();
        proof { lemma_advanced_trans(ts, l0, ts1, l1, 1, self.tokens(), self.line(), spec_parse_f32(ts1).consumed()); }
        let u = u?;
        let ghost ts2 = self.tokens();
        let ghost l2 = self.line();
        let v = self.try_once_float("0");
        let ghost n1 = optional_float(ts2, "0"@).1;
        proof { lemma_advanced_trans(ts, l0, ts2, l2, 2, self.tokens(), self.line(), n1); }
        let ghost ts3 = self.tokens();
        let ghost l3 = self.line();
        let w = self.try_once_float("0");
        proof {
            lemma_advanced_trans(ts, l0, ts3, l3, 2 + n1, self.tokens(), self.line(), optional_float(ts3, "0"@).1);
            assert(ts1 =~= ts.skip(1));
            assert(ts2 =~= ts.skip(2));
            assert(ts3 =~= ts.skip((2 + n1) as int));
        }
        Ok(TextureVertex { u: u, v: v, w: w })
    }

    pub fn parse_normal_vertex(&mut self) -> (r: Result<NormalVertex, ParseError>)
        requires
            old(self).wf(),
        ensures
            final(self).wf(),
            reports(r, spec_parse_normal_vertex(old(self).tokens()), old(self).tokens(), old(self).line(),
                final(self).tokens(), final(self).line()),
    {
        let ghost ts = self.tokens();
        let ghost l0 = self.line();
        self.expect("vn")?;
        let ghost ts1 = self.tokens();
        let ghost l1 = self.line();
        let i = self.parse_f32();
        proof { lemma_advanced_trans(ts, l0, ts1, l1, 1, self.tokens(), self.line(), spec_parse_f32(ts1).consumed()); }
        let i = i?;
        let ghost ts2 = self.tokens();
        let ghost l2 = self.line();
        let j = self.parse_f32();
        proof { lemma_advanced_trans(ts, l0, ts2, l2, 2, self.tokens(), self.line(), spec_parse_f32(ts2).consumed()); }
        let j = j?;
        let ghost ts3 = self.tokens();
        let ghost l3 = self.line();
        let k = self.parse_f32();
        proof {
            lemma_advanced_trans(ts, l0, ts3, l3, 3, self.tokens(), self.line(), spec_parse_f32(ts3).consumed());
            assert(ts1 =~= ts.skip(1));
            assert(ts2 =~= ts.skip(2));
            assert(ts3 =~= ts.skip(3));
        }
        let k = k?;
        Ok(NormalVertex { i: i, j: j, k: k })
    }

    /// Skips any line feed tokens.
    pub fn skip_zero_or_more_newlines(&mut self)
        requires
            old(self).wf(),
        ensures
            final(self).wf(),
            advanced(old(self).tokens(), old(self).line(), final(self).tokens(), final(self).line(),
                leading_newlines(old(self).tokens())),
    {
        let ghost ts = self.tokens();
        let ghost l0 = self.line();
        proof {
            lemma_advanced_zero(ts, l0);
        }
        let ghost mut n: nat = 0;
        while self.peek_is("\n")
            invariant
                self.wf(),
                advanced(ts, l0, self.tokens(), self.line(), n),
                leading_newlines(ts) == n + leading_newlines(self.tokens()),
            decreases self.tokens().len(),
        {
            let ghost ts1 = self.tokens();
            let ghost l1 = self.line();
            self.next();
            proof {
                lemma_advanced_trans(ts, l0, ts1, l1, n, self.tokens(), self.line(), 1);
                n = n + 1;
            }
        }
    }

    fn skip_one_or_more_newlines(&mut self) -> (r: Result<(), ParseError>)
        requires
            old(self).wf(),
        ensures
            final(self).wf(),
            reports(r, spec_skip_one_or_more_newlines(old(self).tokens()), old(self).tokens(), old(self).line(),
                final(self).tokens(), final(self).line()),
    {
        let ghost ts = self.tokens();
        let ghost l0 = self.line();
        self.expect("\n")?;
        let ghost ts1 = self.tokens();
        let ghost l1 = self.line();
        self.skip_zero_or_more_newlines();
        proof {
            lemma_advanced_trans(ts, l0, ts1, l1, 1, self.tokens(), self.line(), leading_newlines(ts1));
            assert(ts1 =~= ts.drop_first());
        }
        Ok(())
    }

    /// Parses an `o name` statement, if one comes next; the empty name
    /// otherwise.
    pub fn parse_object_name(&mut self) -> (r: Result<String, ParseError>)
        requires
            old(self).wf(),
        ensures
            final(self).wf(),
            reports(r, spec_parse_object_name(old(self).tokens()), old(self).tokens(), old(self).line(),
                final(self).tokens(), final(self).line()),
    {
        let ghost ts = self.tokens();
        let ghost l0 = self.line();
        proof {
            lemma_advanced_zero(ts, l0);
        }
        if self.peek_is("o") {
            self.expect("o")?;
            let ghost ts1 = self.tokens();
            let ghost l1 = self.line();
            let object_name = self.next_string();
            let ghost n1: nat = if ts.len() > 1 { 2 } else { 1 };
            proof {
                lemma_advanced_trans(ts, l0, ts1, l1, 1, self.tokens(), self.line(), spec_next_string(ts1).consumed());
            }
            let ghost ts2 = self.tokens();
            let ghost l2 = self.line();
            let skipped = self.skip_one_or_more_newlines();
            proof {
                lemma_advanced_trans(ts, l0, ts2, l2, n1, self.tokens(), self.line(),
                    spec_skip_one_or_more_newlines(ts2).consumed());
                assert(ts2 =~= ts.skip(n1 as int));
            }
            skipped?;
            match object_name {
                Ok(name) => Ok(chars_to_string(name.as_slice())),
                Err(e) => Err(e),
            }
        } else {
            Ok(String::new())
        }
    }

    /// Parses a `v`, `v/t`, `v//n` or `v/t/n` token.
    pub fn parse_vtn_index(&mut self) -> (r: Result<VTNIndex, ParseError>)
        requires
            old(self).wf(),
        ensures
            final(self).wf(),
            reports(r, spec_parse_vtn_index(old(self).tokens()), old(self).tokens(), old(self).line(),
                final(self).tokens(), final(self).line()),
    {
        let st = self.next_string()?;
        match vtn_of_token(&st) {
            Some(v) => Ok(v),
            None => self.error(concat3("Expected `vertex/texture/normal` index but got `", st.as_slice(), "`")),
        }
    }

    /// Parses indices for as long as they parse, appending them; the count is
    /// kept in a `u32`.
    fn parse_vtn_indices(&mut self, vtn_indices: &mut Vec<VTNIndex>) -> (r: Result<u32, Stop>)
        requires
            old(self).wf(),
        ensures
            final(self).wf(),
            spec_vtn_run(old(self).tokens()).0.len() <= u32::MAX ==> r is Ok
                && final(vtn_indices)@ == old(vtn_indices)@ + spec_vtn_run(old(self).tokens()).0
                && advanced(old(self).tokens(), old(self).line(), final(self).tokens(), final(self).line(),
                spec_vtn_run(old(self).tokens()).1),
            spec_vtn_run(old(self).tokens()).0.len() > u32::MAX ==> r matches Err(Stop::Undefined),
    {
        let ghost ts = self.tokens();
        let ghost l0 = self.line();
        let ghost start = vtn_indices@;
        let mut count: u32 = 0;
        proof {
            lemma_advanced_zero(ts, l0);
            assert(start + Seq::<VTNIndex>::empty() =~= start);
        }
        let ghost mut n: nat = 0;
        loop
            invariant_except_break
                self.wf(),
                vtn_indices@.len() == start.len() + count,
                advanced(ts, l0, self.tokens(), self.line(), n),
                spec_vtn_run(ts).0 == vtn_indices@.skip(start.len() as int) + spec_vtn_run(self.tokens()).0,
                spec_vtn_run(ts).1 == n + spec_vtn_run(self.tokens()).1,
                vtn_indices@ == start + vtn_indices@.skip(start.len() as int),
            invariant
                ts == old(self).tokens(),
                l0 == old(self).line(),
                start == old(vtn_indices)@,
            ensures
                self.wf(),
                vtn_indices@ == start + spec_vtn_run(ts).0,
                advanced(ts, l0, self.tokens(), self.line(), spec_vtn_run(ts).1),
                spec_vtn_run(ts).0.len() <= u32::MAX,
            decreases self.tokens().len(),
        {
            let ghost ts1 = self.tokens();
            let ghost l1 = self.line();
            let ghost pushed = vtn_indices@.skip(start.len() as int);
            match self.parse_vtn_index() {
                Ok(vtn_index) => {
                    if count == u32::MAX {
                        proof {
                            assert(spec_vtn_run(ts).0.len() >= pushed.len() + 1);
                        }
                        return Err(Stop::Undefined);
                    }
                    vtn_indices.push(vtn_index);
                    count = count + 1;
                    proof {
                        lemma_advanced_trans(ts, l0, ts1, l1, n, self.tokens(), self.line(), 1);
                        n = n + 1;
                        assert(ts1.drop_first() =~= self.tokens());
                        assert(vtn_indices@.skip(start.len() as int) =~= pushed.push(vtn_index));
                        assert(vtn_indices@ =~= start + vtn_indices@.skip(start.len() as int));
                        assert(pushed + (seq![vtn_index] + spec_vtn_run(self.tokens()).0) =~= pushed.push(vtn_index)
                            + spec_vtn_run(self.tokens()).0);
                    }
                },
                Err(_) => {
                    proof {
                        let k = spec_parse_vtn_index(ts1).consumed();
                        lemma_advanced_trans(ts, l0, ts1, l1, n, self.tokens(), self.line(), k);
                        assert(pushed + Seq::<VTNIndex>::empty() =~= pushed);
                        assert(vtn_indices@ =~= start + spec_vtn_run(ts).0);
                    }
                    break;
                },
            }
        }
        Ok(count)
    }

    fn parse_point(&mut self, elements: &mut Vec<Element>) -> (r: Result<u32, Stop>)
        requires
            old(self).wf(),
        ensures
            final(self).wf(),
            reports_push(r, spec_parse_point(old(self).tokens()), old(elements)@, final(elements)@,
                old(self).tokens(), old(self).line(), final(self).tokens(), final(self).line()),
    {
        let ghost ts = self.tokens();
        let ghost l0 = self.line();
        let ghost start = elements@;
        match self.expect("p") {
            Ok(_) => {},
            Err(e) => {
                proof {
                    assert(elements@ =~= start + Seq::<Element>::empty());
                }
                return Err(Stop::Invalid(e));
            },
        }
        let ghost ts1 = self.tokens();
        let ghost l1 = self.line();
        let first = self.parse_u32();
        proof {
            lemma_advanced_trans(ts, l0, ts1, l1, 1, self.tokens(), self.line(), spec_parse_u32_step(ts1).consumed());
            assert(ts1 =~= ts.skip(1));
            assert(elements@ =~= start + Seq::<Element>::empty());
        }
        let v_index = match first {
            Ok(v) => v,
            Err(e) => return Err(Stop::Invalid(e)),
        };
        elements.push(Element::Point(VTNIndex::V(v_index)));
        let mut count: u32 = 1;
        let ghost mut n: nat = 2;
        let ghost first_point = Element::Point(VTNIndex::V(v_index));
        proof {
            assert(self.tokens() =~= ts.skip(2));
        }
        loop
            invariant_except_break
                self.wf(),
                2 <= n <= ts.len(),
                self.tokens() == ts.skip(n as int),
                advanced(ts, l0, self.tokens(), self.line(), n),
                elements@.len() == start.len() + count,
                count >= 1,
                elements@ == start + elements@.skip(start.len() as int),
                elements@[start.len() as int] == first_point,
                spec_point_tail(ts.skip(2)).0 == elements@.skip(start.len() as int + 1) + spec_point_tail(
                    self.tokens(),
                ).0,
                spec_point_tail(ts.skip(2)).1 == spec_point_tail(self.tokens()).1.after((n - 2) as nat),
            invariant
                ts == old(self).tokens(),
                l0 == old(self).line(),
                start == old(elements)@,
                spec_parse_point(ts).0 == seq![first_point] + spec_point_tail(ts.skip(2)).0,
                spec_parse_u32_step(ts.skip(1)) == Parsed::<u32, ()>::Done(v_index, 1),
            ensures
                self.wf(),
                spec_point_tail(ts.skip(2)).1 is Done,
                elements@ == start + spec_parse_point(ts).0,
                elements@.len() == start.len() + count,
                advanced(ts, l0, self.tokens(), self.line(), 2 + spec_point_tail(ts.skip(2)).1.consumed()),
            decreases self.tokens().len(),
        {
            let ghost ts2 = self.tokens();
            let ghost l2 = self.line();
            let ghost pushed = elements@.skip(start.len() as int);
            let token = self.next();
            proof {
                if ts2.len() > 0 {
                    lemma_advanced_trans(ts, l0, ts2, l2, n, self.tokens(), self.line(), 1);
                    assert(ts2.drop_first() =~= ts.skip(n as int + 1));
                }
            }
            match token {
                Some(st) => {
                    if token_is(&st, "\n") {
                        proof {
                            assert(spec_point_tail(ts2).0 =~= Seq::<Element>::empty());
                            assert(elements@.skip(start.len() as int + 1) + Seq::<Element>::empty()
                                =~= elements@.skip(start.len() as int + 1));
                            assert(pushed =~= seq![first_point] + elements@.skip(start.len() as int + 1));
                            assert(elements@ =~= start + spec_parse_point(ts).0);
                        }
                        break;
                    }
                    match parse_u32_token(&st) {
                        Some(v) => {
                            let ghost e = Element::Point(VTNIndex::V(v));
                            proof {
                                assert(pushed.skip(1) + spec_point_tail(ts2).0 =~= pushed.skip(1).push(e)
                                    + spec_point_tail(self.tokens()).0);
                                assert(pushed =~= seq![first_point] + pushed.skip(1));
                            }
                            if count == u32::MAX {
                                proof {
                                    assert(spec_parse_point(ts).0.len() >= pushed.len() + 1);
                                }
                                return Err(Stop::Undefined);
                            }
                            elements.push(Element::Point(VTNIndex::V(v)));
                            count = count + 1;
                            proof {
                                n = n + 1;
                                assert(elements@.skip(start.len() as int) =~= pushed.push(e));
                                assert(elements@ =~= start + elements@.skip(start.len() as int));
                                assert(elements@.skip(start.len() as int + 1) =~= pushed.skip(1).push(e));
                            }
                        },
                        None => {
                            proof {
                                assert(spec_point_tail(ts2).0 =~= Seq::<Element>::empty());
                                assert(pushed =~= seq![first_point] + pushed.skip(1));
                                assert(elements@ =~= start + spec_parse_point(ts).0);
                            }
                            return self.stop(concat3("Expected integer but got `", st.as_slice(), "`."));
                        },
                    }
                },
                None => {
                    proof {
                        assert(spec_point_tail(ts2).0 =~= Seq::<Element>::empty());
                        assert(pushed =~= seq![first_point] + pushed.skip(1));
                        assert(elements@ =~= start + spec_parse_point(ts).0);
                        assert(self.tokens() =~= ts2);
                    }
                    break;
                },
            }
        }
        Ok(count)
    }

    /// Whether every index has the form of the first.
    fn all_same_type(vtn_indices: &Vec<VTNIndex>) -> (b: bool)
        requires
            vtn_indices@.len() > 0,
        ensures
            b == all_same_form(vtn_indices@),
    {
        let mut i: usize = 1;
        while i < vtn_indices.len()
            invariant
                1 <= i <= vtn_indices@.len(),
                forall|k: int| 1 <= k < i ==> same_form(#[trigger] vtn_indices@[k], vtn_indices@[0]),
            decreases vtn_indices@.len() - i,
        {
            if !vtn_indices[i].has_same_type_as(&vtn_indices[0]) {
                return false;
            }
            i = i + 1;
        }
        true
    }

    fn parse_line(&mut self, elements: &mut Vec<Element>) -> (r: Result<u32, Stop>)
        requires
            old(self).wf(),
        ensures
            final(self).wf(),
            reports_push(r, spec_parse_line(old(self).tokens()), old(elements)@, final(elements)@,
                old(self).tokens(), old(self).line(), final(self).tokens(), final(self).line()),
    {
        let ghost ts = self.tokens();
        let ghost l0 = self.line();
        proof {
            assert(elements@ =~= elements@ + Seq::<Element>::empty());
        }
        match self.expect("l") {
            Ok(_) => {},
            Err(e) => return Err(Stop::Invalid(e)),
        }
        let ghost ts1 = self.tokens();
        let ghost l1 = self.line();
        let a = self.parse_vtn_index();
        proof {
            lemma_advanced_trans(ts, l0, ts1, l1, 1, self.tokens(), self.line(), spec_parse_vtn_index(ts1).consumed());
            assert(ts1 =~= ts.skip(1));
        }
        let a = match a {
            Ok(a) => a,
            Err(e) => return Err(Stop::Invalid(e)),
        };
        let ghost ts2 = self.tokens();
        let ghost l2 = self.line();
        let b = self.parse_vtn_index();
        proof {
            lemma_advanced_trans(ts, l0, ts2, l2, 2, self.tokens(), self.line(), spec_parse_vtn_index(ts2).consumed());
            assert(ts2 =~= ts.skip(2));
        }
        let b = match b {
            Ok(b) => b,
            Err(e) => return Err(Stop::Invalid(e)),
        };
        let ghost ts3 = self.tokens();
        let ghost l3 = self.line();
        let mut vtn_indices: Vec<VTNIndex> = Vec::new();
        vtn_indices.push(a);
        vtn_indices.push(b);
        let run = self.parse_vtn_indices(&mut vtn_indices);
        proof {
            assert(ts3 =~= ts.skip(3));
            if spec_vtn_run(ts3).0.len() <= u32::MAX {
                lemma_advanced_trans(ts, l0, ts3, l3, 3, self.tokens(), self.line(), spec_vtn_run(ts3).1);
                assert(vtn_indices@ =~= seq![a, b] + spec_vtn_run(ts3).0);
            }
        }
        run?;
        if !Self::all_same_type(&vtn_indices) {
            return self.stop(text_of("Every vertex/texture/normal index must have the same form."));
        }
        let ghost start = elements@;
        let count = vtn_indices.len() - 1;
        let mut i: usize = 0;
        while i < count
            invariant
                count + 1 == vtn_indices.len(),
                i <= count,
                elements@ == start + line_segments(vtn_indices@).take(i as int),
            decreases count - i,
        {
            elements.push(Element::Line(vtn_indices[i], vtn_indices[i + 1]));
            assert(line_segments(vtn_indices@).take(i + 1) =~= line_segments(vtn_indices@).take(i as int).push(
                Element::Line(vtn_indices@[i as int], vtn_indices@[i + 1])));
            i = i + 1;
        }
        assert(line_segments(vtn_indices@).take(count as int) =~= line_segments(vtn_indices@));
        Ok(count as u32)
    }

    pub fn parse_face(&mut self, elements: &mut Vec<Element>) -> (r: Result<u32, ParseError>)
        requires
            old(self).wf(),
            !(spec_parse_face(old(self).tokens()).1 is Abort),
        ensures
            final(self).wf(),
            reports_pushed(r, spec_parse_face(old(self).tokens()), old(elements)@, final(elements)@,
                old(self).tokens(), old(self).line(), final(self).tokens(), final(self).line()),
    {
        match self.parse_face_impl(elements) {
            Ok(n) => Ok(n),
            Err(Stop::Invalid(e)) => Err(e),
            Err(Stop::Undefined) => {
                proof {
                    assert(false);
                }
                Ok(0)
            },
        }
    }

    fn parse_face_impl(&mut self, elements: &mut Vec<Element>) -> (r: Result<u32, Stop>)
        requires
            old(self).wf(),
        ensures
            final(self).wf(),
            reports_push(r, spec_parse_face(old(self).tokens()), old(elements)@, final(elements)@,
                old(self).tokens(), old(self).line(), final(self).tokens(), final(self).line()),
    {
        let ghost ts = self.tokens();
        let ghost l0 = self.line();
        proof {
            assert(elements@ =~= elements@ + Seq::<Element>::empty());
        }
        match self.expect("f") {
            Ok(_) => {},
            Err(e) => return Err(Stop::Invalid(e)),
        }
        let ghost ts1 = self.tokens();
        let ghost l1 = self.line();
        let mut vtn_indices: Vec<VTNIndex> = Vec::new();
        let run = self.parse_vtn_indices(&mut vtn_indices);
        proof {
            assert(ts1 =~= ts.skip(1));
            if spec_vtn_run(ts1).0.len() <= u32::MAX {
                lemma_advanced_trans(ts, l0, ts1, l1, 1, self.tokens(), self.line(), spec_vtn_run(ts1).1);
                assert(vtn_indices@ =~= spec_vtn_run(ts1).0);
            }
        }
        run?;
        if vtn_indices.len() < 3 {
            return self.stop(text_of("A face element must have at least three vertices."));
        }
        if !Self::all_same_type(&vtn_indices) {
            return self.stop(text_of("Every vertex/texture/normal index must have the same form."));
        }
        let ghost start = elements@;
        let count = vtn_indices.len() - 2;
        let vertex0 = vtn_indices[0];
        let mut i: usize = 0;
        while i < count
            invariant
                count + 2 == vtn_indices.len(),
                vertex0 == vtn_indices@[0],
                i <= count,
                elements@ == start + triangle_fan(vtn_indices@).take(i as int),
            decreases count - i,
        {
            elements.push(Element::Face(vertex0, vtn_indices[i + 1], vtn_indices[i + 2]));
            assert(triangle_fan(vtn_indices@).take(i + 1) =~= triangle_fan(vtn_indices@).take(i as int).push(
                Element::Face(vtn_indices@[0], vtn_indices@[i + 1], vtn_indices@[i + 2])));
            i = i + 1;
        }
        assert(triangle_fan(vtn_indices@).take(count as int) =~= triangle_fan(vtn_indices@));
        Ok(count as u32)
    }

    fn parse_elements_impl(&mut self, elements: &mut Vec<Element>) -> (r: Result<u32, Stop>)
        requires
            old(self).wf(),
        ensures
            final(self).wf(),
            reports_push(r, spec_parse_elements(old(self).tokens()), old(elements)@, final(elements)@,
                old(self).tokens(), old(self).line(), final(self).tokens(), final(self).line()),
    {
        if self.peek_is("p") {
            self.parse_point(elements)
        } else if self.peek_is("l") {
            self.parse_line(elements)
        } else if self.peek_is("f") {
            self.parse_face_impl(elements)
        } else {
            proof {
                lemma_advanced_zero(self.tokens(), self.line());
                assert(elements@ =~= elements@ + Seq::<Element>::empty());
            }
            self.stop(text_of("Parser error: Line must be a point, line, or face."))
        }
    }

    /// Parses a point, line or face statement, appending its elements.
    pub fn parse_elements(&mut self, elements: &mut Vec<Element>) -> (r: Result<u32, ParseError>)
        requires
            old(self).wf(),
            !(spec_parse_elements(old(self).tokens()).1 is Abort),
        ensures
            final(self).wf(),
            reports_pushed(r, spec_parse_elements(old(self).tokens()), old(elements)@, final(elements)@,
                old(self).tokens(), old(self).line(), final(self).tokens(), final(self).line()),
    {
        match self.parse_elements_impl(elements) {
            Ok(n) => Ok(n),
            Err(Stop::Invalid(e)) => Err(e),
            Err(Stop::Undefined) => {
                proof {
                    assert(false);
                }
                Ok(0)
            },
        }
    }

    /// Reads tokens up to the end of the line, consuming the line feed.
    fn read_names_until_newline(&mut self) -> (names: Vec<Vec<char>>)
        requires
            old(self).wf(),
        ensures
            final(self).wf(),
            token_views(names@) == names_until_newline(old(self).tokens()),
            advanced(old(self).tokens(), old(self).line(), final(self).tokens(), final(self).line(),
                names_consumed(old(self).tokens())),
    {
        let ghost ts = self.tokens();
        let ghost l0 = self.line();
        let mut names: Vec<Vec<char>> = Vec::new();
        proof {
            lemma_advanced_zero(ts, l0);
            lemma_names_bound(ts);
        }
        loop
            invariant_except_break
                self.wf(),
                names@.len() <= ts.len(),
                self.tokens() == ts.skip(names@.len() as int),
                advanced(ts, l0, self.tokens(), self.line(), names@.len() as nat),
                names_until_newline(ts) == token_views(names@) + names_until_newline(self.tokens()),
            invariant
                ts == old(self).tokens(),
                l0 == old(self).line(),
            ensures
                self.wf(),
                token_views(names@) == names_until_newline(ts),
                advanced(ts, l0, self.tokens(), self.line(), names_consumed(ts)),
            decreases self.tokens().len(),
        {
            let ghost ts1 = self.tokens();
            let ghost l1 = self.line();
            let ghost k = names@.len();
            match self.next() {
                Some(name) => {
                    proof {
                        lemma_advanced_trans(ts, l0, ts1, l1, k as nat, self.tokens(), self.line(), 1);
                    }
                    if token_is(&name, "\n") {
                        proof {
                            assert(names_until_newline(ts1) =~= Seq::<Seq<char>>::empty());
                            assert(token_views(names@) =~= names_until_newline(ts));
                        }
                        break;
                    }
                    names.push(name);
                    proof {
                        assert(token_views(names@) =~= token_views(names@.drop_last()).push(name@));
                        assert(names@.drop_last() =~= names@.take(k as int));
                        assert(ts1.drop_first() =~= ts.skip(k as int + 1));
                        assert(seq![ts1[0]] + names_until_newline(ts1.drop_first()) == names_until_newline(ts1));
                        assert(token_views(names@.take(k as int)) + names_until_newline(ts1) =~= token_views(names@)
                            + names_until_newline(self.tokens()));
                    }
                },
                None => {
                    proof {
                        assert(names_until_newline(ts1) =~= Seq::<Seq<char>>::empty());
                        assert(token_views(names@) =~= names_until_newline(ts));
                        assert(self.tokens() =~= ts1);
                    }
                    break;
                },
            }
        }
        names
    }

    fn parse_groups_impl(&mut self, groups: &mut Vec<Group>) -> (r: Result<u32, Stop>)
        requires
            old(self).wf(),
        ensures
            final(self).wf(),
            reports_push(r, spec_parse_groups(old(self).tokens()), group_views(old(groups)@),
                group_views(final(groups)@), old(self).tokens(), old(self).line(), final(self).tokens(),
                final(self).line()),
    {
        let ghost ts = self.tokens();
        let ghost l0 = self.line();
        let ghost start = group_views(groups@);
        proof {
            assert(start =~= start + Seq::<Seq<char>>::empty());
        }
        match self.expect("g") {
            Ok(_) => {},
            Err(e) => return Err(Stop::Invalid(e)),
        }
        let ghost ts1 = self.tokens();
        let names = self.read_names_until_newline();
        proof {
            assert(ts1 =~= ts.skip(1));
            lemma_advanced_trans(ts, l0, ts1, l0 + newline_tokens(ts.take(1)), 1, self.tokens(), self.line(),
                names_consumed(ts1));
        }
        let mut i: usize = 0;
        let mut count: u32 = 0;
        while i < names.len()
            invariant
                i <= names@.len(),
                count == i,
                group_views(groups@) == start + token_views(names@).take(i as int),
                token_views(names@) == names_until_newline(ts1),
                ts1 == ts.skip(1),
                self.wf(),
                ts == old(self).tokens(),
                spec_expect(ts, "g"@) is Done,
            decreases names@.len() - i,
        {
            if count == u32::MAX {
                return Err(Stop::Undefined);
            }
            let ghost before = groups@;
            let g = Group::from_chars(names[i].as_slice());
            groups.push(g);
            assert(group_views(groups@) =~= group_views(before).push(g@));
            assert(token_views(names@).take(i + 1) =~= token_views(names@).take(i as int).push(names@[i as int]@));
            i = i + 1;
            count = count + 1;
        }
        assert(token_views(names@).take(names@.len() as int) =~= token_views(names@));
        if names.len() == 0 {
            let g = Group::default();
            groups.push(g);
            proof {
                assert(group_views(groups@) =~= start + seq![crate::obj::default_group_name()]);
            }
            return Ok(1);
        }
        Ok(count)
    }

    /// Parses a `g` statement, appending the groups it names.
    pub fn parse_groups(&mut self, groups: &mut Vec<Group>) -> (r: Result<u32, ParseError>)
        requires
            old(self).wf(),
            !(spec_parse_groups(old(self).tokens()).1 is Abort),
        ensures
            final(self).wf(),
            reports_pushed(r, spec_parse_groups(old(self).tokens()), group_views(old(groups)@),
                group_views(final(groups)@), old(self).tokens(), old(self).line(), final(self).tokens(),
                final(self).line()),
    {
        match self.parse_groups_impl(groups) {
            Ok(n) => Ok(n),
            Err(Stop::Invalid(e)) => Err(e),
            Err(Stop::Undefined) => {
                proof {
                    assert(false);
                }
                Ok(0)
            },
        }
    }

    /// Parses an `s` statement, appending the smoothing group it names.
    pub fn parse_smoothing_group(&mut self, smoothing_groups: &mut Vec<SmoothingGroup>) -> (r: Result<
        u32,
        ParseError,
    >)
        requires
            old(self).wf(),
        ensures
            final(self).wf(),
            reports_pushed(r, spec_parse_smoothing_group(old(self).tokens()), smoothing_views(
                old(smoothing_groups)@), smoothing_views(final(smoothing_groups)@), old(self).tokens(),
                old(self).line(), final(self).tokens(), final(self).line()),
    {
        let ghost ts = self.tokens();
        let ghost l0 = self.line();
        let ghost start = smoothing_views(smoothing_groups@);
        proof {
            assert(start =~= start + Seq::<u32>::empty());
        }
        self.expect("s")?;
        let ghost ts1 = self.tokens();
        let ghost l1 = self.line();
        let name = self.next_string();
        proof {
            lemma_advanced_trans(ts, l0, ts1, l1, 1, self.tokens(), self.line(), spec_next_string(ts1).consumed());
        }
        match name {
            Ok(name) => {
                if token_is(&name, "off") {
                    smoothing_groups.push(SmoothingGroup::new(0));
                    proof {
                        assert(smoothing_views(smoothing_groups@) =~= start + seq![0u32]);
                    }
                } else {
                    match parse_u32_token(&name) {
                        Some(number) => {
                            smoothing_groups.push(SmoothingGroup::new(number));
                            proof {
                                assert(smoothing_views(smoothing_groups@) =~= start + seq![number]);
                            }
                        },
                        None => {
                            return self.error(
                                concat3(
                                    "Expected integer or `off` for smoothing group name but got `",
                                    name.as_slice(),
                                    "`",
                                ),
                            );
                        },
                    }
                }
            },
            Err(_) => {
                return self.error(text_of("Parser error: Invalid smoothing group name."));
            },
        }
        Ok(1)
    }
}


impl Parser {
    fn group_statement(&mut self, acc: &mut ObjectTables) -> (r: Result<(), Stop>)
        requires
            old(self).wf(),
            old(self).tokens().len() > 0,
            old(self).tokens()[0] == "g"@,
        ensures
            final(self).wf(),
            reports_statement(r, group_statement(old(acc)@, old(self).tokens()), final(acc)@,
                old(self).tokens(), old(self).line(), final(self).tokens(), final(self).line()),
    {
        let ghost st = acc@;
        let ghost ts = self.tokens();
        if acc.groups.len() == 0 {
            acc.min_element_group_index = 1;
            acc.max_element_group_index = 1;
            acc.min_group_index = 1;
            acc.max_group_index = 1;
            let a = self.parse_groups_impl(&mut acc.groups)?;
            if a > u32::MAX - 1 {
                return Err(Stop::Undefined);
            }
            acc.max_group_index = 1 + a;
        } else {
            let entry = (
                (acc.min_element_group_index, acc.max_element_group_index),
                (acc.min_group_index, acc.max_group_index),
            );
            acc.group_entry_table.push(entry);
            let a = self.parse_groups_impl(&mut acc.groups)?;
            if acc.max_group_index > u32::MAX - a {
                return Err(Stop::Undefined);
            }
            acc.min_group_index = acc.max_group_index;
            acc.max_group_index = acc.max_group_index + a;
            acc.min_element_group_index = acc.max_element_group_index;
        }
        proof {
            assert(acc@ =~= done_value(group_statement(st, ts)));
        }
        Ok(())
    }

    fn smoothing_statement(&mut self, acc: &mut ObjectTables) -> (r: Result<(), Stop>)
        requires
            old(self).wf(),
            old(self).tokens().len() > 0,
            old(self).tokens()[0] == "s"@,
        ensures
            final(self).wf(),
            reports_statement(r, smoothing_statement(old(acc)@, old(self).tokens()), final(acc)@,
                old(self).tokens(), old(self).line(), final(self).tokens(), final(self).line()),
    {
        let ghost st = acc@;
        let ghost ts = self.tokens();
        if acc.smoothing_groups.len() == 0 {
            acc.min_element_smoothing_group_index = 1;
            acc.max_element_smoothing_group_index = 1;
            match self.parse_smoothing_group(&mut acc.smoothing_groups) {
                Ok(_) => {},
                Err(e) => {
                    return Err(Stop::Invalid(e));
                },
            }
            acc.smoothing_group_index = 1;
        } else {
            let entry = (
                (acc.min_element_smoothing_group_index, acc.max_element_smoothing_group_index),
                acc.smoothing_group_index,
            );
            acc.smoothing_group_entry_table.push(entry);
            match self.parse_smoothing_group(&mut acc.smoothing_groups) {
                Ok(_) => {},
                Err(e) => {
                    return Err(Stop::Invalid(e));
                },
            }
            if acc.smoothing_group_index == u32::MAX {
                return Err(Stop::Undefined);
            }
            acc.smoothing_group_index = acc.smoothing_group_index + 1;
            acc.min_element_smoothing_group_index = acc.max_element_smoothing_group_index;
        }
        proof {
            assert(acc@ =~= done_value(smoothing_statement(st, ts)));
        }
        Ok(())
    }

    fn element_statement(&mut self, acc: &mut ObjectTables) -> (r: Result<(), Stop>)
        requires
            old(self).wf(),
            old(self).tokens().len() > 0,
            old(self).tokens()[0] == "p"@ || old(self).tokens()[0] == "l"@ || old(self).tokens()[0] == "f"@,
        ensures
            final(self).wf(),
            reports_statement(r, element_statement(old(acc)@, old(self).tokens()), final(acc)@,
                old(self).tokens(), old(self).line(), final(self).tokens(), final(self).line()),
    {
        let ghost st = acc@;
        let ghost ts = self.tokens();
        if acc.groups.len() == 0 {
            acc.groups.push(Group::default());
            acc.min_element_group_index = 1;
            acc.max_element_group_index = 1;
            acc.min_group_index = 1;
            acc.max_group_index = 2;
            assert(group_views(acc.groups@) =~= seq![crate::obj::default_group_name()]);
        }
        if acc.smoothing_groups.len() == 0 {
            acc.smoothing_groups.push(SmoothingGroup::default());
            acc.min_element_smoothing_group_index = 1;
            acc.max_element_smoothing_group_index = 1;
            acc.smoothing_group_index = 1;
            assert(smoothing_views(acc.smoothing_groups@) =~= seq![0u32]);
        }
        proof {
            assert(acc@ =~= prepared_for_elements(st));
        }
        let a = self.parse_elements_impl(&mut acc.elements)?;
        if acc.max_element_group_index > u32::MAX - a || acc.max_element_smoothing_group_index > u32::MAX - a {
            return Err(Stop::Undefined);
        }
        acc.max_element_group_index = acc.max_element_group_index + a;
        acc.max_element_smoothing_group_index = acc.max_element_smoothing_group_index + a;
        proof {
            assert(acc@ =~= done_value(element_statement(st, ts)));
        }
        Ok(())
    }

    /// One statement of an object's body.
    fn object_statement(&mut self, acc: &mut ObjectTables) -> (r: Result<(), Stop>)
        requires
            old(self).wf(),
            old(self).tokens().len() > 0,
        ensures
            final(self).wf(),
            reports_statement(r, object_statement(old(acc)@, old(self).tokens()), final(acc)@,
                old(self).tokens(), old(self).line(), final(self).tokens(), final(self).line()),
    {
        let ghost st = acc@;
        let ghost ts = self.tokens();
        let token = match self.peek() {
            Some(t) => t,
            None => {
                return Err(Stop::Undefined);
            },
        };
        if token_is(&token, "g") {
            self.group_statement(acc)
        } else if token_is(&token, "s") {
            self.smoothing_statement(acc)
        } else if token_is(&token, "v") {
            let vertex = match self.parse_vertex() {
                Ok(v) => v,
                Err(e) => {
                    return Err(Stop::Invalid(e));
                },
            };
            let ghost vm = vertex@;
            acc.vertices.push(vertex);
            proof {
                assert(vertex_views(acc.vertices@) =~= st.vertices.push(vm));
                assert(acc@ =~= done_value(object_statement(st, ts)));
            }
            Ok(())
        } else if token_is(&token, "vt") {
            let vertex = match self.parse_texture_vertex() {
                Ok(v) => v,
                Err(e) => {
                    return Err(Stop::Invalid(e));
                },
            };
            let ghost vm = vertex@;
            acc.texture_vertices.push(vertex);
            proof {
                assert(texture_vertex_views(acc.texture_vertices@) =~= st.texture_vertices.push(vm));
                assert(acc@ =~= done_value(object_statement(st, ts)));
            }
            Ok(())
        } else if token_is(&token, "vn") {
            let vertex = match self.parse_normal_vertex() {
                Ok(v) => v,
                Err(e) => {
                    return Err(Stop::Invalid(e));
                },
            };
            let ghost vm = vertex@;
            acc.normal_vertices.push(vertex);
            proof {
                assert(normal_vertex_views(acc.normal_vertices@) =~= st.normal_vertices.push(vm));
                assert(acc@ =~= done_value(object_statement(st, ts)));
            }
            Ok(())
        } else if token_is(&token, "p") || token_is(&token, "l") || token_is(&token, "f") {
            self.element_statement(acc)
        } else if token_is(&token, "\n") {
            match self.skip_one_or_more_newlines() {
                Ok(()) => Ok(()),
                Err(e) => Err(Stop::Invalid(e)),
            }
        } else {
            proof {
                lemma_advanced_zero(ts, self.line());
            }
            self.stop(concat3("Parse error: Invalid element declaration in obj file. Got `", token.as_slice(), "`"))
        }
    }

    /// One object: an optional `o` statement, then statements up to the next
    /// `o` statement or the end of the input.
    fn parse_object(&mut self) -> (r: Result<Object, Stop>)
        requires
            old(self).wf(),
        ensures
            final(self).wf(),
            reports_stop(r, spec_parse_object(old(self).tokens()), old(self).tokens(), old(self).line(),
                final(self).tokens(), final(self).line()),
            r is Ok && old(self).tokens().len() > 0 ==> spec_parse_object(old(self).tokens()).consumed() > 0,
    {
        let ghost ts = self.tokens();
        let ghost l0 = self.line();
        let name = match self.parse_object_name() {
            Ok(name) => name,
            Err(e) => {
                return Err(Stop::Invalid(e));
            },
        };
        let ghost n0 = spec_parse_object_name(ts).consumed();
        let ghost ts1 = self.tokens();
        let ghost l1 = self.line();
        let mut acc = ObjectTables::new();
        let ghost mut n: nat = 0;
        proof {
            lemma_advanced_zero(ts1, l1);
            assert(object_loop(initial_state(), ts1) == object_loop(acc@, self.tokens()).after(0));
        }
        loop
            invariant
                self.wf(),
                ts == old(self).tokens(),
                l0 == old(self).line(),
                advanced(ts, l0, ts1, l1, n0),
                advanced(ts1, l1, self.tokens(), self.line(), n),
                n == 0 ==> self.tokens() == ts1,
                object_loop(initial_state(), ts1) == object_loop(acc@, self.tokens()).after(n),
                spec_parse_object_name(ts) == Parsed::<Seq<char>, ()>::Done(name@, n0),
            ensures
                self.wf(),
                advanced(ts1, l1, self.tokens(), self.line(), n),
                n == 0 ==> self.tokens() == ts1,
                object_loop(initial_state(), ts1) == object_loop(acc@, self.tokens()).after(n),
                self.tokens().len() == 0 || self.tokens()[0] == "o"@,
            decreases self.tokens().len(),
        {
            let at_end = match self.peek() {
                None => true,
                Some(t) => token_is(&t, "o"),
            };
            if at_end {
                break ;
            }
            let ghost tsk = self.tokens();
            let ghost lk = self.line();
            let ghost stk = acc@;
            let step = self.object_statement(&mut acc);
            match step {
                Ok(()) => {
                    proof {
                        let m = object_statement(stk, tsk).consumed();
                        lemma_advanced_trans(ts1, l1, tsk, lk, n, self.tokens(), self.line(), m);
                        lemma_object_loop_step(stk, tsk);
                        lemma_after_after(object_loop(acc@, self.tokens()), m, n);
                        n = n + m;
                    }
                },
                Err(e) => {
                    proof {
                        lemma_object_loop_step(stk, tsk);
                        if !(object_statement(stk, tsk) is Abort) {
                            let m = object_statement(stk, tsk).consumed();
                            lemma_advanced_trans(ts1, l1, tsk, lk, n, self.tokens(), self.line(), m);
                            lemma_advanced_trans(ts, l0, ts1, l1, n0, self.tokens(), self.line(), n + m);
                        }
                    }
                    return Err(e);
                },
            }
        }
        proof {
            assert(object_loop(acc@, self.tokens()) == Parsed::<ObjState, ()>::Done(finished(acc@), 0));
        }
        acc.finish();
        let mut shapes = group_shape_entries(&acc.group_entry_table);
        if !apply_smoothing_table(&mut shapes, &acc.smoothing_group_entry_table) {
            return Err(Stop::Undefined);
        }
        let ObjectTables { vertices, texture_vertices, normal_vertices, elements, groups, smoothing_groups, .. } =
            acc;
        let object = Object {
            name: name,
            vertex_set: vertices,
            texture_vertex_set: texture_vertices,
            normal_vertex_set: normal_vertices,
            group_set: groups,
            smoothing_group_set: smoothing_groups,
            element_set: elements,
            shape_set: shapes,
        };
        proof {
            lemma_advanced_trans(ts, l0, ts1, l1, n0, self.tokens(), self.line(), n);
        }
        Ok(object)
    }

    /// The objects of the file, each followed by any number of empty lines.
    #[verifier::rlimit(30)]
    fn parse_objects(&mut self) -> (r: Result<Vec<Object>, Stop>)
        requires
            old(self).wf(),
        ensures
            final(self).wf(),
            match spec_parse(old(self).tokens()) {
                Parsed::Done(os, n) => r matches Ok(v) && object_views(v@) == os && advanced(
                    old(self).tokens(),
                    old(self).line(),
                    final(self).tokens(),
                    final(self).line(),
                    n,
                ),
                Parsed::Fail(_, m, n) => r matches Err(Stop::Invalid(e)) && e.text() == m && e.line()
                    == final(self).line() && advanced(
                    old(self).tokens(),
                    old(self).line(),
                    final(self).tokens(),
                    final(self).line(),
                    n,
                ),
                Parsed::Abort => r matches Err(Stop::Undefined),
            },
    {
        let ghost ts = self.tokens();
        let ghost l0 = self.line();
        let mut result: Vec<Object> = Vec::new();
        self.skip_zero_or_more_newlines();
        let ghost mut n: nat = leading_newlines(ts);
        proof {
            lemma_leading_newlines_bound(ts);
            assert(object_views(result@) =~= Seq::<ObjectModel>::empty());
            lemma_prefixed_empty(spec_objects(self.tokens()), n);
        }
        loop
            invariant
                self.wf(),
                ts == old(self).tokens(),
                l0 == old(self).line(),
                advanced(ts, l0, self.tokens(), self.line(), n),
                spec_parse(ts) == prefixed(object_views(result@), spec_objects(self.tokens()), n),
            decreases self.tokens().len(),
        {
            let at_end = match self.peek() {
                None => true,
                Some(_) => false,
            };
            if at_end {
                proof {
                    assert(object_views(result@) + Seq::<ObjectModel>::empty() =~= object_views(result@));
                }
                return Ok(result);
            }
            let ghost tsk = self.tokens();
            let ghost lk = self.line();
            proof {
                lemma_objects_step(tsk);
            }
            let object = self.parse_object();
            match object {
                Ok(object) => {
                    let ghost c = spec_parse_object(tsk).consumed();
                    let ghost before = object_views(result@);
                    let ghost om = object@;
                    result.push(object);
                    proof {
                        lemma_advanced_trans(ts, l0, tsk, lk, n, self.tokens(), self.line(), c);
                    }
                    let ghost ts2 = self.tokens();
                    let ghost l2 = self.line();
                    self.skip_zero_or_more_newlines();
                    proof {
                        let k = leading_newlines(ts2);
                        lemma_leading_newlines_bound(ts2);
                        lemma_advanced_trans(ts, l0, ts2, l2, n + c, self.tokens(), self.line(), k);
                        assert(self.tokens() =~= tsk.skip((c + k) as int));
                        assert(object_views(result@) =~= before.push(om));
                        lemma_prefixed_push(before, om, spec_objects(self.tokens()), n, c + k);
                        n = n + c + k;
                    }
                },
                Err(e) => {
                    proof {
                        if !(spec_parse_object(tsk) is Abort) {
                            lemma_advanced_trans(ts, l0, tsk, lk, n, self.tokens(), self.line(),
                                spec_parse_object(tsk).consumed());
                        }
                    }
                    return Err(e);
                },
            }
        }
    }

    fn parse_impl(&mut self) -> (r: Result<ObjectSet, Stop>)
        requires
            old(self).wf(),
        ensures
            final(self).wf(),
            match spec_parse(old(self).tokens()) {
                Parsed::Done(os, n) => r matches Ok(s) && s@ == os && advanced(
                    old(self).tokens(),
                    old(self).line(),
                    final(self).tokens(),
                    final(self).line(),
                    n,
                ),
                Parsed::Fail(_, m, n) => r matches Err(Stop::Invalid(e)) && e.text() == m && e.line()
                    == final(self).line() && advanced(
                    old(self).tokens(),
                    old(self).line(),
                    final(self).tokens(),
                    final(self).line(),
                    n,
                ),
                Parsed::Abort => r matches Err(Stop::Undefined),
            },
    {
        let objects = self.parse_objects()?;
        Ok(ObjectSet::new(objects))
    }

    /// Parses a whole OBJ file.
    pub fn parse(&mut self) -> (r: Result<ObjectSet, ParseError>)
        requires
            old(self).wf(),
            !(spec_parse(old(self).tokens()) is Abort),
        ensures
            final(self).wf(),
            match spec_parse(old(self).tokens()) {
                Parsed::Done(os, n) => r matches Ok(s) && s@ == os && advanced(
                    old(self).tokens(),
                    old(self).line(),
                    final(self).tokens(),
                    final(self).line(),
                    n,
                ),
                Parsed::Fail(_, m, n) => r matches Err(e) && e.text() == m && e.line() == final(self).line()
                    && advanced(old(self).tokens(), old(self).line(), final(self).tokens(), final(self).line(), n),
                Parsed::Abort => false,
            },
    {
        match self.parse_impl() {
            Ok(set) => Ok(set),
            Err(Stop::Invalid(e)) => Err(e),
            Err(Stop::Undefined) => {
                proof {
                    assert(false);
                }
                Err(ParseError::new(0, String::new()))
            },
        }
    }
}

/// Parses an OBJ file from a string.
pub fn parse_str(st: &str) -> (r: Result<ObjectSet, ParseError>)
    requires
        st@.len() < usize::MAX - 1,
        !(spec_parse(tokenize(st@)) is Abort),
    ensures
        parse_reports(r, st@),
        st@.len() <= u32::MAX ==> (r matches Ok(s) ==> objects_wf(s@)),
        st@.len() <= u32::MAX ==> (r matches Ok(s) ==> forall|i: int|
            0 <= i < s@.len() ==> entries_grouped(#[trigger] s@[i])),
{
    proof {
        if st@.len() <= u32::MAX {
            lemma_parse_wf(st@);
            lemma_parse_grouped(st@);
        }
    }
    let mut parser = Parser::new(st);
    parser.parse()
}

/// Parses an OBJ file from a string; `None` for the inputs on which
/// `parse_str` is not defined: a count or number that passes `u32::MAX`.
pub fn try_parse_str(st: &str) -> (r: Option<Result<ObjectSet, ParseError>>)
    requires
        st@.len() < usize::MAX - 1,
    ensures
        r is None <==> spec_parse(tokenize(st@)) is Abort,
        r matches Some(res) ==> parse_reports(res, st@),
        st@.len() <= u32::MAX ==> (r matches Some(Ok(s)) ==> objects_wf(s@)),
        st@.len() <= u32::MAX ==> (r matches Some(Ok(s)) ==> forall|i: int|
            0 <= i < s@.len() ==> entries_grouped(#[trigger] s@[i])),
{
    proof {
        if st@.len() <= u32::MAX {
            lemma_parse_wf(st@);
            lemma_parse_grouped(st@);
        }
    }
    let mut parser = Parser::new(st);
    match parser.parse_impl() {
        Ok(set) => Some(Ok(set)),
        Err(Stop::Invalid(e)) => Some(Err(e)),
        Err(Stop::Undefined) => None,
    }
}

} // verus!

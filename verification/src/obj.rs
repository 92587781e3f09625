//! The Wavefront OBJ parser: vertices, elements, groups, smoothing groups,
//! materials and the shape tables that tie them together.
//!
//! Vertex coordinates are kept as the text of the literal in the file; every
//! such text is one that `str::parse::<f64>` accepts (see
//! [`crate::text::is_float_literal`]).
use vstd::prelude::*;
use crate::lexer::{
    advanced, lemma_advanced_one, lemma_advanced_trans, lemma_advanced_zero, lemma_after_after, newline_tokens,
    tokenize, Parsed, TokenStream,
};
use crate::text::{
    opt_chars, chars_to_string, concat3, is_float_literal, is_float_token, parse_usize_token,
    spec_parse_usize, text_of, token_is,
};

verus! {

/// A geometric vertex: `v x y z [w]`.
#[derive(Clone, Debug, PartialEq)]
pub struct Vertex {
    pub x: String,
    pub y: String,
    pub z: String,
    pub w: String,
}

/// The text of a vertex's coordinates.
pub struct VertexModel {
    pub x: Seq<char>,
    pub y: Seq<char>,
    pub z: Seq<char>,
    pub w: Seq<char>,
}

impl View for Vertex {
    type V = VertexModel;

    open spec fn view(&self) -> VertexModel {
        VertexModel { x: self.x@, y: self.y@, z: self.z@, w: self.w@ }
    }
}

impl Vertex {
    pub fn new(x: String, y: String, z: String, w: String) -> (v: Vertex)
        ensures
            v.x == x,
            v.y == y,
            v.z == z,
            v.w == w,
    {
        Vertex { x: x, y: y, z: z, w: w }
    }
}

/// A texture vertex: `vt u [v] [w]`.
#[derive(Clone, Debug, PartialEq)]
pub struct TextureVertex {
    pub u: String,
    pub v: String,
    pub w: String,
}

pub struct TextureVertexModel {
    pub u: Seq<char>,
    pub v: Seq<char>,
    pub w: Seq<char>,
}

impl View for TextureVertex {
    type V = TextureVertexModel;

    open spec fn view(&self) -> TextureVertexModel {
        TextureVertexModel { u: self.u@, v: self.v@, w: self.w@ }
    }
}

impl TextureVertex {
    pub fn new(u: String, v: String, w: String) -> (t: TextureVertex)
        ensures
            t.u == u,
            t.v == v,
            t.w == w,
    {
        TextureVertex { u: u, v: v, w: w }
    }
}

/// A normal vector: `vn i j k`.
#[derive(Clone, Debug, PartialEq)]
pub struct NormalVertex {
    pub i: String,
    pub j: String,
    pub k: String,
}

pub struct NormalVertexModel {
    pub i: Seq<char>,
    pub j: Seq<char>,
    pub k: Seq<char>,
}

impl View for NormalVertex {
    type V = NormalVertexModel;

    open spec fn view(&self) -> NormalVertexModel {
        NormalVertexModel { i: self.i@, j: self.j@, k: self.k@ }
    }
}

impl NormalVertex {
    pub fn new(i: String, j: String, k: String) -> (n: NormalVertex)
        ensures
            n.i == i,
            n.j == j,
            n.k == k,
    {
        NormalVertex { i: i, j: j, k: k }
    }
}

/// The vertex, texture vertex and normal indices of one corner of an
/// element, counted from zero.
#[derive(Clone, Copy, Debug, PartialEq, Eq, Structural)]
pub enum VTNIndex {
    V(usize),
    VT(usize, usize),
    VN(usize, usize),
    VTN(usize, usize, usize),
}

impl View for VTNIndex {
    type V = VTNIndex;

    open spec fn view(&self) -> VTNIndex {
        *self
    }
}

pub open spec fn same_form(a: VTNIndex, b: VTNIndex) -> bool {
    ||| (a is V && b is V)
    ||| (a is VT && b is VT)
    ||| (a is VN && b is VN)
    ||| (a is VTN && b is VTN)
}

impl VTNIndex {
    /// Whether two indices name the same kinds of data.
    pub fn has_same_type_as(&self, other: &VTNIndex) -> (b: bool)
        ensures
            b == same_form(*self, *other),
    {
        match (self, other) {
            (VTNIndex::V(_), VTNIndex::V(_)) => true,
            (VTNIndex::VT(_, _), VTNIndex::VT(_, _)) => true,
            (VTNIndex::VN(_, _), VTNIndex::VN(_, _)) => true,
            (VTNIndex::VTN(_, _, _), VTNIndex::VTN(_, _, _)) => true,
            _ => false,
        }
    }
}

/// A point, a line segment or a triangle.
#[derive(Clone, Copy, Debug, PartialEq, Eq, Structural)]
pub enum Element {
    Point(VTNIndex),
    Line(VTNIndex, VTNIndex),
    Face(VTNIndex, VTNIndex, VTNIndex),
}

/// A named group of elements.
#[derive(Clone, Debug, PartialEq, Eq)]
pub struct Group(String);

impl View for Group {
    type V = Seq<char>;

    closed spec fn view(&self) -> Seq<char> {
        self.0@
    }
}

impl Group {
    pub fn new(name: &str) -> (g: Group)
        ensures
            g@ == name@,
    {
        Group(text_of(name))
    }

    /// A group named by a token.
    pub fn from_chars(name: &[char]) -> (g: Group)
        ensures
            g@ == name@,
    {
        Group(chars_to_string(name))
    }

    /// The group's name.
    pub fn name(&self) -> (s: &String)
        ensures
            s@ == self@,
    {
        &self.0
    }
}

/// The group that elements belong to when no `g` statement names one.
pub open spec fn default_group_name() -> Seq<char> {
    "default"@
}

impl Default for Group {
    fn default() -> (g: Group)
        ensures
            g@ == default_group_name(),
    {
        Group::new("default")
    }
}

/// A smoothing group, by number; `0` means smoothing is off.
#[derive(Clone, Copy, Debug, PartialEq, Eq, Structural)]
pub struct SmoothingGroup(usize);

impl View for SmoothingGroup {
    type V = usize;

    closed spec fn view(&self) -> usize {
        self.0
    }
}

impl SmoothingGroup {
    #[inline]
    pub fn new(name: usize) -> (g: SmoothingGroup)
        ensures
            g@ == name,
    {
        SmoothingGroup(name)
    }

    #[inline]
    pub fn as_usize(&self) -> (n: usize)
        ensures
            n == self@,
    {
        self.0
    }
}

impl Default for SmoothingGroup {
    fn default() -> (g: SmoothingGroup)
        ensures
            g@ == 0,
    {
        SmoothingGroup::new(0)
    }
}

/// An element together with the groups and the smoothing group it belongs to.
#[derive(Clone, Debug, PartialEq)]
pub struct ShapeEntry {
    pub element: usize,
    pub groups: Vec<usize>,
    pub smoothing_group: usize,
}

pub struct ShapeEntryModel {
    pub element: usize,
    pub groups: Seq<usize>,
    pub smoothing_group: usize,
}

impl View for ShapeEntry {
    type V = ShapeEntryModel;

    open spec fn view(&self) -> ShapeEntryModel {
        ShapeEntryModel { element: self.element, groups: self.groups@, smoothing_group: self.smoothing_group }
    }
}

impl ShapeEntry {
    pub fn new(element: usize, groups: Vec<usize>, smoothing_group: usize) -> (e: ShapeEntry)
        ensures
            e.element == element,
            e.groups@ == groups@,
            e.smoothing_group == smoothing_group,
    {
        ShapeEntry { element: element, groups: groups, smoothing_group: smoothing_group }
    }
}

/// An element with its groups and smoothing groups spelled out.
#[derive(Clone, Debug, PartialEq)]
pub struct Shape {
    pub element: Element,
    pub groups: Vec<Group>,
    pub smoothing_groups: Vec<SmoothingGroup>,
}

/// A run of shape entries drawn with one material.
#[derive(Clone, Debug, PartialEq)]
pub struct Geometry {
    pub material_name: Option<String>,
    pub shapes: Vec<usize>,
}

pub struct GeometryModel {
    pub material_name: Option<Seq<char>>,
    pub shapes: Seq<usize>,
}

pub open spec fn opt_string_view(s: Option<String>) -> Option<Seq<char>> {
    match s {
        Some(t) => Some(t@),
        None => None,
    }
}

impl View for Geometry {
    type V = GeometryModel;

    open spec fn view(&self) -> GeometryModel {
        GeometryModel { material_name: opt_string_view(self.material_name), shapes: self.shapes@ }
    }
}

impl Geometry {
    pub fn new(material_name: Option<String>, shapes: Vec<usize>) -> (g: Geometry)
        ensures
            g.material_name == material_name,
            g.shapes@ == shapes@,
    {
        Geometry { material_name: material_name, shapes: shapes }
    }
}

/// The kind of error that parsing an OBJ file met.
#[derive(Clone, Debug, PartialEq, Eq)]
pub enum ErrorKind {
    EndOfFile,
    ExpectedTagStatement,
    ExpectedFloat,
    ExpectedInteger,
    ExpectedVertexIndexButGot(String),
    ExpectedTextureIndexButGot(String),
    ExpectedNormalIndexButGot(String),
    ExpectedVertexNormalIndexButGot(String),
    ExpectedVertexTextureIndexButGot(String),
    ExpectedVTNIndex,
    EveryFaceElementMustHaveAtLeastThreeVertices,
    EveryVTNIndexMustHaveTheSameFormForAGivenElement,
    InvalidElementDeclaration,
    ElementMustBeAPointLineOrFace,
    SmoothingGroupNameMustBeOffOrInteger,
    SmoothingGroupDeclarationHasNoName,
    MaterialStatementHasNoName,
}

/// An error that is returned from parsing an invalid *.obj file.
#[derive(Clone, Debug, PartialEq, Eq)]
pub struct ParseError {
    line_number: usize,
    kind: ErrorKind,
    message: String,
}

impl ParseError {
    pub closed spec fn line(&self) -> nat {
        self.line_number as nat
    }

    pub closed spec fn error_kind(&self) -> ErrorKind {
        self.kind
    }

    pub closed spec fn text(&self) -> Seq<char> {
        self.message@
    }

    /// Generate a new parse error.
    fn new(line_number: usize, kind: ErrorKind, message: String) -> (e: ParseError)
        ensures
            e.line_number == line_number,
            e.kind == kind,
            e.message == message,
    {
        ParseError { line_number: line_number, kind: kind, message: message }
    }

    /// The line on which the error was found.
    pub fn line_number(&self) -> (n: usize)
        ensures
            n == self.line(),
    {
        self.line_number
    }

    /// How the error reads to the user: "Parse error at line", the line,
    /// a colon, and the message.
    pub fn describe(&self) -> (s: String)
        ensures
            s@ == crate::text::error_report(self.line(), self.text()),
    {
        crate::text::report_text(self.line_number, self.message.as_str())
    }

    /// The kind of error.
    pub fn kind(&self) -> (k: &ErrorKind)
        ensures
            *k == self.error_kind(),
    {
        &self.kind
    }

    /// The message that describes the error.
    pub fn message(&self) -> (m: &String)
        ensures
            m@ == self.text(),
    {
        &self.message
    }
}

/// A parsing step of this parser.
pub type Step<T> = Parsed<T, ErrorKind>;

/// A call on a parser that held `ts` on line `line0` and now holds `ts1` on
/// line `line1` returned `r`, as the step `p` prescribes.
pub open spec fn reports<E: View>(
    r: Result<E, ParseError>,
    p: Step<E::V>,
    ts: Seq<Seq<char>>,
    line0: nat,
    ts1: Seq<Seq<char>>,
    line1: nat,
) -> bool {
    match p {
        Parsed::Done(v, n) => {
            &&& r matches Ok(e) && e@ == v
            &&& advanced(ts, line0, ts1, line1, n)
        },
        Parsed::Fail(k, m, n) => {
            &&& r matches Err(e) && e.error_kind() == k && e.text() == m && e.line() == line1
            &&& advanced(ts, line0, ts1, line1, n)
        },
        Parsed::Abort => false,
    }
}

pub open spec fn eof_message() -> Seq<char> {
    "Reached the end of the input in the process of getting the next token."@
}

pub open spec fn spec_next_string(ts: Seq<Seq<char>>) -> Step<Seq<char>> {
    if ts.len() > 0 {
        Parsed::Done(ts[0], 1)
    } else {
        Parsed::Fail(ErrorKind::EndOfFile, eof_message(), 0)
    }
}

pub open spec fn spec_expect_tag(ts: Seq<Seq<char>>, tag: Seq<char>) -> Step<()> {
    if ts.len() == 0 {
        Parsed::Fail(ErrorKind::EndOfFile, eof_message(), 0)
    } else if ts[0] != tag {
        Parsed::Fail(
            ErrorKind::ExpectedTagStatement,
            "Expected `"@ + tag + "` but got `"@ + ts[0] + "` instead."@,
            1,
        )
    } else {
        Parsed::Done((), 1)
    }
}

pub open spec fn spec_parse_float(ts: Seq<Seq<char>>) -> Step<Seq<char>> {
    if ts.len() == 0 {
        Parsed::Fail(ErrorKind::EndOfFile, eof_message(), 0)
    } else if is_float_literal(ts[0]) {
        Parsed::Done(ts[0], 1)
    } else {
        Parsed::Fail(
            ErrorKind::ExpectedFloat,
            "Expected a floating point number but got `"@ + ts[0] + "` instead."@,
            1,
        )
    }
}

pub open spec fn integer_message(t: Seq<char>) -> Seq<char> {
    "Expected an integer but got `"@ + t + "` instead."@
}

pub open spec fn spec_parse_usize_step(ts: Seq<Seq<char>>) -> Step<usize> {
    if ts.len() == 0 {
        Parsed::Fail(ErrorKind::EndOfFile, eof_message(), 0)
    } else if spec_parse_usize(ts[0]) is Some {
        Parsed::Done(spec_parse_usize(ts[0])->0, 1)
    } else {
        Parsed::Fail(ErrorKind::ExpectedInteger, integer_message(ts[0]), 1)
    }
}

/// The optional float that follows: taken when the next token is one.
pub open spec fn optional_float(ts: Seq<Seq<char>>, default: Seq<char>) -> (Seq<char>, nat) {
    if ts.len() > 0 && is_float_literal(ts[0]) {
        (ts[0], 1)
    } else {
        (default, 0)
    }
}

pub open spec fn spec_parse_vertex(ts: Seq<Seq<char>>) -> Step<VertexModel> {
    let t = spec_expect_tag(ts, "v"@);
    let x = spec_parse_float(ts.skip(1));
    let y = spec_parse_float(ts.skip(2));
    let z = spec_parse_float(ts.skip(3));
    if !(t is Done) {
        t.fail_as()
    } else if !(x is Done) {
        x.after(1).fail_as()
    } else if !(y is Done) {
        y.after(2).fail_as()
    } else if !(z is Done) {
        z.after(3).fail_as()
    } else {
        let (w, n) = optional_float(ts.skip(4), "1"@);
        Parsed::Done(VertexModel { x: ts[1], y: ts[2], z: ts[3], w: w }, 4 + n)
    }
}

pub open spec fn spec_parse_texture_vertex(ts: Seq<Seq<char>>) -> Step<TextureVertexModel> {
    let t = spec_expect_tag(ts, "vt"@);
    let u = spec_parse_float(ts.skip(1));
    if !(t is Done) {
        t.fail_as()
    } else if !(u is Done) {
        u.after(1).fail_as()
    } else {
        let (v, n1) = optional_float(ts.skip(2), "0"@);
        let (w, n2) = optional_float(ts.skip((2 + n1) as int), "0"@);
        Parsed::Done(TextureVertexModel { u: ts[1], v: v, w: w }, 2 + n1 + n2)
    }
}

pub open spec fn spec_parse_normal_vertex(ts: Seq<Seq<char>>) -> Step<NormalVertexModel> {
    let t = spec_expect_tag(ts, "vn"@);
    let i = spec_parse_float(ts.skip(1));
    let j = spec_parse_float(ts.skip(2));
    let k = spec_parse_float(ts.skip(3));
    if !(t is Done) {
        t.fail_as()
    } else if !(i is Done) {
        i.after(1).fail_as()
    } else if !(j is Done) {
        j.after(2).fail_as()
    } else if !(k is Done) {
        k.after(3).fail_as()
    } else {
        Parsed::Done(NormalVertexModel { i: ts[1], j: ts[2], k: ts[3] }, 4)
    }
}

/// The number of line feed tokens at the front of `ts`.
pub open spec fn leading_newlines(ts: Seq<Seq<char>>) -> nat
    decreases ts.len(),
{
    if ts.len() > 0 && ts[0] == "\n"@ {
        1 + leading_newlines(ts.drop_first())
    } else {
        0
    }
}

pub open spec fn spec_skip_one_or_more_newlines(ts: Seq<Seq<char>>) -> Step<()> {
    let t = spec_expect_tag(ts, "\n"@);
    if !(t is Done) {
        t
    } else {
        Parsed::Done((), 1 + leading_newlines(ts.drop_first()))
    }
}

pub open spec fn spec_parse_object_name(ts: Seq<Seq<char>>) -> Step<Seq<char>> {
    if ts.len() > 0 && ts[0] == "o"@ {
        let n1: nat = if ts.len() > 1 {
            2
        } else {
            1
        };
        let skip = spec_skip_one_or_more_newlines(ts.skip(n1 as int));
        if !(skip is Done) {
            skip.after(n1).fail_as()
        } else {
            Parsed::Done(ts[1], n1 + skip.consumed())
        }
    } else {
        Parsed::Done(Seq::empty(), 0)
    }
}

/// The text `t` split at each `/`.
pub open spec fn split_slash(s: Seq<char>) -> Seq<Seq<char>>
    decreases s.len(),
{
    if s.len() == 0 {
        seq![Seq::empty()]
    } else {
        let p = split_slash(s.drop_last());
        if s.last() == '/' {
            p.push(Seq::empty())
        } else {
            p.update(p.len() - 1, p.last().push(s.last()))
        }
    }
}

/// The number in the `k`th slash-separated field, if that field is a
/// number.
pub open spec fn slash_field(pieces: Seq<Seq<char>>, k: int) -> Option<usize> {
    if 0 <= k < pieces.len() && pieces[k].len() > 0 {
        spec_parse_usize(pieces[k])
    } else {
        None
    }
}

/// The `k`th slash-separated field is a number other than zero.
pub open spec fn positive_field(pieces: Seq<Seq<char>>, k: int) -> bool {
    slash_field(pieces, k) matches Some(n) && n >= 1
}

/// A `v`, `v/t`, `v//n` or `v/t/n` token, each number at least one.
pub open spec fn vtn_form_ok(t: Seq<char>) -> bool {
    let p = split_slash(t);
    &&& p.len() <= 3
    &&& positive_field(p, 0)
    &&& p.len() >= 2 ==> positive_field(p, 1) || (p.len() == 3 && p[1].len() == 0)
    &&& p.len() == 3 ==> positive_field(p, 2)
}

/// The index a vertex/texture/normal token of the right form denotes; the
/// numbers in the file count from one, the indices from zero.
pub open spec fn vtn_value(t: Seq<char>) -> VTNIndex {
    let p = split_slash(t);
    let v = (slash_field(p, 0)->0 - 1) as usize;
    match (slash_field(p, 1), slash_field(p, 2)) {
        (None, None) => VTNIndex::V(v),
        (None, Some(n)) => VTNIndex::VN(v, (n - 1) as usize),
        (Some(tx), None) => VTNIndex::VT(v, (tx - 1) as usize),
        (Some(tx), Some(n)) => VTNIndex::VTN(v, (tx - 1) as usize, (n - 1) as usize),
    }
}

pub open spec fn vtn_message(t: Seq<char>) -> Seq<char> {
    "Expected a `vertex/texture/normal` index but got `"@ + t + "` instead."@
}

pub open spec fn spec_parse_vtn_index(ts: Seq<Seq<char>>) -> Step<VTNIndex> {
    if ts.len() == 0 {
        Parsed::Fail(ErrorKind::EndOfFile, eof_message(), 0)
    } else if !vtn_form_ok(ts[0]) {
        Parsed::Fail(ErrorKind::ExpectedVTNIndex, vtn_message(ts[0]), 1)
    } else {
        Parsed::Done(vtn_value(ts[0]), 1)
    }
}

/// Indices for as long as they parse; the token that does not is consumed.
pub open spec fn spec_vtn_run(ts: Seq<Seq<char>>) -> Step<Seq<VTNIndex>>
    decreases ts.len(),
{
    if ts.len() == 0 {
        Parsed::Done(Seq::empty(), 0)
    } else if !vtn_form_ok(ts[0]) {
        Parsed::Done(Seq::empty(), 1)
    } else {
        match spec_vtn_run(ts.drop_first()) {
            Parsed::Done(vs, m) => Parsed::Done(seq![vtn_value(ts[0])] + vs, m + 1),
            other => other,
        }
    }
}

/// The value of a step that is done.
pub open spec fn done_value<T, K>(p: Parsed<T, K>) -> T
    recommends
        p is Done,
{
    match p {
        Parsed::Done(v, _) => v,
        _ => arbitrary(),
    }
}

/// The points that follow a `p` and its first index, up to the end of the
/// line.
pub open spec fn spec_point_tail(ts: Seq<Seq<char>>) -> (Seq<Element>, Step<()>)
    decreases ts.len(),
{
    if ts.len() == 0 {
        (Seq::empty(), Parsed::Done((), 0))
    } else if ts[0] == "\n"@ {
        (Seq::empty(), Parsed::Done((), 1))
    } else if spec_parse_usize(ts[0]) is None {
        (Seq::empty(), Parsed::Fail(ErrorKind::ExpectedInteger, integer_message(ts[0]), 1))
    } else if spec_parse_usize(ts[0])->0 == 0 {
        (Seq::empty(), Parsed::Abort)
    } else {
        let rest = spec_point_tail(ts.drop_first());
        (
            seq![Element::Point(VTNIndex::V((spec_parse_usize(ts[0])->0 - 1) as usize))] + rest.0,
            rest.1.after(1),
        )
    }
}

/// A `p` statement: the points it adds, and the number of them.
pub open spec fn spec_parse_point(ts: Seq<Seq<char>>) -> (Seq<Element>, Step<usize>) {
    let tag = spec_expect_tag(ts, "p"@);
    let first = spec_parse_usize_step(ts.skip(1));
    if !(tag is Done) {
        (Seq::empty(), tag.fail_as())
    } else if !(first is Done) {
        (Seq::empty(), first.after(1).fail_as())
    } else if done_value(first) == 0 {
        (Seq::empty(), Parsed::Abort)
    } else {
        let tail = spec_point_tail(ts.skip(2));
        let pushed = seq![Element::Point(VTNIndex::V((done_value(first) - 1) as usize))] + tail.0;
        (
            pushed,
            match tail.1 {
                Parsed::Done(_, m) => Parsed::Done(pushed.len() as usize, m + 2),
                other => other.after(2).fail_as(),
            },
        )
    }
}

pub open spec fn all_same_form(idx: Seq<VTNIndex>) -> bool {
    forall|i: int| 1 <= i < idx.len() ==> same_form(#[trigger] idx[i], idx[0])
}

/// The line segments between consecutive indices.
pub open spec fn line_segments(idx: Seq<VTNIndex>) -> Seq<Element> {
    Seq::new((idx.len() - 1) as nat, |i: int| Element::Line(idx[i], idx[i + 1]))
}

/// The triangles of a fan around the first index.
pub open spec fn triangle_fan(idx: Seq<VTNIndex>) -> Seq<Element> {
    Seq::new((idx.len() - 2) as nat, |i: int| Element::Face(idx[0], idx[i + 1], idx[i + 2]))
}

pub open spec fn line_form_message() -> Seq<char> {
    "Every VTN index describing the vertex data for a line must havethe same form."@
}

pub open spec fn face_form_message() -> Seq<char> {
    "Every VTN index describing the vertex data for a face must havethe same form."@
}

pub open spec fn face_size_message() -> Seq<char> {
    "A face primitive must have at least three vertices.At minimum, a triangle requires three indices."@
}

/// An `l` statement: the segments it adds, and the number of them.
pub open spec fn spec_parse_line(ts: Seq<Seq<char>>) -> (Seq<Element>, Step<usize>) {
    let tag = spec_expect_tag(ts, "l"@);
    let a = spec_parse_vtn_index(ts.skip(1));
    let b = spec_parse_vtn_index(ts.skip(2));
    let run = spec_vtn_run(ts.skip(3));
    if !(tag is Done) {
        (Seq::empty(), tag.fail_as())
    } else if !(a is Done) {
        (Seq::empty(), a.after(1).fail_as())
    } else if !(b is Done) {
        (Seq::empty(), b.after(2).fail_as())
    } else if !(run is Done) {
        (Seq::empty(), Parsed::Abort)
    } else {
        let idx = seq![done_value(a), done_value(b)] + done_value(run);
        let n = 3 + run.consumed();
        if !all_same_form(idx) {
            (Seq::empty(), Parsed::Fail(
                ErrorKind::EveryVTNIndexMustHaveTheSameFormForAGivenElement,
                line_form_message(),
                n,
            ))
        } else {
            (line_segments(idx), Parsed::Done((idx.len() - 1) as usize, n))
        }
    }
}

/// An `f` statement: the triangles it adds, and the number of them.
pub open spec fn spec_parse_face(ts: Seq<Seq<char>>) -> (Seq<Element>, Step<usize>) {
    let tag = spec_expect_tag(ts, "f"@);
    let run = spec_vtn_run(ts.skip(1));
    if !(tag is Done) {
        (Seq::empty(), tag.fail_as())
    } else if !(run is Done) {
        (Seq::empty(), Parsed::Abort)
    } else {
        let idx = done_value(run);
        let n = 1 + run.consumed();
        if idx.len() < 3 {
            (Seq::empty(), Parsed::Fail(
                ErrorKind::EveryFaceElementMustHaveAtLeastThreeVertices,
                face_size_message(),
                n,
            ))
        } else if !all_same_form(idx) {
            (Seq::empty(), Parsed::Fail(
                ErrorKind::EveryVTNIndexMustHaveTheSameFormForAGivenElement,
                face_form_message(),
                n,
            ))
        } else {
            (triangle_fan(idx), Parsed::Done((idx.len() - 2) as usize, n))
        }
    }
}

pub open spec fn element_kind_message() -> Seq<char> {
    "An element must be declared as a point (`p`), line (`l`), or face (`f`)."@
}

/// A `p`, `l` or `f` statement.
pub open spec fn spec_parse_elements(ts: Seq<Seq<char>>) -> (Seq<Element>, Step<usize>) {
    if ts.len() > 0 && ts[0] == "p"@ {
        spec_parse_point(ts)
    } else if ts.len() > 0 && ts[0] == "l"@ {
        spec_parse_line(ts)
    } else if ts.len() > 0 && ts[0] == "f"@ {
        spec_parse_face(ts)
    } else {
        (Seq::empty(), Parsed::Fail(ErrorKind::ElementMustBeAPointLineOrFace, element_kind_message(), 0))
    }
}

/// The tokens up to the end of the line.
pub open spec fn names_until_newline(ts: Seq<Seq<char>>) -> Seq<Seq<char>>
    decreases ts.len(),
{
    if ts.len() == 0 || ts[0] == "\n"@ {
        Seq::empty()
    } else {
        seq![ts[0]] + names_until_newline(ts.drop_first())
    }
}

/// The tokens consumed in reading the names up to the end of the line: the
/// names, and the line feed if there is one.
pub open spec fn names_consumed(ts: Seq<Seq<char>>) -> nat {
    let k = names_until_newline(ts).len();
    if k < ts.len() {
        k + 1
    } else {
        k
    }
}

/// The groups a `g` statement names: the names up to the end of the line,
/// or the default group where there are none.
pub open spec fn group_names(ts: Seq<Seq<char>>) -> Seq<Seq<char>> {
    let names = names_until_newline(ts);
    if names.len() == 0 {
        seq![default_group_name()]
    } else {
        names
    }
}

/// A `g` statement: the group names it adds, and the number of them.
pub open spec fn spec_parse_groups(ts: Seq<Seq<char>>) -> (Seq<Seq<char>>, Step<usize>) {
    let tag = spec_expect_tag(ts, "g"@);
    if !(tag is Done) {
        (Seq::empty(), tag.fail_as())
    } else {
        let names = group_names(ts.skip(1));
        (names, Parsed::Done(names.len() as usize, 1 + names_consumed(ts.skip(1))))
    }
}

pub open spec fn smoothing_name_message(t: Seq<char>) -> Seq<char> {
    "A smoothing group name must either be `off`, which denotes that an object has no smoothing groups, or an integer. The parser got `"@
        + t + "` instead."@
}

pub open spec fn smoothing_missing_message() -> Seq<char> {
    "Got a smoothing group declaration without a smoothing group name."@
}

/// An `s` statement: the smoothing group number it adds.
pub open spec fn spec_parse_smoothing_group(ts: Seq<Seq<char>>) -> (Seq<usize>, Step<usize>) {
    let tag = spec_expect_tag(ts, "s"@);
    if !(tag is Done) {
        (Seq::empty(), tag.fail_as())
    } else if ts.len() < 2 {
        (Seq::empty(), Parsed::Fail(ErrorKind::SmoothingGroupDeclarationHasNoName, smoothing_missing_message(), 1))
    } else if ts[1] == "off"@ {
        (seq![0usize], Parsed::Done(1, 2))
    } else if spec_parse_usize(ts[1]) is Some {
        (seq![spec_parse_usize(ts[1])->0], Parsed::Done(1, 2))
    } else {
        (Seq::empty(), Parsed::Fail(ErrorKind::SmoothingGroupNameMustBeOffOrInteger, smoothing_name_message(ts[1]), 2))
    }
}

pub open spec fn material_missing_message() -> Seq<char> {
    "Got a `usemtl` material declaration without a material name."@
}

/// A `usemtl` statement: the material name it adds.
pub open spec fn spec_parse_material_name(ts: Seq<Seq<char>>) -> (Seq<Option<Seq<char>>>, Step<usize>) {
    let tag = spec_expect_tag(ts, "usemtl"@);
    if !(tag is Done) {
        (Seq::empty(), tag.fail_as())
    } else if ts.len() < 2 {
        (Seq::empty(), Parsed::Fail(ErrorKind::MaterialStatementHasNoName, material_missing_message(), 1))
    } else {
        (seq![Some(ts[1])], Parsed::Done(1, 2))
    }
}

/// An `mtllib` statement: the library names it adds, and the number of them.
pub open spec fn spec_parse_material_library_line(ts: Seq<Seq<char>>) -> (Seq<Seq<char>>, Step<usize>) {
    let tag = spec_expect_tag(ts, "mtllib"@);
    if !(tag is Done) {
        (Seq::empty(), tag.fail_as())
    } else {
        let names = names_until_newline(ts.skip(1));
        (names, Parsed::Done(names.len() as usize, 1 + names_consumed(ts.skip(1))))
    }
}

pub proof fn lemma_leading_newlines_bound(ts: Seq<Seq<char>>)
    ensures
        leading_newlines(ts) <= ts.len(),
    decreases ts.len(),
{
    if ts.len() > 0 && ts[0] == "\n"@ {
        lemma_leading_newlines_bound(ts.drop_first());
    }
}

pub proof fn lemma_names_bound(ts: Seq<Seq<char>>)
    ensures
        names_until_newline(ts).len() <= ts.len(),
        names_consumed(ts) <= ts.len(),
    decreases ts.len(),
{
    if !(ts.len() == 0 || ts[0] == "\n"@) {
        lemma_names_bound(ts.drop_first());
    }
}

/// The `mtllib` statements at the front of `ts`, each followed by any
/// number of empty lines.
pub open spec fn spec_mtllib_lines(ts: Seq<Seq<char>>) -> Step<Seq<Seq<char>>>
    decreases ts.len(),
{
    if ts.len() > 0 && ts[0] == "mtllib"@ {
        let names = names_until_newline(ts.drop_first());
        let n = 1 + names_consumed(ts.drop_first());
        let k = leading_newlines(ts.skip(n as int));
        proof {
            lemma_names_bound(ts.drop_first());
            lemma_leading_newlines_bound(ts.skip(n as int));
        }
        match spec_mtllib_lines(ts.skip((n + k) as int)) {
            Parsed::Done(more, m) => Parsed::Done(names + more, n + k + m),
            other => other.after(n + k),
        }
    } else {
        Parsed::Done(Seq::empty(), 0)
    }
}

pub proof fn lemma_mtllib_lines_done(ts: Seq<Seq<char>>)
    ensures
        spec_mtllib_lines(ts) is Done,
    decreases ts.len(),
{
    if ts.len() > 0 && ts[0] == "mtllib"@ {
        let n = 1 + names_consumed(ts.drop_first());
        let k = leading_newlines(ts.skip(n as int));
        lemma_names_bound(ts.drop_first());
        lemma_leading_newlines_bound(ts.skip(n as int));
        lemma_mtllib_lines_done(ts.skip((n + k) as int));
    }
}

/// The material libraries named at the start of a file.
pub open spec fn spec_parse_material_libraries(ts: Seq<Seq<char>>) -> Step<Seq<Seq<char>>> {
    let k = leading_newlines(ts);
    spec_mtllib_lines(ts.skip(k as int)).after(k)
}

/// The names of groups.
pub open spec fn group_views(gs: Seq<Group>) -> Seq<Seq<char>> {
    gs.map_values(|g: Group| g@)
}

/// The numbers of smoothing groups.
pub open spec fn smoothing_views(gs: Seq<SmoothingGroup>) -> Seq<usize> {
    gs.map_values(|g: SmoothingGroup| g@)
}

/// The texts of strings.
pub open spec fn string_views(ss: Seq<String>) -> Seq<Seq<char>> {
    ss.map_values(|s: String| s@)
}

/// The texts of optional tokens.
pub open spec fn opt_token_views(ss: Seq<Option<Vec<char>>>) -> Seq<Option<Seq<char>>> {
    ss.map_values(|s: Option<Vec<char>>| opt_chars(s))
}

/// The texts of tokens.
pub open spec fn token_views(ts: Seq<Vec<char>>) -> Seq<Seq<char>> {
    ts.map_values(|t: Vec<char>| t@)
}

/// What the parser has gathered of an object so far: the data, and the
/// tables that record which elements each group, smoothing group and
/// material statement covers.
pub struct ObjState {
    pub vertices: Seq<VertexModel>,
    pub texture_vertices: Seq<TextureVertexModel>,
    pub normal_vertices: Seq<NormalVertexModel>,
    pub elements: Seq<Element>,
    pub group_entry_table: Seq<((usize, usize), (usize, usize))>,
    pub groups: Seq<Seq<char>>,
    pub min_element_group_index: usize,
    pub max_element_group_index: usize,
    pub min_group_index: usize,
    pub max_group_index: usize,
    pub smoothing_group_entry_table: Seq<((usize, usize), usize)>,
    pub smoothing_groups: Seq<usize>,
    pub min_element_smoothing_group_index: usize,
    pub max_element_smoothing_group_index: usize,
    pub smoothing_group_index: usize,
    pub material_name_entry_table: Seq<((usize, usize), usize)>,
    pub material_names: Seq<Option<Seq<char>>>,
    pub min_element_material_name_index: usize,
    pub max_element_material_name_index: usize,
    pub material_name_index: usize,
}

pub open spec fn initial_state() -> ObjState {
    ObjState {
        vertices: Seq::empty(),
        texture_vertices: Seq::empty(),
        normal_vertices: Seq::empty(),
        elements: Seq::empty(),
        group_entry_table: Seq::empty(),
        groups: Seq::empty(),
        min_element_group_index: 0,
        max_element_group_index: 0,
        min_group_index: 0,
        max_group_index: 0,
        smoothing_group_entry_table: Seq::empty(),
        smoothing_groups: Seq::empty(),
        min_element_smoothing_group_index: 0,
        max_element_smoothing_group_index: 0,
        smoothing_group_index: 0,
        material_name_entry_table: Seq::empty(),
        material_names: Seq::empty(),
        min_element_material_name_index: 0,
        max_element_material_name_index: 0,
        material_name_index: 0,
    }
}

/// Before the first element, the default group, smoothing group and
/// material stand in for those not yet named.
pub open spec fn prepared_for_elements(st: ObjState) -> ObjState {
    let st1 = if st.groups.len() == 0 {
        ObjState { groups: seq![default_group_name()], min_group_index: 0, max_group_index: 1, ..st }
    } else {
        st
    };
    let st2 = if st1.smoothing_groups.len() == 0 {
        ObjState { smoothing_groups: seq![0usize], smoothing_group_index: 0, ..st1 }
    } else {
        st1
    };
    if st2.material_names.len() == 0 {
        ObjState { material_names: seq![None], material_name_index: 0, ..st2 }
    } else {
        st2
    }
}

pub open spec fn invalid_statement_message(t: Seq<char>) -> Seq<char> {
    "Unsupported or invalid element declaration `"@ + t + "`."@
}

/// A `g` statement: the groups named so far are closed as a range, unless
/// there are none yet.
pub open spec fn group_statement(st: ObjState, ts: Seq<Seq<char>>) -> Step<ObjState> {
    let (names, r) = spec_parse_groups(ts);
    match r {
        Parsed::Done(cnt, n) => Parsed::Done(
            if st.groups.len() == 0 {
                ObjState { groups: st.groups + names, max_group_index: (st.max_group_index + cnt) as usize, ..st }
            } else {
                ObjState {
                    group_entry_table: st.group_entry_table.push(
                        (
                            (st.min_element_group_index, st.max_element_group_index),
                            (st.min_group_index, st.max_group_index),
                        ),
                    ),
                    groups: st.groups + names,
                    min_group_index: st.max_group_index,
                    max_group_index: (st.max_group_index + cnt) as usize,
                    min_element_group_index: st.max_element_group_index,
                    ..st
                }
            },
            n,
        ),
        other => other.fail_as(),
    }
}

/// An `s` statement: the current smoothing group's range is closed, unless
/// there is none yet.
pub open spec fn smoothing_statement(st: ObjState, ts: Seq<Seq<char>>) -> Step<ObjState> {
    let (numbers, r) = spec_parse_smoothing_group(ts);
    match r {
        Parsed::Done(_, n) => Parsed::Done(
            if st.smoothing_groups.len() == 0 {
                ObjState { smoothing_groups: st.smoothing_groups + numbers, smoothing_group_index: 0, ..st }
            } else {
                ObjState {
                    smoothing_group_entry_table: st.smoothing_group_entry_table.push(
                        (
                            (st.min_element_smoothing_group_index, st.max_element_smoothing_group_index),
                            st.smoothing_group_index,
                        ),
                    ),
                    smoothing_groups: st.smoothing_groups + numbers,
                    smoothing_group_index: (st.smoothing_group_index + 1) as usize,
                    min_element_smoothing_group_index: st.max_element_smoothing_group_index,
                    ..st
                }
            },
            n,
        ),
        other => other.fail_as(),
    }
}

/// A `usemtl` statement: the current material's range is closed, unless it
/// is empty.
pub open spec fn material_statement(st: ObjState, ts: Seq<Seq<char>>) -> Step<ObjState> {
    let (names, r) = spec_parse_material_name(ts);
    match r {
        Parsed::Done(_, n) => Parsed::Done(
            ObjState {
                material_name_entry_table: if st.min_element_material_name_index
                    == st.max_element_material_name_index {
                    st.material_name_entry_table
                } else {
                    st.material_name_entry_table.push(
                        (
                            (st.min_element_material_name_index, st.max_element_material_name_index),
                            st.material_name_index,
                        ),
                    )
                },
                material_names: st.material_names + names,
                material_name_index: if st.material_names.len() == 0 {
                    st.material_name_index
                } else {
                    (st.material_name_index + 1) as usize
                },
                min_element_material_name_index: st.max_element_material_name_index,
                ..st
            },
            n,
        ),
        other => other.fail_as(),
    }
}

/// A `p`, `l` or `f` statement: its elements join the current group,
/// smoothing group and material.
pub open spec fn element_statement(st: ObjState, ts: Seq<Seq<char>>) -> Step<ObjState> {
    let st1 = prepared_for_elements(st);
    let (elements, r) = spec_parse_elements(ts);
    match r {
        Parsed::Done(cnt, n) => Parsed::Done(
            ObjState {
                elements: st1.elements + elements,
                max_element_group_index: (st1.max_element_group_index + cnt) as usize,
                max_element_smoothing_group_index: (st1.max_element_smoothing_group_index + cnt) as usize,
                max_element_material_name_index: (st1.max_element_material_name_index + cnt) as usize,
                ..st1
            },
            n,
        ),
        other => other.fail_as(),
    }
}

/// One statement of an object's body, which starts `ts`.
pub open spec fn object_statement(st: ObjState, ts: Seq<Seq<char>>) -> Step<ObjState> {
    let t = ts[0];
    if t == "g"@ {
        group_statement(st, ts)
    } else if t == "s"@ {
        smoothing_statement(st, ts)
    } else if t == "usemtl"@ {
        material_statement(st, ts)
    } else if t == "v"@ {
        match spec_parse_vertex(ts) {
            Parsed::Done(v, n) => Parsed::Done(ObjState { vertices: st.vertices.push(v), ..st }, n),
            other => other.fail_as(),
        }
    } else if t == "vt"@ {
        match spec_parse_texture_vertex(ts) {
            Parsed::Done(v, n) => Parsed::Done(ObjState { texture_vertices: st.texture_vertices.push(v), ..st }, n),
            other => other.fail_as(),
        }
    } else if t == "vn"@ {
        match spec_parse_normal_vertex(ts) {
            Parsed::Done(v, n) => Parsed::Done(ObjState { normal_vertices: st.normal_vertices.push(v), ..st }, n),
            other => other.fail_as(),
        }
    } else if t == "p"@ || t == "l"@ || t == "f"@ {
        element_statement(st, ts)
    } else if t == "\n"@ {
        match spec_skip_one_or_more_newlines(ts) {
            Parsed::Done(_, n) => Parsed::Done(st, n),
            other => other.fail_as(),
        }
    } else {
        Parsed::Fail(ErrorKind::InvalidElementDeclaration, invalid_statement_message(t), 0)
    }
}

/// At the end of the object, the open ranges are closed.
pub open spec fn finished(st: ObjState) -> ObjState {
    ObjState {
        group_entry_table: st.group_entry_table.push(
            ((st.min_element_group_index, st.max_element_group_index), (st.min_group_index, st.max_group_index)),
        ),
        min_element_group_index: st.max_element_group_index,
        smoothing_group_entry_table: st.smoothing_group_entry_table.push(
            (
                (st.min_element_smoothing_group_index, st.max_element_smoothing_group_index),
                st.smoothing_group_index,
            ),
        ),
        min_element_smoothing_group_index: st.max_element_smoothing_group_index,
        material_name_entry_table: st.material_name_entry_table.push(
            (
                (st.min_element_material_name_index, st.max_element_material_name_index),
                st.material_name_index,
            ),
        ),
        min_element_material_name_index: st.max_element_material_name_index,
        ..st
    }
}

/// The statements of an object's body, up to the next `o` statement or the
/// end of the input.
pub open spec fn object_loop(st: ObjState, ts: Seq<Seq<char>>) -> Step<ObjState>
    decreases ts.len(),
{
    if ts.len() == 0 || ts[0] == "o"@ {
        Parsed::Done(finished(st), 0)
    } else {
        match object_statement(st, ts) {
            Parsed::Done(st2, n) => if 0 < n <= ts.len() {
                object_loop(st2, ts.skip(n as int)).after(n)
            } else {
                Parsed::Abort
            },
            other => other,
        }
    }
}

/// One statement of an object's body, and the rest after it.
pub proof fn lemma_object_loop_step(st: ObjState, ts: Seq<Seq<char>>)
    requires
        ts.len() > 0,
        ts[0] != "o"@,
    ensures
        match object_statement(st, ts) {
            Parsed::Done(st2, m) => 0 < m <= ts.len() ==> object_loop(st, ts) == object_loop(
                st2,
                ts.skip(m as int),
            ).after(m),
            _ => object_loop(st, ts) == object_statement(st, ts),
        },
{
}

/// The indices `lo` up to `hi`.
pub open spec fn range_seq(lo: usize, hi: usize) -> Seq<usize> {
    Seq::new(if lo <= hi { (hi - lo) as nat } else { 0 }, |j: int| (lo + j) as usize)
}

/// The shape entries the group table describes, with smoothing group 0.
pub open spec fn group_rows(t: Seq<((usize, usize), (usize, usize))>) -> Seq<ShapeEntryModel>
    decreases t.len(),
{
    if t.len() == 0 {
        Seq::empty()
    } else {
        let e = t.last();
        group_rows(t.drop_last()) + range_seq(e.0.0, e.0.1).map_values(
            |i: usize| ShapeEntryModel { element: i, groups: range_seq(e.1.0, e.1.1), smoothing_group: 0 },
        )
    }
}

/// The shape entries with the smoothing group of each range of the
/// smoothing group table written in, in order.
pub open spec fn apply_smoothing(rows: Seq<ShapeEntryModel>, t: Seq<((usize, usize), usize)>) -> Seq<
    ShapeEntryModel,
>
    decreases t.len(),
{
    if t.len() == 0 {
        rows
    } else {
        let r = apply_smoothing(rows, t.drop_last());
        let e = t.last();
        Seq::new(
            r.len(),
            |i: int|
                if e.0.0 <= i < e.0.1 {
                    ShapeEntryModel { smoothing_group: e.1, ..r[i] }
                } else {
                    r[i]
                },
        )
    }
}

/// The geometries the material table describes; a geometry of an object
/// without material names has none.
pub open spec fn geometry_rows(t: Seq<((usize, usize), usize)>, names: Seq<Option<Seq<char>>>) -> Seq<
    GeometryModel,
> {
    Seq::new(
        t.len(),
        |k: int|
            GeometryModel {
                material_name: if t[k].1 < names.len() {
                    names[t[k].1 as int]
                } else {
                    None
                },
                shapes: range_seq(t[k].0.0, t[k].0.1),
            },
    )
}

/// An object: its name and its data.
pub struct ObjectModel {
    pub name: Seq<char>,
    pub vertex_set: Seq<VertexModel>,
    pub texture_vertex_set: Seq<TextureVertexModel>,
    pub normal_vertex_set: Seq<NormalVertexModel>,
    pub group_set: Seq<Seq<char>>,
    pub smoothing_group_set: Seq<usize>,
    pub element_set: Seq<Element>,
    pub shape_set: Seq<ShapeEntryModel>,
    pub geometry_set: Seq<GeometryModel>,
}

/// The object that the parser's final state describes.
pub open spec fn object_of(name: Seq<char>, st: ObjState) -> ObjectModel {
    ObjectModel {
        name: name,
        vertex_set: st.vertices,
        texture_vertex_set: st.texture_vertices,
        normal_vertex_set: st.normal_vertices,
        group_set: st.groups,
        smoothing_group_set: st.smoothing_groups,
        element_set: st.elements,
        shape_set: apply_smoothing(group_rows(st.group_entry_table), st.smoothing_group_entry_table),
        geometry_set: geometry_rows(st.material_name_entry_table, st.material_names),
    }
}

/// The shape indices of the geometries, one geometry after the other.
pub open spec fn geometry_shapes(gs: Seq<GeometryModel>) -> Seq<usize>
    decreases gs.len(),
{
    if gs.len() == 0 {
        Seq::empty()
    } else {
        geometry_shapes(gs.drop_last()) + gs.last().shapes
    }
}

/// What holds of every object the parser builds: there is one shape entry
/// per element, in order; each names at least one group, existing groups
/// and an existing smoothing group; and the geometries cover the elements
/// in order, each element exactly once.
pub open spec fn object_wf(o: ObjectModel) -> bool {
    let e = o.element_set.len();
    &&& o.shape_set.len() == e
    &&& forall|i: int| 0 <= i < e ==> (#[trigger] o.shape_set[i]).element == i
    &&& forall|i: int, j: int|
        0 <= i < e && 0 <= j < o.shape_set[i].groups.len() ==> (#[trigger] o.shape_set[i].groups[j])
            < o.group_set.len()
    &&& forall|i: int| 0 <= i < e ==> (#[trigger] o.shape_set[i]).smoothing_group < o.smoothing_group_set.len()
    &&& forall|i: int| 0 <= i < e ==> increasing((#[trigger] o.shape_set[i]).groups)
    &&& forall|i: int| 0 <= i < e ==> (#[trigger] o.shape_set[i]).groups.len() > 0
    &&& geometry_shapes(o.geometry_set) == range_seq(0, e as usize)
}

/// The numbers strictly increase.
pub open spec fn increasing(s: Seq<usize>) -> bool {
    forall|j: int, k: int| 0 <= j < k < s.len() ==> s[j] < s[k]
}

/// The group lists of the shape entries a group table describes strictly
/// increase.
pub proof fn lemma_group_rows_increasing(t: Seq<((usize, usize), (usize, usize))>)
    ensures
        forall|i: int| 0 <= i < group_rows(t).len() ==> increasing((#[trigger] group_rows(t)[i]).groups),
    decreases t.len(),
{
    if t.len() > 0 {
        let front = t.drop_last();
        lemma_group_rows_increasing(front);
        let e = t.last();
        let tail = range_seq(e.0.0, e.0.1).map_values(
            |i: usize| ShapeEntryModel { element: i, groups: range_seq(e.1.0, e.1.1), smoothing_group: 0 },
        );
        assert(group_rows(t) == group_rows(front) + tail);
        assert(increasing(range_seq(e.1.0, e.1.1)));
        assert forall|i: int| 0 <= i < group_rows(t).len() implies increasing((#[trigger] group_rows(t)[i]).groups) by {
            if i >= group_rows(front).len() {
                assert(group_rows(t)[i] == tail[i - group_rows(front).len()]);
            } else {
                assert(group_rows(t)[i] == group_rows(front)[i]);
            }
        }
    }
}

/// Every object of the set is well formed.
pub open spec fn object_set_wf(s: ObjectSetModel) -> bool {
    forall|i: int| 0 <= i < s.objects.len() ==> object_wf(#[trigger] s.objects[i])
}

/// The shape entries of a group table whose element ranges chain up to
/// `end`: one per element, in order, naming groups below `gmax`.
pub proof fn lemma_group_rows(t: Seq<((usize, usize), (usize, usize))>, end: nat, gmax: nat)
    requires
        chained(element_ranges(t), end),
        forall|k: int| 0 <= k < t.len() ==> (#[trigger] t[k]).1.0 <= t[k].1.1 <= gmax,
    ensures
        group_rows(t).len() == end,
        forall|i: int| 0 <= i < end ==> (#[trigger] group_rows(t)[i]).element == i,
        forall|i: int| 0 <= i < end ==> (#[trigger] group_rows(t)[i]).smoothing_group == 0,
        forall|i: int, j: int|
            0 <= i < end && 0 <= j < group_rows(t)[i].groups.len() ==> (#[trigger] group_rows(t)[i].groups[j])
                < gmax,
    decreases t.len(),
{
    if t.len() > 0 {
        let front = t.drop_last();
        let mid = t.last().0.0;
        let r = element_ranges(t);
        let rf = element_ranges(front);
        assert(rf =~= r.drop_last());
        assert(chained(rf, mid as nat)) by {
            assert forall|j: int, k: int| 0 <= j && k == j + 1 && k < rf.len() implies (#[trigger] rf[j]).1 == (
            #[trigger] rf[k]).0 by {
                assert(rf[j] == r[j]);
                assert(rf[k] == r[k]);
            }
            if rf.len() > 0 {
                assert(rf.last() == r[r.len() - 2]);
            }
            assert(r[r.len() - 1] == t.last().0);
        }
        assert forall|k: int| 0 <= k < front.len() implies (#[trigger] front[k]).1.0 <= front[k].1.1 <= gmax by {
            assert(front[k] == t[k]);
        }
        lemma_group_rows(front, mid as nat, gmax);
        assert(r.last() == t.last().0);
        let e = t.last();
        let tail = range_seq(e.0.0, e.0.1).map_values(
            |i: usize| ShapeEntryModel { element: i, groups: range_seq(e.1.0, e.1.1), smoothing_group: 0 },
        );
        assert(group_rows(t) == group_rows(front) + tail);
        assert forall|i: int| 0 <= i < end implies (#[trigger] group_rows(t)[i]).element == i
            && group_rows(t)[i].smoothing_group == 0 && forall|j: int|
            0 <= j < group_rows(t)[i].groups.len() ==> (#[trigger] group_rows(t)[i].groups[j]) < gmax by {
            if i >= mid {
                assert(group_rows(t)[i] == tail[i - mid]);
            } else {
                assert(group_rows(t)[i] == group_rows(front)[i]);
            }
        }
    }
}

/// Writing smoothing groups below `bound` into shape entries keeps their
/// elements and groups, and keeps their smoothing groups below `bound`.
pub proof fn lemma_apply_smoothing(rows: Seq<ShapeEntryModel>, t: Seq<((usize, usize), usize)>, bound: nat)
    requires
        forall|k: int| 0 <= k < t.len() ==> (#[trigger] t[k]).1 < bound,
        forall|i: int| 0 <= i < rows.len() ==> (#[trigger] rows[i]).smoothing_group < bound,
    ensures
        apply_smoothing(rows, t).len() == rows.len(),
        forall|i: int|
            0 <= i < rows.len() ==> (#[trigger] apply_smoothing(rows, t)[i]).element == rows[i].element
                && apply_smoothing(rows, t)[i].groups == rows[i].groups && apply_smoothing(
                rows,
                t,
            )[i].smoothing_group < bound,
    decreases t.len(),
{
    if t.len() > 0 {
        let front = t.drop_last();
        assert forall|k: int| 0 <= k < front.len() implies (#[trigger] front[k]).1 < bound by {
            assert(front[k] == t[k]);
        }
        lemma_apply_smoothing(rows, front, bound);
    }
}

/// The geometries of a material table whose element ranges chain up to
/// `end` cover `0..end` in order.
pub proof fn lemma_geometry_shapes(t: Seq<((usize, usize), usize)>, names: Seq<Option<Seq<char>>>, end: usize)
    requires
        chained(element_ranges(t), end as nat),
    ensures
        geometry_shapes(geometry_rows(t, names)) == range_seq(0, end),
    decreases t.len(),
{
    let g = geometry_rows(t, names);
    if t.len() == 0 {
        assert(range_seq(0, end) =~= Seq::<usize>::empty());
    } else {
        let front = t.drop_last();
        let mid = t.last().0.0;
        let r = element_ranges(t);
        let rf = element_ranges(front);
        assert(rf =~= r.drop_last());
        assert(chained(rf, mid as nat)) by {
            assert forall|j: int, k: int| 0 <= j && k == j + 1 && k < rf.len() implies (#[trigger] rf[j]).1 == (
            #[trigger] rf[k]).0 by {
                assert(rf[j] == r[j]);
                assert(rf[k] == r[k]);
            }
            if rf.len() > 0 {
                assert(rf.last() == r[r.len() - 2]);
            }
            assert(r[r.len() - 1] == t.last().0);
        }
        lemma_geometry_shapes(front, names, mid);
        assert(g.drop_last() =~= geometry_rows(front, names));
        assert(r.last() == t.last().0);
        assert(range_seq(0, mid) + range_seq(mid, end) =~= range_seq(0, end));
    }
}

/// The object the final state of a parse describes is well formed.
/// The shape entries of a group table each of whose nonempty element ranges
/// has a nonempty range of groups each name a group.
pub proof fn lemma_group_rows_grouped(t: Seq<((usize, usize), (usize, usize))>)
    requires
        forall|k: int| 0 <= k < t.len() && (#[trigger] t[k]).0.0 < t[k].0.1 ==> t[k].1.0 < t[k].1.1,
    ensures
        forall|i: int| 0 <= i < group_rows(t).len() ==> (#[trigger] group_rows(t)[i]).groups.len() > 0,
    decreases t.len(),
{
    if t.len() > 0 {
        let front = t.drop_last();
        assert forall|k: int| 0 <= k < front.len() && (#[trigger] front[k]).0.0 < front[k].0.1 implies front[k].1.0
            < front[k].1.1 by {
            assert(front[k] == t[k]);
        }
        lemma_group_rows_grouped(front);
        let e = t.last();
        assert(e == t[t.len() - 1]);
        let tail = range_seq(e.0.0, e.0.1).map_values(
            |i: usize| ShapeEntryModel { element: i, groups: range_seq(e.1.0, e.1.1), smoothing_group: 0 },
        );
        assert(group_rows(t) == group_rows(front) + tail);
        assert forall|i: int| 0 <= i < group_rows(t).len() implies (#[trigger] group_rows(t)[i]).groups.len()
            > 0 by {
            if i >= group_rows(front).len() {
                assert(group_rows(t)[i] == tail[i - group_rows(front).len()]);
            } else {
                assert(group_rows(t)[i] == group_rows(front)[i]);
            }
        }
    }
}

pub proof fn lemma_object_of_wf(name: Seq<char>, st: ObjState)
    requires
        finished_wf(st),
    ensures
        object_wf(object_of(name, st)),
{
    let e = st.elements.len();
    lemma_group_rows(st.group_entry_table, e, st.groups.len());
    lemma_group_rows_increasing(st.group_entry_table);
    lemma_group_rows_grouped(st.group_entry_table);
    let rows = group_rows(st.group_entry_table);
    if e > 0 {
        lemma_apply_smoothing(rows, st.smoothing_group_entry_table, st.smoothing_groups.len());
    } else {
        lemma_apply_smoothing(rows, Seq::empty(), 0);
        assert(apply_smoothing(rows, Seq::empty()) == rows);
        assert(apply_smoothing(rows, st.smoothing_group_entry_table).len() == 0) by {
            lemma_apply_smoothing_len(rows, st.smoothing_group_entry_table);
        }
    }
    lemma_geometry_shapes(st.material_name_entry_table, st.material_names, e as usize);
}

pub proof fn lemma_apply_smoothing_len(rows: Seq<ShapeEntryModel>, t: Seq<((usize, usize), usize)>)
    ensures
        apply_smoothing(rows, t).len() == rows.len(),
    decreases t.len(),
{
    if t.len() > 0 {
        lemma_apply_smoothing_len(rows, t.drop_last());
    }
}

/// The numbers of vertices, texture vertices and normals that the objects
/// before an object hold.
pub type Offsets = (usize, usize, usize);

/// An index of the file, counted from the start of the file, as an index
/// into the sets of the object whose earlier objects hold `off`; `None` where
/// it refers to data of an earlier object.
pub open spec fn rebase_index(i: VTNIndex, off: Offsets) -> Option<VTNIndex> {
    match i {
        VTNIndex::V(v) => if v >= off.0 {
            Some(VTNIndex::V((v - off.0) as usize))
        } else {
            None
        },
        VTNIndex::VT(v, t) => if v >= off.0 && t >= off.1 {
            Some(VTNIndex::VT((v - off.0) as usize, (t - off.1) as usize))
        } else {
            None
        },
        VTNIndex::VN(v, n) => if v >= off.0 && n >= off.2 {
            Some(VTNIndex::VN((v - off.0) as usize, (n - off.2) as usize))
        } else {
            None
        },
        VTNIndex::VTN(v, t, n) => if v >= off.0 && t >= off.1 && n >= off.2 {
            Some(VTNIndex::VTN((v - off.0) as usize, (t - off.1) as usize, (n - off.2) as usize))
        } else {
            None
        },
    }
}

pub open spec fn rebase_element(e: Element, off: Offsets) -> Option<Element> {
    match e {
        Element::Point(a) => match rebase_index(a, off) {
            Some(a2) => Some(Element::Point(a2)),
            None => None,
        },
        Element::Line(a, b) => match (rebase_index(a, off), rebase_index(b, off)) {
            (Some(a2), Some(b2)) => Some(Element::Line(a2, b2)),
            _ => None,
        },
        Element::Face(a, b, c) => match (rebase_index(a, off), rebase_index(b, off), rebase_index(c, off)) {
            (Some(a2), Some(b2), Some(c2)) => Some(Element::Face(a2, b2, c2)),
            _ => None,
        },
    }
}

/// The elements with their indices taken within the object; `None` where
/// one refers to data of an earlier object.
pub open spec fn rebase_elements(es: Seq<Element>, off: Offsets) -> Option<Seq<Element>> {
    if forall|i: int| 0 <= i < es.len() ==> (#[trigger] rebase_element(es[i], off)) is Some {
        Some(es.map_values(|e: Element| rebase_element(e, off)->0))
    } else {
        None
    }
}

pub open spec fn foreign_index_message() -> Seq<char> {
    "A vertex/texture/normal index refers to the data of an earlier object."@
}

/// The object that a finished parse state describes, with the elements `es`.
pub open spec fn object_with_elements(name: Seq<char>, st: ObjState, es: Seq<Element>) -> ObjectModel {
    ObjectModel { element_set: es, ..object_of(name, st) }
}

/// An object: an optional `o` statement, then the body. Its indices count
/// within the object: those of the file, less the data of the objects
/// before, which hold `off`.
pub open spec fn spec_parse_object(ts: Seq<Seq<char>>, off: Offsets) -> Step<ObjectModel> {
    let name = spec_parse_object_name(ts);
    match name {
        Parsed::Done(object_name, n) => match object_loop(initial_state(), ts.skip(n as int)) {
            Parsed::Done(st, m) => match rebase_elements(st.elements, off) {
                Some(es) => Parsed::Done(object_with_elements(object_name, st, es), n + m),
                None => Parsed::Fail(ErrorKind::ExpectedVTNIndex, foreign_index_message(), n + m),
            },
            other => other.after(n).fail_as(),
        },
        other => other.fail_as(),
    }
}

/// The offsets of the object after `o`; `None` where they pass `usize::MAX`.
pub open spec fn next_offsets(off: Offsets, o: ObjectModel) -> Option<Offsets> {
    let a = off.0 + o.vertex_set.len();
    let b = off.1 + o.texture_vertex_set.len();
    let c = off.2 + o.normal_vertex_set.len();
    if a <= usize::MAX && b <= usize::MAX && c <= usize::MAX {
        Some((a as usize, b as usize, c as usize))
    } else {
        None
    }
}

/// The objects at the front of `ts`, which starts with no line feed, the
/// objects before them holding `off`.
pub open spec fn spec_objects(ts: Seq<Seq<char>>, off: Offsets) -> Step<Seq<ObjectModel>>
    decreases ts.len(),
{
    if ts.len() == 0 {
        Parsed::Done(Seq::empty(), 0)
    } else {
        match spec_parse_object(ts, off) {
            Parsed::Done(o, n) => if 0 < n <= ts.len() {
                match next_offsets(off, o) {
                    Some(off2) => {
                        let k = leading_newlines(ts.skip(n as int));
                        proof {
                            lemma_leading_newlines_bound(ts.skip(n as int));
                        }
                        match spec_objects(ts.skip((n + k) as int), off2) {
                            Parsed::Done(os, m) => Parsed::Done(seq![o] + os, n + k + m),
                            other => other.after(n + k),
                        }
                    },
                    None => Parsed::Abort,
                }
            } else {
                Parsed::Abort
            },
            other => other.fail_as(),
        }
    }
}

pub open spec fn spec_parse_objects(ts: Seq<Seq<char>>) -> Step<Seq<ObjectModel>> {
    let k = leading_newlines(ts);
    spec_objects(ts.skip(k as int), (0, 0, 0)).after(k)
}

/// One object, and the objects after it.
pub proof fn lemma_objects_step(ts: Seq<Seq<char>>, off: Offsets)
    requires
        ts.len() > 0,
    ensures
        match spec_parse_object(ts, off) {
            Parsed::Done(o, c) => 0 < c <= ts.len() ==> spec_objects(ts, off) == match next_offsets(off, o) {
                Some(off2) => match spec_objects(ts.skip((c + leading_newlines(ts.skip(c as int))) as int), off2) {
                    Parsed::Done(os, m) => Parsed::Done(seq![o] + os, c + leading_newlines(ts.skip(c as int)) + m),
                    other => other.after(c + leading_newlines(ts.skip(c as int))),
                },
                None => Parsed::Abort,
            },
            other => spec_objects(ts, off) == other.fail_as::<Seq<ObjectModel>>(),
        },
{
}

/// The outcome `p` of parsing the rest, after `n` tokens that gave the
/// objects `prefix`.
pub open spec fn prefixed(prefix: Seq<ObjectModel>, p: Step<Seq<ObjectModel>>, n: nat) -> Step<Seq<ObjectModel>> {
    match p {
        Parsed::Done(os, m) => Parsed::Done(prefix + os, n + m),
        other => other.after(n),
    }
}

pub proof fn lemma_prefixed_empty(p: Step<Seq<ObjectModel>>, n: nat)
    ensures
        prefixed(Seq::empty(), p, n) == p.after(n),
{
    if let Parsed::Done(os, m) = p {
        assert(Seq::<ObjectModel>::empty() + os =~= os);
    }
}

pub proof fn lemma_prefixed_push(prefix: Seq<ObjectModel>, o: ObjectModel, p: Step<Seq<ObjectModel>>, n: nat, c: nat)
    ensures
        prefixed(prefix, match p {
            Parsed::Done(os, m) => Parsed::Done(seq![o] + os, c + m),
            other => other.after(c),
        }, n) == prefixed(prefix.push(o), p, n + c),
{
    if let Parsed::Done(os, m) = p {
        assert(prefix + (seq![o] + os) =~= prefix.push(o) + os);
    }
}

/// A whole file: its material libraries and its objects.
pub struct ObjectSetModel {
    pub material_libraries: Seq<Seq<char>>,
    pub objects: Seq<ObjectModel>,
}

pub open spec fn spec_parse_objset(ts: Seq<Seq<char>>) -> Step<ObjectSetModel> {
    match spec_parse_material_libraries(ts) {
        Parsed::Done(libraries, n) => match spec_parse_objects(ts.skip(n as int)) {
            Parsed::Done(objects, m) => Parsed::Done(
                ObjectSetModel { material_libraries: libraries, objects: objects },
                n + m,
            ),
            other => other.after(n).fail_as(),
        },
        other => other.fail_as(),
    }
}


/// The element ranges of a table.
pub open spec fn element_ranges<T>(t: Seq<((usize, usize), T)>) -> Seq<(usize, usize)> {
    t.map_values(|e: ((usize, usize), T)| e.0)
}

/// The ranges follow one another from 0 up to `end`, none running
/// backwards.
pub open spec fn chained(ranges: Seq<(usize, usize)>, end: nat) -> bool {
    &&& forall|k: int| 0 <= k < ranges.len() ==> (#[trigger] ranges[k]).0 <= ranges[k].1
    &&& forall|j: int, k: int|
        0 <= j && k == j + 1 && k < ranges.len() ==> (#[trigger] ranges[j]).1 == (#[trigger] ranges[k]).0
    &&& ranges.len() == 0 ==> end == 0
    &&& ranges.len() > 0 ==> ranges[0].0 == 0 && ranges.last().1 == end
}

/// What holds of the state of an object's parse between two statements.
/// Once an object has groups, the open range of group numbers and every
/// recorded one are nonempty.
pub open spec fn groups_named(st: ObjState) -> bool {
    &&& st.groups.len() > 0 ==> st.min_group_index < st.max_group_index
    &&& forall|k: int|
        0 <= k < st.group_entry_table.len() ==> (#[trigger] st.group_entry_table[k]).1.0
            < st.group_entry_table[k].1.1
}

pub open spec fn state_wf(st: ObjState) -> bool {
    let e = st.elements.len();
    &&& groups_named(st)
    &&& st.max_element_group_index == e
    &&& st.max_element_smoothing_group_index == e
    &&& st.max_element_material_name_index == e
    &&& st.max_group_index == st.groups.len()
    &&& st.min_group_index <= st.max_group_index
    &&& st.min_element_group_index <= e
    &&& chained(element_ranges(st.group_entry_table), st.min_element_group_index as nat)
    &&& forall|k: int|
        0 <= k < st.group_entry_table.len() ==> (#[trigger] st.group_entry_table[k]).1.0
            <= st.group_entry_table[k].1.1 <= st.min_group_index
    &&& st.groups.len() == 0 ==> e == 0 && st.group_entry_table.len() == 0
    &&& st.min_element_smoothing_group_index <= e
    &&& chained(element_ranges(st.smoothing_group_entry_table), st.min_element_smoothing_group_index as nat)
    &&& forall|k: int|
        0 <= k < st.smoothing_group_entry_table.len() ==> (#[trigger] st.smoothing_group_entry_table[k]).1
            < st.smoothing_groups.len()
    &&& st.smoothing_groups.len() == 0 ==> e == 0 && st.smoothing_group_entry_table.len() == 0
    &&& st.smoothing_groups.len() > 0 ==> st.smoothing_group_index == st.smoothing_groups.len() - 1
    &&& st.min_element_material_name_index <= e
    &&& chained(element_ranges(st.material_name_entry_table), st.min_element_material_name_index as nat)
    &&& forall|k: int|
        0 <= k < st.material_name_entry_table.len() ==> (#[trigger] st.material_name_entry_table[k]).1
            < st.material_names.len()
    &&& st.material_names.len() == 0 ==> e == 0 && st.material_name_entry_table.len() == 0
        && st.material_name_index == 0
    &&& st.material_names.len() > 0 ==> st.material_name_index == st.material_names.len() - 1
}

/// What holds of the state once the object's last statement is read: the
/// three tables each cover all the elements.
pub open spec fn finished_wf(st: ObjState) -> bool {
    let e = st.elements.len();
    &&& forall|k: int|
        0 <= k < st.group_entry_table.len() && (#[trigger] st.group_entry_table[k]).0.0
            < st.group_entry_table[k].0.1 ==> st.group_entry_table[k].1.0 < st.group_entry_table[k].1.1
    &&& chained(element_ranges(st.group_entry_table), e)
    &&& forall|k: int|
        0 <= k < st.group_entry_table.len() ==> (#[trigger] st.group_entry_table[k]).1.0
            <= st.group_entry_table[k].1.1 <= st.groups.len()
    &&& chained(element_ranges(st.smoothing_group_entry_table), e)
    &&& forall|k: int|
        0 <= k < st.smoothing_group_entry_table.len() ==> (#[trigger] st.smoothing_group_entry_table[k]).1
            < st.smoothing_groups.len() || (e == 0 && st.smoothing_groups.len() == 0)
    &&& chained(element_ranges(st.material_name_entry_table), e)
    &&& forall|k: int|
        0 <= k < st.material_name_entry_table.len() ==> (#[trigger] st.material_name_entry_table[k]).1
            < st.material_names.len() || st.material_names.len() == 0
    &&& e > 0 ==> st.smoothing_groups.len() > 0 && st.material_names.len() > 0
}

pub proof fn lemma_element_ranges_push<T>(t: Seq<((usize, usize), T)>, x: ((usize, usize), T))
    ensures
        element_ranges(t.push(x)) == element_ranges(t).push(x.0),
{
    assert(element_ranges(t.push(x)) =~= element_ranges(t).push(x.0));
}

pub proof fn lemma_chained_push(ranges: Seq<(usize, usize)>, a: nat, b: usize)
    requires
        chained(ranges, a),
        a <= b,
    ensures
        chained(ranges.push((a as usize, b)), b as nat),
{
    let r2 = ranges.push((a as usize, b));
    assert forall|j: int, k: int| 0 <= j && k == j + 1 && k < r2.len() implies (#[trigger] r2[j]).1 == (
    #[trigger] r2[k]).0 by {
        if k == r2.len() - 1 {
            if ranges.len() > 0 {
                assert(r2[j] == ranges.last());
            }
        } else {
            assert(r2[j] == ranges[j]);
            assert(r2[k] == ranges[k]);
        }
    }
}

/// Every range of a chain lies in `0..end`.
pub proof fn lemma_chained_bounds(ranges: Seq<(usize, usize)>, end: nat)
    requires
        chained(ranges, end),
    ensures
        forall|k: int| 0 <= k < ranges.len() ==> (#[trigger] ranges[k]).1 <= end,
    decreases ranges.len(),
{
    if ranges.len() > 0 {
        let front = ranges.drop_last();
        let mid = ranges.last().0;
        assert(chained(front, mid as nat)) by {
            assert forall|j: int, k: int| 0 <= j && k == j + 1 && k < front.len() implies (
            #[trigger] front[j]).1 == (#[trigger] front[k]).0 by {
                assert(front[j] == ranges[j]);
                assert(front[k] == ranges[k]);
            }
            if front.len() > 0 {
                assert(front.last() == ranges[ranges.len() - 2]);
            }
        }
        lemma_chained_bounds(front, mid as nat);
        assert forall|k: int| 0 <= k < ranges.len() implies (#[trigger] ranges[k]).1 <= end by {
            if k < ranges.len() - 1 {
                assert(ranges[k] == front[k]);
            }
        }
    }
}

/// The data an index refers to.
#[derive(Clone, Debug)]
pub enum VTNTriple<'a> {
    V(&'a Vertex),
    VT(&'a Vertex, &'a TextureVertex),
    VN(&'a Vertex, &'a NormalVertex),
    VTN(&'a Vertex, &'a TextureVertex, &'a NormalVertex),
}

/// An object of an OBJ file: its vertex data, elements, groups, and the
/// shape and geometry tables over them.
#[derive(Clone, Debug, PartialEq)]
pub struct Object {
    pub name: String,
    pub vertex_set: Vec<Vertex>,
    pub texture_vertex_set: Vec<TextureVertex>,
    pub normal_vertex_set: Vec<NormalVertex>,
    pub group_set: Vec<Group>,
    pub smoothing_group_set: Vec<SmoothingGroup>,
    pub element_set: Vec<Element>,
    pub shape_set: Vec<ShapeEntry>,
    pub geometry_set: Vec<Geometry>,
}

impl View for Object {
    type V = ObjectModel;

    open spec fn view(&self) -> ObjectModel {
        ObjectModel {
            name: self.name@,
            vertex_set: vertex_views(self.vertex_set@),
            texture_vertex_set: texture_vertex_views(self.texture_vertex_set@),
            normal_vertex_set: normal_vertex_views(self.normal_vertex_set@),
            group_set: group_views(self.group_set@),
            smoothing_group_set: smoothing_views(self.smoothing_group_set@),
            element_set: self.element_set@,
            shape_set: shape_views(self.shape_set@),
            geometry_set: geometry_views(self.geometry_set@),
        }
    }
}

/// The data `index` refers to in an object's vertex sets, if they hold it.
pub open spec fn vtn_lookup(o: ObjectModel, index: VTNIndex) -> Option<
    (VertexModel, Option<TextureVertexModel>, Option<NormalVertexModel>),
> {
    match index {
        VTNIndex::V(v) => if v < o.vertex_set.len() {
            Some((o.vertex_set[v as int], None, None))
        } else {
            None
        },
        VTNIndex::VT(v, t) => if v < o.vertex_set.len() && t < o.texture_vertex_set.len() {
            Some((o.vertex_set[v as int], Some(o.texture_vertex_set[t as int]), None))
        } else {
            None
        },
        VTNIndex::VN(v, n) => if v < o.vertex_set.len() && n < o.normal_vertex_set.len() {
            Some((o.vertex_set[v as int], None, Some(o.normal_vertex_set[n as int])))
        } else {
            None
        },
        VTNIndex::VTN(v, t, n) => if v < o.vertex_set.len() && t < o.texture_vertex_set.len() && n
            < o.normal_vertex_set.len() {
            Some((o.vertex_set[v as int], Some(o.texture_vertex_set[t as int]), Some(o.normal_vertex_set[n as int])))
        } else {
            None
        },
    }
}

/// What a triple refers to, by value.
pub open spec fn triple_view(t: VTNTriple) -> (VertexModel, Option<TextureVertexModel>, Option<NormalVertexModel>) {
    match t {
        VTNTriple::V(v) => (v@, None, None),
        VTNTriple::VT(v, tx) => (v@, Some(tx@), None),
        VTNTriple::VN(v, n) => (v@, None, Some(n@)),
        VTNTriple::VTN(v, tx, n) => (v@, Some(tx@), Some(n@)),
    }
}

impl Object {
    pub fn new(
        name: String,
        vertex_set: Vec<Vertex>,
        texture_vertex_set: Vec<TextureVertex>,
        normal_vertex_set: Vec<NormalVertex>,
        group_set: Vec<Group>,
        smoothing_group_set: Vec<SmoothingGroup>,
        element_set: Vec<Element>,
        shape_set: Vec<ShapeEntry>,
        geometry_set: Vec<Geometry>,
    ) -> (o: Object)
        ensures
            o.name == name,
            o.vertex_set == vertex_set,
            o.texture_vertex_set == texture_vertex_set,
            o.normal_vertex_set == normal_vertex_set,
            o.group_set == group_set,
            o.smoothing_group_set == smoothing_group_set,
            o.element_set == element_set,
            o.shape_set == shape_set,
            o.geometry_set == geometry_set,
    {
        Object {
            name: name,
            vertex_set: vertex_set,
            texture_vertex_set: texture_vertex_set,
            normal_vertex_set: normal_vertex_set,
            group_set: group_set,
            smoothing_group_set: smoothing_group_set,
            element_set: element_set,
            shape_set: shape_set,
            geometry_set: geometry_set,
        }
    }

    pub fn name(&self) -> (s: &str)
        ensures
            s@ == self.name@,
    {
        self.name.as_str()
    }

    /// The vertex data `index` refers to; `None` where an index lies beyond
    /// the object's data.
    pub fn get_vtn_triple(&self, index: VTNIndex) -> (r: Option<VTNTriple>)
        ensures
            match vtn_lookup(self@, index) {
                Some(data) => r matches Some(t) && triple_view(t) == data,
                None => r is None,
            },
    {
        match index {
            VTNIndex::V(v) => {
                if v < self.vertex_set.len() {
                    Some(VTNTriple::V(&self.vertex_set[v]))
                } else {
                    None
                }
            },
            VTNIndex::VT(v, t) => {
                if v < self.vertex_set.len() && t < self.texture_vertex_set.len() {
                    Some(VTNTriple::VT(&self.vertex_set[v], &self.texture_vertex_set[t]))
                } else {
                    None
                }
            },
            VTNIndex::VN(v, n) => {
                if v < self.vertex_set.len() && n < self.normal_vertex_set.len() {
                    Some(VTNTriple::VN(&self.vertex_set[v], &self.normal_vertex_set[n]))
                } else {
                    None
                }
            },
            VTNIndex::VTN(v, t, n) => {
                if v < self.vertex_set.len() && t < self.texture_vertex_set.len() && n
                    < self.normal_vertex_set.len() {
                    Some(
                        VTNTriple::VTN(&self.vertex_set[v], &self.texture_vertex_set[t], &self.normal_vertex_set[n]),
                    )
                } else {
                    None
                }
            },
        }
    }
}

impl Default for Object {
    fn default() -> (o: Object)
        ensures
            o@.name.len() == 0,
            o.vertex_set@.len() == 0,
            o.texture_vertex_set@.len() == 0,
            o.normal_vertex_set@.len() == 0,
            o.group_set@.len() == 0,
            o.smoothing_group_set@.len() == 0,
            o.element_set@.len() == 0,
            o.shape_set@.len() == 0,
            o.geometry_set@.len() == 0,
    {
        Object::new(
            String::new(),
            Vec::new(),
            Vec::new(),
            Vec::new(),
            Vec::new(),
            Vec::new(),
            Vec::new(),
            Vec::new(),
            Vec::new(),
        )
    }
}

/// The material libraries and objects of an OBJ file.
#[derive(Clone, Debug, PartialEq)]
pub struct ObjectSet {
    pub material_libraries: Vec<String>,
    pub objects: Vec<Object>,
}

pub open spec fn object_views(os: Seq<Object>) -> Seq<ObjectModel> {
    os.map_values(|o: Object| o@)
}

impl View for ObjectSet {
    type V = ObjectSetModel;

    open spec fn view(&self) -> ObjectSetModel {
        ObjectSetModel {
            material_libraries: string_views(self.material_libraries@),
            objects: object_views(self.objects@),
        }
    }
}

impl ObjectSet {
    pub fn new(material_libraries: Vec<String>, objects: Vec<Object>) -> (s: ObjectSet)
        ensures
            s.material_libraries == material_libraries,
            s.objects == objects,
    {
        ObjectSet { material_libraries: material_libraries, objects: objects }
    }
}

/// Presents an object set to the user.
pub struct DisplayObjectSetCompositor {}

impl DisplayObjectSetCompositor {
    pub fn new() -> (c: Self) {
        DisplayObjectSetCompositor {  }
    }
}

/// Why an internal parsing step produced no value.
enum Stop {
    Invalid(ParseError),
    Undefined,
}

/// `reports`, for steps that may reach the inputs on which the parser is
/// not defined.
spec fn reports_stop<E: View>(
    r: Result<E, Stop>,
    p: Step<E::V>,
    ts: Seq<Seq<char>>,
    line0: nat,
    ts1: Seq<Seq<char>>,
    line1: nat,
) -> bool {
    match p {
        Parsed::Done(v, n) => {
            &&& r matches Ok(e) && e@ == v
            &&& advanced(ts, line0, ts1, line1, n)
        },
        Parsed::Fail(k, m, n) => {
            &&& r matches Err(Stop::Invalid(e)) && e.error_kind() == k && e.text() == m && e.line() == line1
            &&& advanced(ts, line0, ts1, line1, n)
        },
        Parsed::Abort => r matches Err(Stop::Undefined),
    }
}

/// `reports_stop` for a step that appends to a vector: on success and on
/// failure the vector has grown by what the step prescribes.
spec fn reports_push<T>(
    r: Result<usize, Stop>,
    p: (Seq<T>, Step<usize>),
    before: Seq<T>,
    after: Seq<T>,
    ts: Seq<Seq<char>>,
    line0: nat,
    ts1: Seq<Seq<char>>,
    line1: nat,
) -> bool {
    &&& reports_stop(r, p.1, ts, line0, ts1, line1)
    &&& !(p.1 is Abort) ==> after == before + p.0
}

/// `reports` for a step that appends to a vector.
pub open spec fn reports_pushed<T>(
    r: Result<usize, ParseError>,
    p: (Seq<T>, Step<usize>),
    before: Seq<T>,
    after: Seq<T>,
    ts: Seq<Seq<char>>,
    line0: nat,
    ts1: Seq<Seq<char>>,
    line1: nat,
) -> bool {
    &&& reports(r, p.1, ts, line0, ts1, line1)
    &&& after == before + p.0
}

/// Splits a token at each `/`.
fn split_on_slash(t: &Vec<char>) -> (pieces: Vec<Vec<char>>)
    ensures
        token_views(pieces@) == split_slash(t@),
{
    let mut done: Vec<Vec<char>> = Vec::new();
    let mut current: Vec<char> = Vec::new();
    let mut i: usize = 0;
    assert(t@.take(0) =~= Seq::<char>::empty());
    assert(token_views(done@).push(current@) =~= split_slash(t@.take(0)));
    while i < t.len()
        invariant
            i <= t@.len(),
            token_views(done@).push(current@) == split_slash(t@.take(i as int)),
        decreases t@.len() - i,
    {
        let c = t[i];
        let ghost before = split_slash(t@.take(i as int));
        assert(t@.take(i + 1).drop_last() =~= t@.take(i as int));
        assert(t@.take(i + 1).last() == c);
        if c == '/' {
            done.push(current);
            current = Vec::new();
            assert(token_views(done@).push(current@) =~= before.push(Seq::empty()));
        } else {
            current.push(c);
            assert(token_views(done@).push(current@) =~= before.update(before.len() - 1, before.last().push(c)));
        }
        i = i + 1;
    }
    assert(t@.take(t@.len() as int) =~= t@);
    done.push(current);
    assert(token_views(done@) =~= split_slash(t@));
    done
}

/// The number in field `k` of a split token, if that field is a number.
fn field(pieces: &Vec<Vec<char>>, k: usize) -> (r: Option<usize>)
    ensures
        r == slash_field(token_views(pieces@), k as int),
{
    if k < pieces.len() && pieces[k].len() > 0 {
        parse_usize_token(&pieces[k])
    } else {
        None
    }
}

pub open spec fn vertex_views(vs: Seq<Vertex>) -> Seq<VertexModel> {
    vs.map_values(|v: Vertex| v@)
}

pub open spec fn texture_vertex_views(vs: Seq<TextureVertex>) -> Seq<TextureVertexModel> {
    vs.map_values(|v: TextureVertex| v@)
}

pub open spec fn normal_vertex_views(vs: Seq<NormalVertex>) -> Seq<NormalVertexModel> {
    vs.map_values(|v: NormalVertex| v@)
}

/// The state of an object's parse, as the parser keeps it.
struct ObjectTables {
    vertices: Vec<Vertex>,
    texture_vertices: Vec<TextureVertex>,
    normal_vertices: Vec<NormalVertex>,
    elements: Vec<Element>,
    group_entry_table: Vec<((usize, usize), (usize, usize))>,
    groups: Vec<Group>,
    min_element_group_index: usize,
    max_element_group_index: usize,
    min_group_index: usize,
    max_group_index: usize,
    smoothing_group_entry_table: Vec<((usize, usize), usize)>,
    smoothing_groups: Vec<SmoothingGroup>,
    min_element_smoothing_group_index: usize,
    max_element_smoothing_group_index: usize,
    smoothing_group_index: usize,
    material_name_entry_table: Vec<((usize, usize), usize)>,
    material_names: Vec<Option<Vec<char>>>,
    min_element_material_name_index: usize,
    max_element_material_name_index: usize,
    material_name_index: usize,
}

impl View for ObjectTables {
    type V = ObjState;

    closed spec fn view(&self) -> ObjState {
        ObjState {
            vertices: vertex_views(self.vertices@),
            texture_vertices: texture_vertex_views(self.texture_vertices@),
            normal_vertices: normal_vertex_views(self.normal_vertices@),
            elements: self.elements@,
            group_entry_table: self.group_entry_table@,
            groups: group_views(self.groups@),
            min_element_group_index: self.min_element_group_index,
            max_element_group_index: self.max_element_group_index,
            min_group_index: self.min_group_index,
            max_group_index: self.max_group_index,
            smoothing_group_entry_table: self.smoothing_group_entry_table@,
            smoothing_groups: smoothing_views(self.smoothing_groups@),
            min_element_smoothing_group_index: self.min_element_smoothing_group_index,
            max_element_smoothing_group_index: self.max_element_smoothing_group_index,
            smoothing_group_index: self.smoothing_group_index,
            material_name_entry_table: self.material_name_entry_table@,
            material_names: opt_token_views(self.material_names@),
            min_element_material_name_index: self.min_element_material_name_index,
            max_element_material_name_index: self.max_element_material_name_index,
            material_name_index: self.material_name_index,
        }
    }
}

impl ObjectTables {
    fn new() -> (t: ObjectTables)
        ensures
            t@ == initial_state(),
    {
        let t = ObjectTables {
            vertices: Vec::new(),
            texture_vertices: Vec::new(),
            normal_vertices: Vec::new(),
            elements: Vec::new(),
            group_entry_table: Vec::new(),
            groups: Vec::new(),
            min_element_group_index: 0,
            max_element_group_index: 0,
            min_group_index: 0,
            max_group_index: 0,
            smoothing_group_entry_table: Vec::new(),
            smoothing_groups: Vec::new(),
            min_element_smoothing_group_index: 0,
            max_element_smoothing_group_index: 0,
            smoothing_group_index: 0,
            material_name_entry_table: Vec::new(),
            material_names: Vec::new(),
            min_element_material_name_index: 0,
            max_element_material_name_index: 0,
            material_name_index: 0,
        };
        assert(vertex_views(t.vertices@) =~= Seq::empty());
        assert(texture_vertex_views(t.texture_vertices@) =~= Seq::empty());
        assert(normal_vertex_views(t.normal_vertices@) =~= Seq::empty());
        assert(group_views(t.groups@) =~= Seq::empty());
        assert(smoothing_views(t.smoothing_groups@) =~= Seq::empty());
        assert(opt_token_views(t.material_names@) =~= Seq::empty());
        assert(t@ =~= initial_state());
        t
    }

    /// Closes the open ranges at the end of the object.
    fn finish(&mut self)
        requires
            state_wf(old(self)@),
        ensures
            final(self)@ == finished(old(self)@),
            finished_wf(final(self)@),
    {
        let ghost st = self@;
        let entry = (
            (self.min_element_group_index, self.max_element_group_index),
            (self.min_group_index, self.max_group_index),
        );
        self.group_entry_table.push(entry);
        self.min_element_group_index = self.max_element_group_index;
        let entry = (
            (self.min_element_smoothing_group_index, self.max_element_smoothing_group_index),
            self.smoothing_group_index,
        );
        self.smoothing_group_entry_table.push(entry);
        self.min_element_smoothing_group_index = self.max_element_smoothing_group_index;
        let entry = (
            (self.min_element_material_name_index, self.max_element_material_name_index),
            self.material_name_index,
        );
        self.material_name_entry_table.push(entry);
        self.min_element_material_name_index = self.max_element_material_name_index;
        proof {
            let e = st.elements.len();
            lemma_element_ranges_push(st.group_entry_table, self.group_entry_table@.last());
            lemma_element_ranges_push(st.smoothing_group_entry_table, self.smoothing_group_entry_table@.last());
            lemma_element_ranges_push(st.material_name_entry_table, self.material_name_entry_table@.last());
            lemma_chained_push(element_ranges(st.group_entry_table), st.min_element_group_index as nat,
                st.max_element_group_index);
            lemma_chained_push(element_ranges(st.smoothing_group_entry_table),
                st.min_element_smoothing_group_index as nat, st.max_element_smoothing_group_index);
            lemma_chained_push(element_ranges(st.material_name_entry_table),
                st.min_element_material_name_index as nat, st.max_element_material_name_index);
            assert(self@ =~= finished(st));
            let t = self.group_entry_table@;
            assert forall|k: int| 0 <= k < t.len() implies (#[trigger] t[k]).1.0 <= t[k].1.1
                <= self@.groups.len() by {
                if k < t.len() - 1 {
                    assert(t[k] == st.group_entry_table[k]);
                }
            }
            let t = self.smoothing_group_entry_table@;
            assert forall|k: int| 0 <= k < t.len() implies (#[trigger] t[k]).1 < self@.smoothing_groups.len()
                || (e == 0 && self@.smoothing_groups.len() == 0) by {
                if k < t.len() - 1 {
                    assert(t[k] == st.smoothing_group_entry_table[k]);
                }
            }
            let t = self.material_name_entry_table@;
            assert forall|k: int| 0 <= k < t.len() implies (#[trigger] t[k]).1 < self@.material_names.len()
                || self@.material_names.len() == 0 by {
                if k < t.len() - 1 {
                    assert(t[k] == st.material_name_entry_table[k]);
                }
            }
        }
    }
}

/// A parser for the text of an OBJ file.
pub struct Parser {
    stream: TokenStream,
}

impl Parser {
    pub closed spec fn wf(&self) -> bool {
        self.stream.wf()
    }

    /// The tokens left to parse.
    pub closed spec fn tokens(&self) -> Seq<Seq<char>> {
        self.stream.tokens()
    }

    /// The line the parser stands on.
    pub closed spec fn line(&self) -> nat {
        self.stream.line()
    }

    pub fn new(input: &str) -> (p: Parser)
        requires
            input@.len() < usize::MAX - 1,
        ensures
            p.wf(),
            p.tokens() == tokenize(input@),
            p.line() == 1,
    {
        Parser { stream: TokenStream::new(input) }
    }

    fn peek(&mut self) -> (token: Option<Vec<char>>)
        requires
            old(self).wf(),
        ensures
            final(self).wf(),
            final(self).tokens() == old(self).tokens(),
            final(self).line() == old(self).line(),
            token matches Some(t) ==> old(self).tokens().len() > 0 && t@ == old(self).tokens()[0],
            token is None ==> old(self).tokens().len() == 0,
    {
        self.stream.peek()
    }

    /// Whether the next token is `tag`.
    fn peek_is(&mut self, tag: &str) -> (b: bool)
        requires
            old(self).wf(),
        ensures
            final(self).wf(),
            final(self).tokens() == old(self).tokens(),
            final(self).line() == old(self).line(),
            b == (old(self).tokens().len() > 0 && old(self).tokens()[0] == tag@),
    {
        match self.peek() {
            Some(t) => token_is(&t, tag),
            None => false,
        }
    }

    /// Consumes and returns the next token.
    pub fn next(&mut self) -> (token: Option<Vec<char>>)
        requires
            old(self).wf(),
        ensures
            final(self).wf(),
            old(self).tokens().len() > 0 ==> (token matches Some(t) && t@ == old(self).tokens()[0])
                && advanced(old(self).tokens(), old(self).line(), final(self).tokens(), final(self).line(), 1),
            old(self).tokens().len() == 0 ==> token is None
                && advanced(old(self).tokens(), old(self).line(), final(self).tokens(), final(self).line(), 0),
    {
        proof {
            lemma_advanced_zero(self.tokens(), self.line());
            if self.tokens().len() > 0 {
                lemma_advanced_one(self.tokens(), self.line());
            }
        }
        let ghost ts = self.tokens();
        let token = self.stream.next();
        proof {
            if ts.len() == 0 {
                assert(self.tokens() =~= ts);
            }
        }
        token
    }

    fn advance(&mut self)
        requires
            old(self).wf(),
            old(self).tokens().len() > 0,
        ensures
            final(self).wf(),
            advanced(old(self).tokens(), old(self).line(), final(self).tokens(), final(self).line(), 1),
    {
        self.next();
    }

    fn error<T>(&self, kind: ErrorKind, message: String) -> (r: Result<T, ParseError>)
        ensures
            r matches Err(e) && e.error_kind() == kind && e.text() == message@ && e.line() == self.line(),
    {
        Err(ParseError::new(self.stream.line_number(), kind, message))
    }

    fn next_string(&mut self) -> (r: Result<Vec<char>, ParseError>)
        requires
            old(self).wf(),
        ensures
            final(self).wf(),
            reports(r, spec_next_string(old(self).tokens()), old(self).tokens(), old(self).line(),
                final(self).tokens(), final(self).line()),
    {
        match self.next() {
            Some(st) => Ok(st),
            None => self.error(ErrorKind::EndOfFile, text_of(
                "Reached the end of the input in the process of getting the next token.",
            )),
        }
    }

    pub fn expect_tag(&mut self, tag: &str) -> (r: Result<(), ParseError>)
        requires
            old(self).wf(),
        ensures
            final(self).wf(),
            reports(r, spec_expect_tag(old(self).tokens(), tag@), old(self).tokens(), old(self).line(),
                final(self).tokens(), final(self).line()),
    {
        match self.next() {
            None => self.error(ErrorKind::EndOfFile, text_of(
                "Reached the end of the input in the process of getting the next token.",
            )),
            Some(st) => {
                if !token_is(&st, tag) {
                    let m = concat3_str("Expected `", tag, "` but got `", &st, "` instead.");
                    self.error(ErrorKind::ExpectedTagStatement, m)
                } else {
                    Ok(())
                }
            },
        }
    }

    /// Parses a floating point literal; the result is the literal's text.
    pub fn parse_f64(&mut self) -> (r: Result<String, ParseError>)
        requires
            old(self).wf(),
        ensures
            final(self).wf(),
            reports(r, spec_parse_float(old(self).tokens()), old(self).tokens(), old(self).line(),
                final(self).tokens(), final(self).line()),
    {
        let st = self.next_string()?;
        if is_float_token(&st) {
            Ok(chars_to_string(st.as_slice()))
        } else {
            let m = concat3("Expected a floating point number but got `", st.as_slice(), "` instead.");
            self.error(ErrorKind::ExpectedFloat, m)
        }
    }

    pub fn parse_usize(&mut self) -> (r: Result<usize, ParseError>)
        requires
            old(self).wf(),
        ensures
            final(self).wf(),
            reports(r, spec_parse_usize_step(old(self).tokens()), old(self).tokens(), old(self).line(),
                final(self).tokens(), final(self).line()),
    {
        let st = self.next_string()?;
        match parse_usize_token(&st) {
            Some(val) => Ok(val),
            None => {
                let m = concat3("Expected an integer but got `", st.as_slice(), "` instead.");
                self.error(ErrorKind::ExpectedInteger, m)
            },
        }
    }

    /// Consumes the next token when it is a floating point literal.
    fn try_once_float(&mut self, default: &str) -> (r: String)
        requires
            old(self).wf(),
        ensures
            final(self).wf(),
            r@ == optional_float(old(self).tokens(), default@).0,
            advanced(old(self).tokens(), old(self).line(), final(self).tokens(), final(self).line(),
                optional_float(old(self).tokens(), default@).1),
    {
        proof {
            lemma_advanced_zero(self.tokens(), self.line());
        }
        match self.peek() {
            Some(st) => {
                if is_float_token(&st) {
                    self.advance();
                    chars_to_string(st.as_slice())
                } else {
                    text_of(default)
                }
            },
            None => text_of(default),
        }
    }

    pub fn parse_texture_vertex(&mut self) -> (r: Result<TextureVertex, ParseError>)
        requires
            old(self).wf(),
        ensures
            final(self).wf(),
            reports(r, spec_parse_texture_vertex(old(self).tokens()), old(self).tokens(), old(self).line(),
                final(self).tokens(), final(self).line()),
    {
        let ghost ts = self.tokens();
        let ghost l0 = self.line();
        self.expect_tag("vt")?;
        let ghost ts1 = self.tokens();
        let ghost l1 = self.line();
        let u = self.parse_f64();
        proof { lemma_advanced_trans(ts, l0, ts1, l1, 1, self.tokens(), self.line(), spec_parse_float(ts1).consumed()); }
        let u = u?;
        let ghost ts2 = self.tokens();
        let ghost l2 = self.line();
        let v = self.try_once_float("0");
        let ghost n1 = optional_float(ts2, "0"@).1;
        proof { lemma_advanced_trans(ts, l0, ts2, l2, 2, self.tokens(), self.line(), n1); }
        let ghost ts3 = self.tokens();
        let ghost l3 = self.line();
        let w = self.try_once_float("0");
        proof {
            lemma_advanced_trans(ts, l0, ts3, l3, 2 + n1, self.tokens(), self.line(), optional_float(ts3, "0"@).1);
            assert(ts1 =~= ts.skip(1));
            assert(ts2 =~= ts.skip(2));
            assert(ts3 =~= ts.skip((2 + n1) as int));
        }
        Ok(TextureVertex { u: u, v: v, w: w })
    }

    pub fn parse_normal_vertex(&mut self) -> (r: Result<NormalVertex, ParseError>)
        requires
            old(self).wf(),
        ensures
            final(self).wf(),
            reports(r, spec_parse_normal_vertex(old(self).tokens()), old(self).tokens(), old(self).line(),
                final(self).tokens(), final(self).line()),
    {
        let ghost ts = self.tokens();
        let ghost l0 = self.line();
        self.expect_tag("vn")?;
        let ghost ts1 = self.tokens();
        let ghost l1 = self.line();
        let i = self.parse_f64();
        proof { lemma_advanced_trans(ts, l0, ts1, l1, 1, self.tokens(), self.line(), spec_parse_float(ts1).consumed()); }
        let i = i?;
        let ghost ts2 = self.tokens();
        let ghost l2 = self.line();
        let j = self.parse_f64();
        proof { lemma_advanced_trans(ts, l0, ts2, l2, 2, self.tokens(), self.line(), spec_parse_float(ts2).consumed()); }
        let j = j?;
        let ghost ts3 = self.tokens();
        let ghost l3 = self.line();
        let k = self.parse_f64();
        proof {
            lemma_advanced_trans(ts, l0, ts3, l3, 3, self.tokens(), self.line(), spec_parse_float(ts3).consumed());
            assert(ts1 =~= ts.skip(1));
            assert(ts2 =~= ts.skip(2));
            assert(ts3 =~= ts.skip(3));
        }
        let k = k?;
        Ok(NormalVertex { i: i, j: j, k: k })
    }

    /// Skips any line feed tokens.
    pub fn skip_zero_or_more_newlines(&mut self)
        requires
            old(self).wf(),
        ensures
            final(self).wf(),
            advanced(old(self).tokens(), old(self).line(), final(self).tokens(), final(self).line(),
                leading_newlines(old(self).tokens())),
    {
        let ghost ts = self.tokens();
        let ghost l0 = self.line();
        proof {
            lemma_advanced_zero(ts, l0);
        }
        let ghost mut n: nat = 0;
        while self.peek_is("\n")
            invariant
                self.wf(),
                advanced(ts, l0, self.tokens(), self.line(), n),
                leading_newlines(ts) == n + leading_newlines(self.tokens()),
            decreases self.tokens().len(),
        {
            let ghost ts1 = self.tokens();
            let ghost l1 = self.line();
            self.advance();
            proof {
                lemma_advanced_trans(ts, l0, ts1, l1, n, self.tokens(), self.line(), 1);
                n = n + 1;
            }
        }
    }

    fn skip_one_or_more_newlines(&mut self) -> (r: Result<(), ParseError>)
        requires
            old(self).wf(),
        ensures
            final(self).wf(),
            reports(r, spec_skip_one_or_more_newlines(old(self).tokens()), old(self).tokens(), old(self).line(),
                final(self).tokens(), final(self).line()),
    {
        let ghost ts = self.tokens();
        let ghost l0 = self.line();
        self.expect_tag("\n")?;
        let ghost ts1 = self.tokens();
        let ghost l1 = self.line();
        self.skip_zero_or_more_newlines();
        proof {
            lemma_advanced_trans(ts, l0, ts1, l1, 1, self.tokens(), self.line(), leading_newlines(ts1));
            assert(ts1 =~= ts.drop_first());
        }
        Ok(())
    }

    /// Parses an `o name` statement, if one comes next; the empty name
    /// otherwise.
    pub fn parse_object_name(&mut self) -> (r: Result<String, ParseError>)
        requires
            old(self).wf(),
        ensures
            final(self).wf(),
            reports(r, spec_parse_object_name(old(self).tokens()), old(self).tokens(), old(self).line(),
                final(self).tokens(), final(self).line()),
    {
        let ghost ts = self.tokens();
        let ghost l0 = self.line();
        proof {
            lemma_advanced_zero(ts, l0);
        }
        if self.peek_is("o") {
            self.expect_tag("o")?;
            let ghost ts1 = self.tokens();
            let ghost l1 = self.line();
            let object_name = self.next_string();
            let ghost n1: nat = if ts.len() > 1 { 2 } else { 1 };
            proof {
                lemma_advanced_trans(ts, l0, ts1, l1, 1, self.tokens(), self.line(), spec_next_string(ts1).consumed());
            }
            let ghost ts2 = self.tokens();
            let ghost l2 = self.line();
            let skipped = self.skip_one_or_more_newlines();
            proof {
                lemma_advanced_trans(ts, l0, ts2, l2, n1, self.tokens(), self.line(),
                    spec_skip_one_or_more_newlines(ts2).consumed());
                assert(ts2 =~= ts.skip(n1 as int));
            }
            skipped?;
            match object_name {
                Ok(name) => Ok(chars_to_string(name.as_slice())),
                Err(e) => Err(e),
            }
        } else {
            Ok(String::new())
        }
    }

    fn stop<T>(&self, kind: ErrorKind, message: String) -> (r: Result<T, Stop>)
        ensures
            r matches Err(Stop::Invalid(e)) && e.error_kind() == kind && e.text() == message@
                && e.line() == self.line(),
    {
        Err(Stop::Invalid(ParseError::new(self.stream.line_number(), kind, message)))
    }

    fn parse_vtn_index_impl(&mut self) -> (r: Result<VTNIndex, Stop>)
        requires
            old(self).wf(),
        ensures
            final(self).wf(),
            reports_stop(r, spec_parse_vtn_index(old(self).tokens()), old(self).tokens(), old(self).line(),
                final(self).tokens(), final(self).line()),
    {
        let st = match self.next_string() {
            Ok(st) => st,
            Err(e) => return Err(Stop::Invalid(e)),
        };
        let pieces = split_on_slash(&st);
        let split1 = field(&pieces, 0);
        let split2 = field(&pieces, 1);
        let split3 = field(&pieces, 2);
        let n = pieces.len();
        let first_ok = match split1 {
            Some(v) => v >= 1,
            None => false,
        };
        let second_ok = n < 2 || match split2 {
            Some(t) => t >= 1,
            None => n == 3 && pieces[1].len() == 0,
        };
        let third_ok = n < 3 || match split3 {
            Some(k) => k >= 1,
            None => false,
        };
        if n > 3 || !first_ok || !second_ok || !third_ok {
            let m = concat3("Expected a `vertex/texture/normal` index but got `", st.as_slice(), "` instead.");
            return self.stop(ErrorKind::ExpectedVTNIndex, m);
        }
        proof {
            assert(vtn_form_ok(st@));
        }
        let v = match split1 {
            Some(v) => v,
            None => 1,
        };
        match (split2, split3) {
            (None, None) => Ok(VTNIndex::V(v - 1)),
            (None, Some(k)) => Ok(VTNIndex::VN(v - 1, k - 1)),
            (Some(t), None) => Ok(VTNIndex::VT(v - 1, t - 1)),
            (Some(t), Some(k)) => Ok(VTNIndex::VTN(v - 1, t - 1, k - 1)),
        }
    }

    /// Parses a `v`, `v/t`, `v//n` or `v/t/n` token.
    pub fn parse_vtn_index(&mut self) -> (r: Result<VTNIndex, ParseError>)
        requires
            old(self).wf(),
        ensures
            final(self).wf(),
            reports(r, spec_parse_vtn_index(old(self).tokens()), old(self).tokens(), old(self).line(),
                final(self).tokens(), final(self).line()),
    {
        match self.parse_vtn_index_impl() {
            Ok(v) => Ok(v),
            Err(Stop::Invalid(e)) => Err(e),
            Err(Stop::Undefined) => {
                proof {
                    assert(false);
                }
                Ok(VTNIndex::V(0))
            },
        }
    }

    /// Parses indices for as long as they come; returns how many it parsed.
    fn parse_vtn_indices(&mut self, vtn_indices: &mut Vec<VTNIndex>) -> (r: Result<usize, Stop>)
        requires
            old(self).wf(),
        ensures
            final(self).wf(),
            match spec_vtn_run(old(self).tokens()) {
                Parsed::Done(vs, n) => r == Ok::<usize, Stop>(vs.len() as usize)
                    && final(vtn_indices)@ == old(vtn_indices)@ + vs
                    && advanced(old(self).tokens(), old(self).line(), final(self).tokens(), final(self).line(), n),
                Parsed::Abort => r matches Err(Stop::Undefined),
                Parsed::Fail(_, _, _) => false,
            },
    {
        let ghost ts = self.tokens();
        let ghost l0 = self.line();
        let ghost start = vtn_indices@;
        let start_len = vtn_indices.len();
        proof {
            lemma_advanced_zero(ts, l0);
            assert(start + Seq::<VTNIndex>::empty() =~= start);
        }
        let ghost mut n: nat = 0;
        loop
            invariant_except_break
                self.wf(),
                start_len == start.len(),
                vtn_indices@.len() >= start.len(),
                advanced(ts, l0, self.tokens(), self.line(), n),
                spec_vtn_run(ts) == (match spec_vtn_run(self.tokens()) {
                    Parsed::Done(vs, m) => Parsed::Done(vtn_indices@.skip(start.len() as int) + vs, n + m),
                    other => other,
                }),
                vtn_indices@ == start + vtn_indices@.skip(start.len() as int),
            invariant
                ts == old(self).tokens(),
                l0 == old(self).line(),
                start == old(vtn_indices)@,
            ensures
                self.wf(),
                match spec_vtn_run(ts) {
                    Parsed::Done(vs, m) => vtn_indices@ == start + vs
                        && advanced(ts, l0, self.tokens(), self.line(), m),
                    _ => false,
                },
            decreases self.tokens().len(),
        {
            let ghost ts1 = self.tokens();
            let ghost l1 = self.line();
            let ghost pushed = vtn_indices@.skip(start.len() as int);
            match self.parse_vtn_index_impl() {
                Ok(vtn_index) => {
                    vtn_indices.push(vtn_index);
                    proof {
                        lemma_advanced_trans(ts, l0, ts1, l1, n, self.tokens(), self.line(), 1);
                        n = n + 1;
                        assert(ts1.drop_first() =~= self.tokens());
                        assert(vtn_indices@.skip(start.len() as int) =~= pushed.push(vtn_index));
                        assert(vtn_indices@ =~= start + vtn_indices@.skip(start.len() as int));
                        match spec_vtn_run(self.tokens()) {
                            Parsed::Done(vs, m) => {
                                assert(pushed + (seq![vtn_index] + vs) =~= pushed.push(vtn_index) + vs);
                            },
                            _ => {},
                        }
                    }
                },
                Err(Stop::Invalid(_)) => {
                    proof {
                        let k = spec_parse_vtn_index(ts1).consumed();
                        lemma_advanced_trans(ts, l0, ts1, l1, n, self.tokens(), self.line(), k);
                        assert(spec_vtn_run(ts1) == Parsed::<Seq<VTNIndex>, ErrorKind>::Done(Seq::empty(), k));
                        assert(pushed + Seq::<VTNIndex>::empty() =~= pushed);
                    }
                    break;
                },
                Err(Stop::Undefined) => {
                    proof {
                        assert(spec_vtn_run(ts1) is Abort);
                        assert(spec_vtn_run(ts) is Abort);
                    }
                    return Err(Stop::Undefined);
                },
            }
        }
        Ok(vtn_indices.len() - start_len)
    }

    fn parse_point(&mut self, elements: &mut Vec<Element>) -> (r: Result<usize, Stop>)
        requires
            old(self).wf(),
        ensures
            final(self).wf(),
            reports_push(r, spec_parse_point(old(self).tokens()), old(elements)@, final(elements)@,
                old(self).tokens(), old(self).line(), final(self).tokens(), final(self).line()),
    {
        let ghost ts = self.tokens();
        let ghost l0 = self.line();
        let ghost start = elements@;
        let start_len = elements.len();
        match self.expect_tag("p") {
            Ok(()) => {},
            Err(e) => {
                proof {
                    assert(elements@ =~= start + Seq::<Element>::empty());
                }
                return Err(Stop::Invalid(e));
            },
        }
        let ghost ts1 = self.tokens();
        let ghost l1 = self.line();
        let first = self.parse_usize();
        proof {
            lemma_advanced_trans(ts, l0, ts1, l1, 1, self.tokens(), self.line(), spec_parse_usize_step(ts1).consumed());
            assert(ts1 =~= ts.skip(1));
            assert(elements@ =~= start + Seq::<Element>::empty());
        }
        let v_index = match first {
            Ok(v) => v,
            Err(e) => return Err(Stop::Invalid(e)),
        };
        if v_index == 0 {
            return Err(Stop::Undefined);
        }
        elements.push(Element::Point(VTNIndex::V(v_index - 1)));
        let ghost mut n: nat = 2;
        let ghost first_point = Element::Point(VTNIndex::V((v_index - 1) as usize));
        proof {
            assert(self.tokens() =~= ts.skip(2));
        }
        loop
            invariant_except_break
                self.wf(),
                2 <= n <= ts.len(),
                self.tokens() == ts.skip(n as int),
                advanced(ts, l0, self.tokens(), self.line(), n),
                elements@.len() > start.len(),
                elements@ == start + elements@.skip(start.len() as int),
                elements@[start.len() as int] == first_point,
                spec_point_tail(ts.skip(2)).0 == elements@.skip(start.len() as int + 1) + spec_point_tail(self.tokens()).0,
                spec_point_tail(ts.skip(2)).1 == spec_point_tail(self.tokens()).1.after((n - 2) as nat),
            invariant
                ts == old(self).tokens(),
                l0 == old(self).line(),
                start == old(elements)@,
                start_len == start.len(),
                spec_parse_point(ts).0 == seq![first_point] + spec_point_tail(ts.skip(2)).0,
                spec_parse_usize_step(ts.skip(1)) == Parsed::<usize, ErrorKind>::Done(v_index, 1),
                v_index > 0,
            ensures
                self.wf(),
                spec_point_tail(ts.skip(2)).1 is Done,
                elements@ == start + spec_parse_point(ts).0,
                advanced(ts, l0, self.tokens(), self.line(), 2 + spec_point_tail(ts.skip(2)).1.consumed()),
            decreases self.tokens().len(),
        {
            let ghost ts2 = self.tokens();
            let ghost l2 = self.line();
            let ghost pushed = elements@.skip(start.len() as int);
            let token = self.next();
            proof {
                if ts2.len() > 0 {
                    lemma_advanced_trans(ts, l0, ts2, l2, n, self.tokens(), self.line(), 1);
                    assert(ts2.drop_first() =~= ts.skip(n as int + 1));
                }
            }
            match token {
                Some(st) => {
                    if token_is(&st, "\n") {
                        proof {
                            assert(spec_point_tail(ts2).0 =~= Seq::<Element>::empty());
                            assert(elements@.skip(start.len() as int + 1) + Seq::<Element>::empty() =~= elements@.skip(start.len() as int + 1));
                            assert(pushed =~= seq![first_point] + elements@.skip(start.len() as int + 1));
                            assert(elements@ =~= start + spec_parse_point(ts).0);
                        }
                        break;
                    }
                    match parse_usize_token(&st) {
                        Some(v) => {
                            if v == 0 {
                                return Err(Stop::Undefined);
                            }
                            elements.push(Element::Point(VTNIndex::V(v - 1)));
                            proof {
                                n = n + 1;
                                let e = Element::Point(VTNIndex::V((v - 1) as usize));
                                assert(elements@.skip(start.len() as int) =~= pushed.push(e));
                                assert(elements@ =~= start + elements@.skip(start.len() as int));
                                assert(elements@.skip(start.len() as int + 1) =~= pushed.skip(1).push(e));
                                assert(pushed.skip(1) + spec_point_tail(ts2).0 =~= pushed.skip(1).push(e)
                                    + spec_point_tail(self.tokens()).0);
                            }
                        },
                        None => {
                            let m = concat3("Expected an integer but got `", st.as_slice(), "` instead.");
                            proof {
                                assert(elements@ =~= start + spec_parse_point(ts).0) by {
                                    assert(spec_point_tail(ts2).0 =~= Seq::<Element>::empty());
                                    assert(pushed =~= seq![first_point] + pushed.skip(1));
                                }
                            }
                            return self.stop(ErrorKind::ExpectedInteger, m);
                        },
                    }
                },
                None => {
                    proof {
                        assert(spec_point_tail(ts2).0 =~= Seq::<Element>::empty());
                        assert(pushed =~= seq![first_point] + pushed.skip(1));
                        assert(elements@ =~= start + spec_parse_point(ts).0);
                        assert(self.tokens() =~= ts2);
                    }
                    break;
                },
            }
        }
        Ok(elements.len() - start_len)
    }

    /// Whether every index has the form of the first.
    fn all_same_type(vtn_indices: &Vec<VTNIndex>) -> (b: bool)
        requires
            vtn_indices@.len() > 0,
        ensures
            b == all_same_form(vtn_indices@),
    {
        let mut i: usize = 1;
        while i < vtn_indices.len()
            invariant
                1 <= i <= vtn_indices@.len(),
                forall|k: int| 1 <= k < i ==> same_form(#[trigger] vtn_indices@[k], vtn_indices@[0]),
            decreases vtn_indices@.len() - i,
        {
            if !vtn_indices[i].has_same_type_as(&vtn_indices[0]) {
                return false;
            }
            i = i + 1;
        }
        true
    }

    fn parse_line(&mut self, elements: &mut Vec<Element>) -> (r: Result<usize, Stop>)
        requires
            old(self).wf(),
        ensures
            final(self).wf(),
            reports_push(r, spec_parse_line(old(self).tokens()), old(elements)@, final(elements)@,
                old(self).tokens(), old(self).line(), final(self).tokens(), final(self).line()),
    {
        let ghost ts = self.tokens();
        let ghost l0 = self.line();
        proof {
            assert(elements@ =~= elements@ + Seq::<Element>::empty());
        }
        match self.expect_tag("l") {
            Ok(()) => {},
            Err(e) => return Err(Stop::Invalid(e)),
        }
        let ghost ts1 = self.tokens();
        let ghost l1 = self.line();
        let a = self.parse_vtn_index_impl();
        proof {
            if !(spec_parse_vtn_index(ts1) is Abort) {
                lemma_advanced_trans(ts, l0, ts1, l1, 1, self.tokens(), self.line(), spec_parse_vtn_index(ts1).consumed());
            }
            assert(ts1 =~= ts.skip(1));
        }
        let a = a?;
        let ghost ts2 = self.tokens();
        let ghost l2 = self.line();
        let b = self.parse_vtn_index_impl();
        proof {
            if !(spec_parse_vtn_index(ts2) is Abort) {
                lemma_advanced_trans(ts, l0, ts2, l2, 2, self.tokens(), self.line(), spec_parse_vtn_index(ts2).consumed());
            }
            assert(ts2 =~= ts.skip(2));
        }
        let b = b?;
        let ghost ts3 = self.tokens();
        let ghost l3 = self.line();
        let mut vtn_indices: Vec<VTNIndex> = Vec::new();
        vtn_indices.push(a);
        vtn_indices.push(b);
        let run = self.parse_vtn_indices(&mut vtn_indices);
        proof {
            assert(ts3 =~= ts.skip(3));
            if let Parsed::Done(vs, m) = spec_vtn_run(ts3) {
                lemma_advanced_trans(ts, l0, ts3, l3, 3, self.tokens(), self.line(), m);
                assert(vtn_indices@ =~= seq![a, b] + vs);
            }
        }
        run?;
        if !Self::all_same_type(&vtn_indices) {
            let m = text_of("Every VTN index describing the vertex data for a line must havethe same form.");
            return self.stop(ErrorKind::EveryVTNIndexMustHaveTheSameFormForAGivenElement, m);
        }
        let ghost start = elements@;
        let count = vtn_indices.len() - 1;
        let mut i: usize = 0;
        while i < count
            invariant
                count + 1 == vtn_indices.len(),
                i <= count,
                elements@ == start + line_segments(vtn_indices@).take(i as int),
            decreases count - i,
        {
            elements.push(Element::Line(vtn_indices[i], vtn_indices[i + 1]));
            assert(line_segments(vtn_indices@).take(i + 1) =~= line_segments(vtn_indices@).take(i as int).push(
                Element::Line(vtn_indices@[i as int], vtn_indices@[i + 1])));
            i = i + 1;
        }
        assert(line_segments(vtn_indices@).take(count as int) =~= line_segments(vtn_indices@));
        Ok(count)
    }

    fn parse_face_impl(&mut self, elements: &mut Vec<Element>) -> (r: Result<usize, Stop>)
        requires
            old(self).wf(),
        ensures
            final(self).wf(),
            reports_push(r, spec_parse_face(old(self).tokens()), old(elements)@, final(elements)@,
                old(self).tokens(), old(self).line(), final(self).tokens(), final(self).line()),
    {
        let ghost ts = self.tokens();
        let ghost l0 = self.line();
        proof {
            assert(elements@ =~= elements@ + Seq::<Element>::empty());
        }
        match self.expect_tag("f") {
            Ok(()) => {},
            Err(e) => return Err(Stop::Invalid(e)),
        }
        let ghost ts1 = self.tokens();
        let ghost l1 = self.line();
        let mut vtn_indices: Vec<VTNIndex> = Vec::new();
        let run = self.parse_vtn_indices(&mut vtn_indices);
        proof {
            assert(ts1 =~= ts.skip(1));
            if let Parsed::Done(vs, m) = spec_vtn_run(ts1) {
                lemma_advanced_trans(ts, l0, ts1, l1, 1, self.tokens(), self.line(), m);
                assert(vtn_indices@ =~= vs);
            }
        }
        run?;
        if vtn_indices.len() < 3 {
            let m = text_of(
                "A face primitive must have at least three vertices.At minimum, a triangle requires three indices.",
            );
            return self.stop(ErrorKind::EveryFaceElementMustHaveAtLeastThreeVertices, m);
        }
        if !Self::all_same_type(&vtn_indices) {
            let m = text_of("Every VTN index describing the vertex data for a face must havethe same form.");
            return self.stop(ErrorKind::EveryVTNIndexMustHaveTheSameFormForAGivenElement, m);
        }
        let ghost start = elements@;
        let count = vtn_indices.len() - 2;
        let vertex0 = vtn_indices[0];
        let mut i: usize = 0;
        while i < count
            invariant
                count + 2 == vtn_indices.len(),
                vertex0 == vtn_indices@[0],
                i <= count,
                elements@ == start + triangle_fan(vtn_indices@).take(i as int),
            decreases count - i,
        {
            elements.push(Element::Face(vertex0, vtn_indices[i + 1], vtn_indices[i + 2]));
            assert(triangle_fan(vtn_indices@).take(i + 1) =~= triangle_fan(vtn_indices@).take(i as int).push(
                Element::Face(vtn_indices@[0], vtn_indices@[i + 1], vtn_indices@[i + 2])));
            i = i + 1;
        }
        assert(triangle_fan(vtn_indices@).take(count as int) =~= triangle_fan(vtn_indices@));
        Ok(count)
    }

    fn parse_elements_impl(&mut self, elements: &mut Vec<Element>) -> (r: Result<usize, Stop>)
        requires
            old(self).wf(),
        ensures
            final(self).wf(),
            reports_push(r, spec_parse_elements(old(self).tokens()), old(elements)@, final(elements)@,
                old(self).tokens(), old(self).line(), final(self).tokens(), final(self).line()),
    {
        if self.peek_is("p") {
            self.parse_point(elements)
        } else if self.peek_is("l") {
            self.parse_line(elements)
        } else if self.peek_is("f") {
            self.parse_face_impl(elements)
        } else {
            proof {
                lemma_advanced_zero(self.tokens(), self.line());
                assert(elements@ =~= elements@ + Seq::<Element>::empty());
            }
            let m = text_of("An element must be declared as a point (`p`), line (`l`), or face (`f`).");
            self.stop(ErrorKind::ElementMustBeAPointLineOrFace, m)
        }
    }

    /// Parses a point, line or face statement, appending its elements.
    pub fn parse_elements(&mut self, elements: &mut Vec<Element>) -> (r: Result<usize, ParseError>)
        requires
            old(self).wf(),
            !(spec_parse_elements(old(self).tokens()).1 is Abort),
        ensures
            final(self).wf(),
            reports_pushed(r, spec_parse_elements(old(self).tokens()), old(elements)@, final(elements)@,
                old(self).tokens(), old(self).line(), final(self).tokens(), final(self).line()),
    {
        match self.parse_elements_impl(elements) {
            Ok(n) => Ok(n),
            Err(Stop::Invalid(e)) => Err(e),
            Err(Stop::Undefined) => {
                proof {
                    assert(false);
                }
                Ok(0)
            },
        }
    }

    /// Parses a face statement, appending its triangles.
    pub fn parse_face(&mut self, elements: &mut Vec<Element>) -> (r: Result<usize, ParseError>)
        requires
            old(self).wf(),
            !(spec_parse_face(old(self).tokens()).1 is Abort),
        ensures
            final(self).wf(),
            reports_pushed(r, spec_parse_face(old(self).tokens()), old(elements)@, final(elements)@,
                old(self).tokens(), old(self).line(), final(self).tokens(), final(self).line()),
    {
        match self.parse_face_impl(elements) {
            Ok(n) => Ok(n),
            Err(Stop::Invalid(e)) => Err(e),
            Err(Stop::Undefined) => {
                proof {
                    assert(false);
                }
                Ok(0)
            },
        }
    }

    /// Parses a `g` statement, appending the groups it names.
    pub fn parse_groups(&mut self, groups: &mut Vec<Group>) -> (r: Result<usize, ParseError>)
        requires
            old(self).wf(),
        ensures
            final(self).wf(),
            reports_pushed(r, spec_parse_groups(old(self).tokens()), group_views(old(groups)@),
                group_views(final(groups)@), old(self).tokens(), old(self).line(), final(self).tokens(),
                final(self).line()),
    {
        let ghost ts = self.tokens();
        let ghost l0 = self.line();
        let ghost start = group_views(groups@);
        proof {
            assert(start =~= start + Seq::<Seq<char>>::empty());
        }
        self.expect_tag("g")?;
        let ghost ts1 = self.tokens();
        let start_len = groups.len();
        let names = self.read_names_until_newline();
        proof {
            assert(ts1 =~= ts.skip(1));
            lemma_advanced_trans(ts, l0, ts1, l0 + newline_tokens(ts.take(1)), 1, self.tokens(), self.line(),
                names_consumed(ts1));
        }
        let mut i: usize = 0;
        while i < names.len()
            invariant
                i <= names@.len(),
                start_len == start.len(),
                group_views(groups@) == start + token_views(names@).take(i as int),
            decreases names@.len() - i,
        {
            let ghost before = groups@;
            let g = Group::from_chars(names[i].as_slice());
            groups.push(g);
            assert(groups@ == before.push(g));
            assert(group_views(groups@) =~= group_views(before).push(g@));
            assert(token_views(names@).take(i + 1) =~= token_views(names@).take(i as int).push(names@[i as int]@));
            assert(group_views(groups@) =~= start + token_views(names@).take(i + 1));
            i = i + 1;
        }
        assert(token_views(names@).take(names@.len() as int) =~= token_views(names@));
        if names.len() == 0 {
            let g = Group::default();
            groups.push(g);
            proof {
                assert(group_views(groups@) =~= start + seq![default_group_name()]);
            }
            return Ok(1);
        }
        Ok(names.len())
    }

    /// Reads tokens up to the end of the line, consuming the line feed.
    fn read_names_until_newline(&mut self) -> (names: Vec<Vec<char>>)
        requires
            old(self).wf(),
        ensures
            final(self).wf(),
            token_views(names@) == names_until_newline(old(self).tokens()),
            advanced(old(self).tokens(), old(self).line(), final(self).tokens(), final(self).line(),
                names_consumed(old(self).tokens())),
    {
        let ghost ts = self.tokens();
        let ghost l0 = self.line();
        let mut names: Vec<Vec<char>> = Vec::new();
        proof {
            lemma_advanced_zero(ts, l0);
            lemma_names_bound(ts);
        }
        loop
            invariant_except_break
                self.wf(),
                names@.len() <= ts.len(),
                self.tokens() == ts.skip(names@.len() as int),
                advanced(ts, l0, self.tokens(), self.line(), names@.len() as nat),
                names_until_newline(ts) == token_views(names@) + names_until_newline(self.tokens()),
            invariant
                ts == old(self).tokens(),
                l0 == old(self).line(),
            ensures
                self.wf(),
                token_views(names@) == names_until_newline(ts),
                advanced(ts, l0, self.tokens(), self.line(), names_consumed(ts)),
            decreases self.tokens().len(),
        {
            let ghost ts1 = self.tokens();
            let ghost l1 = self.line();
            let ghost k = names@.len();
            match self.next() {
                Some(name) => {
                    proof {
                        lemma_advanced_trans(ts, l0, ts1, l1, k as nat, self.tokens(), self.line(), 1);
                    }
                    if token_is(&name, "\n") {
                        proof {
                            assert(names_until_newline(ts1) =~= Seq::<Seq<char>>::empty());
                            assert(token_views(names@) =~= names_until_newline(ts));
                        }
                        break;
                    }
                    names.push(name);
                    proof {
                        assert(token_views(names@) =~= token_views(names@.drop_last()).push(name@));
                        assert(names@.drop_last() =~= names@.take(k as int));
                        assert(ts1.drop_first() =~= ts.skip(k as int + 1));
                        assert(seq![ts1[0]] + names_until_newline(ts1.drop_first()) == names_until_newline(ts1));
                        assert(token_views(names@.take(k as int)) + names_until_newline(ts1) =~= token_views(names@)
                            + names_until_newline(self.tokens()));
                    }
                },
                None => {
                    proof {
                        assert(names_until_newline(ts1) =~= Seq::<Seq<char>>::empty());
                        assert(token_views(names@) =~= names_until_newline(ts));
                        assert(self.tokens() =~= ts1);
                    }
                    break;
                },
            }
        }
        names
    }

    /// Parses an `s` statement, appending the smoothing group it names.
    pub fn parse_smoothing_group(&mut self, smoothing_groups: &mut Vec<SmoothingGroup>) -> (r: Result<
        usize,
        ParseError,
    >)
        requires
            old(self).wf(),
        ensures
            final(self).wf(),
            reports_pushed(r, spec_parse_smoothing_group(old(self).tokens()), smoothing_views(
                old(smoothing_groups)@), smoothing_views(final(smoothing_groups)@), old(self).tokens(),
                old(self).line(), final(self).tokens(), final(self).line()),
    {
        let ghost ts = self.tokens();
        let ghost l0 = self.line();
        let ghost start = smoothing_views(smoothing_groups@);
        proof {
            assert(start =~= start + Seq::<usize>::empty());
        }
        self.expect_tag("s")?;
        let ghost ts1 = self.tokens();
        let ghost l1 = self.line();
        let name = self.next();
        proof {
            if ts1.len() > 0 {
                lemma_advanced_trans(ts, l0, ts1, l1, 1, self.tokens(), self.line(), 1);
            } else {
                lemma_advanced_trans(ts, l0, ts1, l1, 1, self.tokens(), self.line(), 0);
            }
        }
        match name {
            Some(name) => {
                if token_is(&name, "off") {
                    smoothing_groups.push(SmoothingGroup::new(0));
                    proof {
                        assert(smoothing_views(smoothing_groups@) =~= start + seq![0usize]);
                    }
                } else {
                    match parse_usize_token(&name) {
                        Some(number) => {
                            smoothing_groups.push(SmoothingGroup::new(number));
                            proof {
                                assert(smoothing_views(smoothing_groups@) =~= start + seq![number]);
                            }
                        },
                        None => {
                            let m = concat3(
                                "A smoothing group name must either be `off`, which denotes that an object has no smoothing groups, or an integer. The parser got `",
                                name.as_slice(),
                                "` instead.",
                            );
                            return self.error(ErrorKind::SmoothingGroupNameMustBeOffOrInteger, m);
                        },
                    }
                }
            },
            None => {
                let m = text_of("Got a smoothing group declaration without a smoothing group name.");
                return self.error(ErrorKind::SmoothingGroupDeclarationHasNoName, m);
            },
        }
        Ok(1)
    }

    /// Parses a `usemtl` statement, appending the material name.
    fn parse_material_name(&mut self, material_names: &mut Vec<Option<Vec<char>>>) -> (r: Result<
        usize,
        ParseError,
    >)
        requires
            old(self).wf(),
        ensures
            final(self).wf(),
            reports_pushed(r, spec_parse_material_name(old(self).tokens()), opt_token_views(
                old(material_names)@), opt_token_views(final(material_names)@), old(self).tokens(),
                old(self).line(), final(self).tokens(), final(self).line()),
    {
        let ghost ts = self.tokens();
        let ghost l0 = self.line();
        let ghost start = opt_token_views(material_names@);
        proof {
            assert(start =~= start + Seq::<Option<Seq<char>>>::empty());
        }
        self.expect_tag("usemtl")?;
        let ghost ts1 = self.tokens();
        let ghost l1 = self.line();
        let name = self.next();
        proof {
            if ts1.len() > 0 {
                lemma_advanced_trans(ts, l0, ts1, l1, 1, self.tokens(), self.line(), 1);
            } else {
                lemma_advanced_trans(ts, l0, ts1, l1, 1, self.tokens(), self.line(), 0);
            }
        }
        match name {
            Some(name) => {
                let ghost nv = name@;
                material_names.push(Some(name));
                proof {
                    assert(opt_token_views(material_names@) =~= start + seq![Some(nv)]);
                }
            },
            None => {
                let m = text_of("Got a `usemtl` material declaration without a material name.");
                return self.error(ErrorKind::MaterialStatementHasNoName, m);
            },
        }
        Ok(1)
    }

    /// Parses an `mtllib` statement, appending the library names.
    pub fn parse_material_library_line(&mut self, material_libraries: &mut Vec<String>) -> (r: Result<
        usize,
        ParseError,
    >)
        requires
            old(self).wf(),
        ensures
            final(self).wf(),
            reports_pushed(r, spec_parse_material_library_line(old(self).tokens()), string_views(
                old(material_libraries)@), string_views(final(material_libraries)@), old(self).tokens(),
                old(self).line(), final(self).tokens(), final(self).line()),
    {
        let ghost ts = self.tokens();
        let ghost l0 = self.line();
        let ghost start = string_views(material_libraries@);
        proof {
            assert(start =~= start + Seq::<Seq<char>>::empty());
        }
        self.expect_tag("mtllib")?;
        let ghost ts1 = self.tokens();
        let start_len = material_libraries.len();
        let names = self.read_names_until_newline();
        proof {
            assert(ts1 =~= ts.skip(1));
            lemma_advanced_trans(ts, l0, ts1, l0 + newline_tokens(ts.take(1)), 1, self.tokens(), self.line(),
                names_consumed(ts1));
        }
        let mut i: usize = 0;
        while i < names.len()
            invariant
                i <= names@.len(),
                string_views(material_libraries@) == start + token_views(names@).take(i as int),
            decreases names@.len() - i,
        {
            let ghost before = material_libraries@;
            let name = chars_to_string(names[i].as_slice());
            material_libraries.push(name);
            assert(string_views(material_libraries@) =~= string_views(before).push(name@));
            assert(token_views(names@).take(i + 1) =~= token_views(names@).take(i as int).push(names@[i as int]@));
            i = i + 1;
        }
        assert(token_views(names@).take(names@.len() as int) =~= token_views(names@));
        Ok(names.len())
    }

    /// Parses the `mtllib` statements at the start of a file.
    pub fn parse_material_libraries(&mut self) -> (r: Result<Vec<String>, ParseError>)
        requires
            old(self).wf(),
        ensures
            final(self).wf(),
            match spec_parse_material_libraries(old(self).tokens()) {
                Parsed::Done(names, n) => r matches Ok(libs) && string_views(libs@) == names
                    && advanced(old(self).tokens(), old(self).line(), final(self).tokens(), final(self).line(), n),
                _ => false,
            },
    {
        let ghost ts = self.tokens();
        let ghost l0 = self.line();
        let mut material_libraries: Vec<String> = Vec::new();
        self.skip_zero_or_more_newlines();
        let ghost k0 = leading_newlines(ts);
        let ghost mut n: nat = k0;
        proof {
            lemma_leading_newlines_bound(ts);
            assert(self.tokens() =~= ts.skip(k0 as int));
            assert(string_views(material_libraries@) =~= Seq::<Seq<char>>::empty());
            lemma_mtllib_lines_done(self.tokens());
            assert(Seq::<Seq<char>>::empty() + done_value(spec_mtllib_lines(self.tokens())) =~= done_value(
                spec_mtllib_lines(self.tokens())));
        }
        while self.peek_is("mtllib")
            invariant
                self.wf(),
                ts == old(self).tokens(),
                l0 == old(self).line(),
                n <= ts.len(),
                advanced(ts, l0, self.tokens(), self.line(), n),
                spec_mtllib_lines(self.tokens()) is Done,
                spec_parse_material_libraries(ts) == Parsed::<Seq<Seq<char>>, ErrorKind>::Done(
                    string_views(material_libraries@) + done_value(spec_mtllib_lines(self.tokens())),
                    n + spec_mtllib_lines(self.tokens()).consumed(),
                ),
            decreases self.tokens().len(),
        {
            let ghost ts1 = self.tokens();
            let ghost l1 = self.line();
            let ghost before = string_views(material_libraries@);
            let line = self.parse_material_library_line(&mut material_libraries);
            let ghost c = spec_parse_material_library_line(ts1).1.consumed();
            proof {
                lemma_advanced_trans(ts, l0, ts1, l1, n, self.tokens(), self.line(), c);
                lemma_names_bound(ts1.drop_first());
                assert(ts1.drop_first() =~= ts1.skip(1));
            }
            match line {
                Ok(_) => {},
                Err(e) => {
                    proof {
                        assert(false);
                    }
                    return Err(e);
                },
            }
            let ghost ts2 = self.tokens();
            let ghost l2 = self.line();
            self.skip_zero_or_more_newlines();
            proof {
                let k = leading_newlines(ts2);
                lemma_leading_newlines_bound(ts2);
                lemma_advanced_trans(ts, l0, ts2, l2, n + c, self.tokens(), self.line(), k);
                assert(self.tokens() =~= ts1.skip((c + k) as int));
                lemma_mtllib_lines_done(self.tokens());
                let more = done_value(spec_mtllib_lines(self.tokens()));
                assert(before + (names_until_newline(ts1.drop_first()) + more) =~= string_views(
                    material_libraries@) + more);
                n = n + c + k;
            }
        }
        proof {
            assert(spec_mtllib_lines(self.tokens()) == Parsed::<Seq<Seq<char>>, ErrorKind>::Done(Seq::empty(), 0));
            assert(string_views(material_libraries@) + Seq::<Seq<char>>::empty() =~= string_views(
                material_libraries@));
            assert(ts.take(n as int) =~= ts.take((n + 0) as int));
        }
        Ok(material_libraries)
    }

    pub fn parse_vertex(&mut self) -> (r: Result<Vertex, ParseError>)
        requires
            old(self).wf(),
        ensures
            final(self).wf(),
            reports(r, spec_parse_vertex(old(self).tokens()), old(self).tokens(), old(self).line(),
                final(self).tokens(), final(self).line()),
    {
        let ghost ts = self.tokens();
        let ghost l0 = self.line();
        self.expect_tag("v")?;
        let ghost ts1 = self.tokens();
        let ghost l1 = self.line();
        let x = self.parse_f64();
        proof { lemma_advanced_trans(ts, l0, ts1, l1, 1, self.tokens(), self.line(), spec_parse_float(ts1).consumed()); }
        let x = x?;
        let ghost ts2 = self.tokens();
        let ghost l2 = self.line();
        let y = self.parse_f64();
        proof { lemma_advanced_trans(ts, l0, ts2, l2, 2, self.tokens(), self.line(), spec_parse_float(ts2).consumed()); }
        let y = y?;
        let ghost ts3 = self.tokens();
        let ghost l3 = self.line();
        let z = self.parse_f64();
        proof { lemma_advanced_trans(ts, l0, ts3, l3, 3, self.tokens(), self.line(), spec_parse_float(ts3).consumed()); }
        let z = z?;
        let ghost ts4 = self.tokens();
        let ghost l4 = self.line();
        let w = self.try_once_float("1");
        proof {
            lemma_advanced_trans(ts, l0, ts4, l4, 4, self.tokens(), self.line(), optional_float(ts4, "1"@).1);
            assert(ts1 =~= ts.skip(1));
            assert(ts2 =~= ts.skip(2));
            assert(ts3 =~= ts.skip(3));
            assert(ts4 =~= ts.skip(4));
        }
        Ok(Vertex { x: x, y: y, z: z, w: w })
    }
}

pub open spec fn shape_views(rows: Seq<ShapeEntry>) -> Seq<ShapeEntryModel> {
    rows.map_values(|e: ShapeEntry| e@)
}

pub open spec fn geometry_views(gs: Seq<Geometry>) -> Seq<GeometryModel> {
    gs.map_values(|g: Geometry| g@)
}

/// A group table whose element ranges chain up to `end` describes `end`
/// shape entries.
pub proof fn lemma_group_rows_len(t: Seq<((usize, usize), (usize, usize))>, end: nat)
    requires
        chained(element_ranges(t), end),
    ensures
        group_rows(t).len() == end,
    decreases t.len(),
{
    if t.len() > 0 {
        let front = t.drop_last();
        let mid = t.last().0.0;
        let r = element_ranges(t);
        let rf = element_ranges(front);
        assert(rf =~= r.drop_last());
        assert(chained(rf, mid as nat)) by {
            assert forall|j: int, k: int| 0 <= j && k == j + 1 && k < rf.len() implies (#[trigger] rf[j]).1 == (
            #[trigger] rf[k]).0 by {
                assert(rf[j] == r[j]);
                assert(rf[k] == r[k]);
            }
            if rf.len() > 0 {
                assert(rf.last() == r[r.len() - 2]);
            }
            assert(r[r.len() - 1] == t.last().0);
        }
        lemma_group_rows_len(front, mid as nat);
        assert(r.last() == t.last().0);
    }
}

/// The indices `lo` up to `hi`.
fn range_vec(lo: usize, hi: usize) -> (v: Vec<usize>)
    requires
        lo <= hi,
    ensures
        v@ == range_seq(lo, hi),
{
    let mut v: Vec<usize> = Vec::new();
    let mut i: usize = lo;
    while i < hi
        invariant
            lo <= i <= hi,
            v@ =~= range_seq(lo, i),
        decreases hi - i,
    {
        v.push(i);
        i = i + 1;
    }
    v
}

/// The shape entries a group table describes, with smoothing group 0.
fn group_shape_entries(table: &Vec<((usize, usize), (usize, usize))>) -> (rows: Vec<ShapeEntry>)
    requires
        forall|k: int| 0 <= k < table@.len() ==> (#[trigger] table@[k]).0.0 <= table@[k].0.1,
        forall|k: int| 0 <= k < table@.len() ==> (#[trigger] table@[k]).1.0 <= table@[k].1.1,
    ensures
        shape_views(rows@) == group_rows(table@),
{
    let mut rows: Vec<ShapeEntry> = Vec::new();
    let mut k: usize = 0;
    while k < table.len()
        invariant
            k <= table@.len(),
            forall|j: int| 0 <= j < table@.len() ==> (#[trigger] table@[j]).0.0 <= table@[j].0.1,
            forall|j: int| 0 <= j < table@.len() ==> (#[trigger] table@[j]).1.0 <= table@[j].1.1,
            shape_views(rows@) == group_rows(table@.take(k as int)),
        decreases table@.len() - k,
    {
        let ((lo, hi), (glo, ghi)) = table[k];
        let ghost start = shape_views(rows@);
        let ghost f = |i: usize| ShapeEntryModel { element: i, groups: range_seq(glo, ghi), smoothing_group: 0 };
        let mut i: usize = lo;
        while i < hi
            invariant
                lo <= i <= hi,
                glo <= ghi,
                f == (|i: usize| ShapeEntryModel { element: i, groups: range_seq(glo, ghi), smoothing_group: 0 }),
                shape_views(rows@) == start + range_seq(lo, i).map_values(f),
            decreases hi - i,
        {
            let ghost before = rows@;
            rows.push(ShapeEntry::new(i, range_vec(glo, ghi), 0));
            assert(shape_views(rows@) =~= shape_views(before).push(f(i)));
            assert(range_seq(lo, (i + 1) as usize).map_values(f) =~= range_seq(lo, i).map_values(f).push(f(i)));
            i = i + 1;
        }
        proof {
            let t = table@.take(k + 1);
            assert(t.drop_last() =~= table@.take(k as int));
            assert(t.last() == table@[k as int]);
        }
        k = k + 1;
    }
    assert(table@.take(table@.len() as int) =~= table@);
    rows
}

/// Writes the smoothing group of each range of the table into the shape
/// entries.
fn apply_smoothing_table(rows: &mut Vec<ShapeEntry>, table: &Vec<((usize, usize), usize)>)
    requires
        forall|k: int| 0 <= k < table@.len() ==> (#[trigger] table@[k]).0.0 <= table@[k].0.1 <= old(rows)@.len(),
    ensures
        shape_views(final(rows)@) == apply_smoothing(shape_views(old(rows)@), table@),
{
    let ghost rows0 = shape_views(rows@);
    let mut k: usize = 0;
    while k < table.len()
        invariant
            k <= table@.len(),
            rows@.len() == rows0.len(),
            forall|j: int| 0 <= j < table@.len() ==> (#[trigger] table@[j]).0.0 <= table@[j].0.1 <= rows0.len(),
            shape_views(rows@) == apply_smoothing(rows0, table@.take(k as int)),
        decreases table@.len() - k,
    {
        let ((lo, hi), sg) = table[k];
        let ghost prev = shape_views(rows@);
        let mut i: usize = lo;
        while i < hi
            invariant
                lo <= i <= hi <= rows@.len(),
                rows@.len() == prev.len(),
                shape_views(rows@) =~= Seq::new(
                    prev.len(),
                    |j: int|
                        if lo <= j < i {
                            ShapeEntryModel { smoothing_group: sg, ..prev[j] }
                        } else {
                            prev[j]
                        },
                ),
            decreases hi - i,
        {
            let ghost before = rows@;
            let mut entry = ShapeEntry::new(0, Vec::new(), 0);
            rows.set_and_swap(i, &mut entry);
            entry.smoothing_group = sg;
            rows.set_and_swap(i, &mut entry);
            proof {
                assert(rows@ == before.update(i as int, ShapeEntry { smoothing_group: sg, ..before[i as int] }));
                assert(shape_views(rows@) =~= shape_views(before).update(
                    i as int,
                    ShapeEntryModel { smoothing_group: sg, ..shape_views(before)[i as int] },
                ));
            }
            i = i + 1;
        }
        proof {
            let t = table@.take(k + 1);
            assert(t.drop_last() =~= table@.take(k as int));
            assert(t.last() == table@[k as int]);
        }
        k = k + 1;
    }
    assert(table@.take(table@.len() as int) =~= table@);
}

/// The geometries a material table describes.
fn material_geometries(table: &Vec<((usize, usize), usize)>, names: &Vec<Option<Vec<char>>>) -> (gs: Vec<
    Geometry,
>)
    requires
        forall|k: int| 0 <= k < table@.len() ==> (#[trigger] table@[k]).0.0 <= table@[k].0.1,
    ensures
        geometry_views(gs@) == geometry_rows(table@, opt_token_views(names@)),
{
    let mut gs: Vec<Geometry> = Vec::new();
    let mut k: usize = 0;
    while k < table.len()
        invariant
            k <= table@.len(),
            forall|j: int| 0 <= j < table@.len() ==> (#[trigger] table@[j]).0.0 <= table@[j].0.1,
            geometry_views(gs@) =~= geometry_rows(table@, opt_token_views(names@)).take(k as int),
        decreases table@.len() - k,
    {
        let ((lo, hi), index) = table[k];
        let material_name = if index < names.len() {
            match &names[index] {
                Some(name) => Some(chars_to_string(name.as_slice())),
                None => None,
            }
        } else {
            None
        };
        let ghost before = gs@;
        let g = Geometry::new(material_name, range_vec(lo, hi));
        proof {
            assert(g@ == geometry_rows(table@, opt_token_views(names@))[k as int]);
        }
        gs.push(g);
        proof {
            assert(geometry_views(gs@) =~= geometry_views(before).push(g@));
            assert(geometry_rows(table@, opt_token_views(names@)).take(k + 1) =~= geometry_rows(
                table@,
                opt_token_views(names@),
            ).take(k as int).push(g@));
        }
        k = k + 1;
    }
    gs
}

fn rebase_vtn(i: VTNIndex, off: Offsets) -> (r: Option<VTNIndex>)
    ensures
        r == rebase_index(i, off),
{
    match i {
        VTNIndex::V(v) => if v >= off.0 {
            Some(VTNIndex::V(v - off.0))
        } else {
            None
        },
        VTNIndex::VT(v, t) => if v >= off.0 && t >= off.1 {
            Some(VTNIndex::VT(v - off.0, t - off.1))
        } else {
            None
        },
        VTNIndex::VN(v, n) => if v >= off.0 && n >= off.2 {
            Some(VTNIndex::VN(v - off.0, n - off.2))
        } else {
            None
        },
        VTNIndex::VTN(v, t, n) => if v >= off.0 && t >= off.1 && n >= off.2 {
            Some(VTNIndex::VTN(v - off.0, t - off.1, n - off.2))
        } else {
            None
        },
    }
}

fn rebase_one(e: Element, off: Offsets) -> (r: Option<Element>)
    ensures
        r == rebase_element(e, off),
{
    match e {
        Element::Point(a) => match rebase_vtn(a, off) {
            Some(a2) => Some(Element::Point(a2)),
            None => None,
        },
        Element::Line(a, b) => match (rebase_vtn(a, off), rebase_vtn(b, off)) {
            (Some(a2), Some(b2)) => Some(Element::Line(a2, b2)),
            _ => None,
        },
        Element::Face(a, b, c) => match (rebase_vtn(a, off), rebase_vtn(b, off), rebase_vtn(c, off)) {
            (Some(a2), Some(b2), Some(c2)) => Some(Element::Face(a2, b2, c2)),
            _ => None,
        },
    }
}

/// The elements with their indices taken within the object.
fn rebase_all(es: &Vec<Element>, off: Offsets) -> (r: Option<Vec<Element>>)
    ensures
        match rebase_elements(es@, off) {
            Some(v) => r matches Some(x) && x@ == v,
            None => r is None,
        },
{
    let mut out: Vec<Element> = Vec::new();
    let mut i: usize = 0;
    while i < es.len()
        invariant
            i <= es@.len(),
            forall|j: int| 0 <= j < i ==> (#[trigger] rebase_element(es@[j], off)) is Some,
            out@ == es@.take(i as int).map_values(|e: Element| rebase_element(e, off)->0),
        decreases es@.len() - i,
    {
        match rebase_one(es[i], off) {
            Some(e) => {
                let ghost before = out@;
                out.push(e);
                proof {
                    assert(es@.take(i + 1) =~= es@.take(i as int).push(es@[i as int]));
                    assert(out@ =~= es@.take(i + 1).map_values(|e: Element| rebase_element(e, off)->0));
                }
            },
            None => {
                return None;
            },
        }
        i = i + 1;
    }
    proof {
        assert(es@.take(i as int) =~= es@);
    }
    Some(out)
}

/// `reports_stop` for a statement of an object's body, which updates the
/// parse state `acc`.
spec fn reports_statement(
    r: Result<(), Stop>,
    p: Step<ObjState>,
    acc: ObjState,
    ts: Seq<Seq<char>>,
    line0: nat,
    ts1: Seq<Seq<char>>,
    line1: nat,
) -> bool {
    match p {
        Parsed::Done(st, n) => {
            &&& r is Ok && acc == st && state_wf(acc)
            &&& advanced(ts, line0, ts1, line1, n)
            &&& n > 0
        },
        Parsed::Fail(k, m, n) => {
            &&& r matches Err(Stop::Invalid(e)) && e.error_kind() == k && e.text() == m && e.line() == line1
            &&& advanced(ts, line0, ts1, line1, n)
        },
        Parsed::Abort => r matches Err(Stop::Undefined),
    }
}

impl Parser {
    fn group_statement(&mut self, acc: &mut ObjectTables) -> (r: Result<(), Stop>)
        requires
            old(self).wf(),
            old(self).tokens().len() > 0,
            old(self).tokens()[0] == "g"@,
            state_wf(old(acc)@),
        ensures
            final(self).wf(),
            reports_statement(r, group_statement(old(acc)@, old(self).tokens()), final(acc)@,
                old(self).tokens(), old(self).line(), final(self).tokens(), final(self).line()),
    {
        let ghost st = acc@;
        let ghost ts = self.tokens();
        if acc.groups.len() == 0 {
            let ghost ts1 = self.tokens();
            match self.parse_groups(&mut acc.groups) {
                Ok(a) => {
                    let ghost names = spec_parse_groups(ts1).0;
                    assert(group_views(acc.groups@).len() == acc.groups@.len());
                    let glen: usize = acc.groups.len();
                    assert(glen == acc.max_group_index + names.len());
                    acc.max_group_index = acc.max_group_index + a;
                },
                Err(e) => {
                    return Err(Stop::Invalid(e));
                },
            }
            proof {
                assert(acc@ =~= done_value(group_statement(st, ts)));
                assert(state_wf(acc@));
            }
        } else {
            let entry = (
                (acc.min_element_group_index, acc.max_element_group_index),
                (acc.min_group_index, acc.max_group_index),
            );
            acc.group_entry_table.push(entry);
            assert(acc.max_group_index == acc.groups@.len());
            let ghost ts1 = self.tokens();
            match self.parse_groups(&mut acc.groups) {
                Ok(a) => {
                    let ghost names = spec_parse_groups(ts1).0;
                    assert(group_views(acc.groups@).len() == acc.groups@.len());
                    let glen: usize = acc.groups.len();
                    assert(glen == acc.max_group_index + names.len());
                    acc.min_group_index = acc.max_group_index;
                    acc.max_group_index = acc.max_group_index + a;
                    acc.min_element_group_index = acc.max_element_group_index;
                },
                Err(e) => {
                    return Err(Stop::Invalid(e));
                },
            }
            proof {
                lemma_element_ranges_push(st.group_entry_table, entry);
                lemma_chained_push(element_ranges(st.group_entry_table), st.min_element_group_index as nat,
                    st.max_element_group_index);
                let t = acc.group_entry_table@;
                assert forall|k: int| 0 <= k < t.len() implies (#[trigger] t[k]).1.0 <= t[k].1.1
                    <= acc.min_group_index by {
                    if k < t.len() - 1 {
                        assert(t[k] == st.group_entry_table[k]);
                    }
                }
                assert(acc@ =~= done_value(group_statement(st, ts)));
                assert(state_wf(acc@));
            }
        }
        assert(state_wf(acc@));
        assert(group_statement(st, ts).consumed() > 0);
        assert(advanced(ts, old(self).line(), self.tokens(), self.line(), group_statement(st, ts).consumed()));
        Ok(())
    }

    fn smoothing_statement(&mut self, acc: &mut ObjectTables) -> (r: Result<(), Stop>)
        requires
            old(self).wf(),
            old(self).tokens().len() > 0,
            old(self).tokens()[0] == "s"@,
            state_wf(old(acc)@),
        ensures
            final(self).wf(),
            reports_statement(r, smoothing_statement(old(acc)@, old(self).tokens()), final(acc)@,
                old(self).tokens(), old(self).line(), final(self).tokens(), final(self).line()),
    {
        let ghost st = acc@;
        let ghost ts = self.tokens();
        if acc.smoothing_groups.len() == 0 {
            match self.parse_smoothing_group(&mut acc.smoothing_groups) {
                Ok(_) => {
                    acc.smoothing_group_index = 0;
                },
                Err(e) => {
                    return Err(Stop::Invalid(e));
                },
            }
            proof {
                assert(smoothing_views(acc.smoothing_groups@).len() == acc.smoothing_groups@.len());
                assert(acc@ =~= done_value(smoothing_statement(st, ts)));
            }
        } else {
            let entry = (
                (acc.min_element_smoothing_group_index, acc.max_element_smoothing_group_index),
                acc.smoothing_group_index,
            );
            acc.smoothing_group_entry_table.push(entry);
            match self.parse_smoothing_group(&mut acc.smoothing_groups) {
                Ok(_) => {
                    assert(smoothing_views(acc.smoothing_groups@).len() == acc.smoothing_groups@.len());
                    let slen: usize = acc.smoothing_groups.len();
                    assert(slen == acc.smoothing_group_index + 2);
                    acc.smoothing_group_index = acc.smoothing_group_index + 1;
                    acc.min_element_smoothing_group_index = acc.max_element_smoothing_group_index;
                },
                Err(e) => {
                    return Err(Stop::Invalid(e));
                },
            }
            proof {
                lemma_element_ranges_push(st.smoothing_group_entry_table, entry);
                lemma_chained_push(element_ranges(st.smoothing_group_entry_table),
                    st.min_element_smoothing_group_index as nat, st.max_element_smoothing_group_index);
                let t = acc.smoothing_group_entry_table@;
                assert forall|k: int| 0 <= k < t.len() implies (#[trigger] t[k]).1
                    < acc@.smoothing_groups.len() by {
                    if k < t.len() - 1 {
                        assert(t[k] == st.smoothing_group_entry_table[k]);
                    }
                }
                assert(acc@ =~= done_value(smoothing_statement(st, ts)));
            }
        }
        Ok(())
    }

    fn material_statement(&mut self, acc: &mut ObjectTables) -> (r: Result<(), Stop>)
        requires
            old(self).wf(),
            old(self).tokens().len() > 0,
            old(self).tokens()[0] == "usemtl"@,
            state_wf(old(acc)@),
        ensures
            final(self).wf(),
            reports_statement(r, material_statement(old(acc)@, old(self).tokens()), final(acc)@,
                old(self).tokens(), old(self).line(), final(self).tokens(), final(self).line()),
    {
        let ghost st = acc@;
        let ghost ts = self.tokens();
        if acc.min_element_material_name_index != acc.max_element_material_name_index {
            let entry = (
                (acc.min_element_material_name_index, acc.max_element_material_name_index),
                acc.material_name_index,
            );
            acc.material_name_entry_table.push(entry);
            proof {
                lemma_element_ranges_push(st.material_name_entry_table, entry);
                lemma_chained_push(element_ranges(st.material_name_entry_table),
                    st.min_element_material_name_index as nat, st.max_element_material_name_index);
            }
        }
        let was_empty = acc.material_names.len() == 0;
        match self.parse_material_name(&mut acc.material_names) {
            Ok(_) => {},
            Err(e) => {
                return Err(Stop::Invalid(e));
            },
        }
        assert(opt_token_views(acc.material_names@).len() == acc.material_names@.len());
        let mlen: usize = acc.material_names.len();
        if !was_empty {
            acc.material_name_index = acc.material_name_index + 1;
        }
        acc.min_element_material_name_index = acc.max_element_material_name_index;
        proof {
            let t = acc.material_name_entry_table@;
            assert forall|k: int| 0 <= k < t.len() implies (#[trigger] t[k]).1 < acc@.material_names.len() by {
                if k < st.material_name_entry_table.len() {
                    assert(t[k] == st.material_name_entry_table[k]);
                }
            }
            assert(acc@ =~= done_value(material_statement(st, ts)));
        }
        Ok(())
    }

    fn element_statement(&mut self, acc: &mut ObjectTables) -> (r: Result<(), Stop>)
        requires
            old(self).wf(),
            old(self).tokens().len() > 0,
            old(self).tokens()[0] == "p"@ || old(self).tokens()[0] == "l"@ || old(self).tokens()[0] == "f"@,
            state_wf(old(acc)@),
        ensures
            final(self).wf(),
            reports_statement(r, element_statement(old(acc)@, old(self).tokens()), final(acc)@,
                old(self).tokens(), old(self).line(), final(self).tokens(), final(self).line()),
    {
        let ghost st = acc@;
        let ghost ts = self.tokens();
        if acc.groups.len() == 0 {
            acc.groups.push(Group::default());
            acc.min_group_index = 0;
            acc.max_group_index = 1;
            assert(group_views(acc.groups@) =~= seq![default_group_name()]);
        }
        if acc.smoothing_groups.len() == 0 {
            acc.smoothing_groups.push(SmoothingGroup::default());
            acc.smoothing_group_index = 0;
            assert(smoothing_views(acc.smoothing_groups@) =~= seq![0usize]);
        }
        if acc.material_names.len() == 0 {
            acc.material_names.push(None);
            acc.material_name_index = 0;
            assert(opt_token_views(acc.material_names@) =~= seq![None]);
        }
        proof {
            assert(acc@ =~= prepared_for_elements(st));
        }
        let ghost st1 = acc@;
        let ghost before = acc.elements@;
        let amount = self.parse_elements_impl(&mut acc.elements);
        match amount {
            Ok(a) => {
                let elen: usize = acc.elements.len();
                proof {
                    let p = spec_parse_elements(ts).0;
                    assert(elen == before.len() + p.len());
                    if ts[0] == "l"@ {
                        assert(p.len() == a);
                    } else if ts[0] == "f"@ {
                        assert(p.len() == a);
                    } else {
                        assert(p.len() == a);
                    }
                }
                acc.max_element_group_index = acc.max_element_group_index + a;
                acc.max_element_smoothing_group_index = acc.max_element_smoothing_group_index + a;
                acc.max_element_material_name_index = acc.max_element_material_name_index + a;
            },
            Err(e) => {
                return Err(e);
            },
        }
        proof {
            assert(acc@ =~= done_value(element_statement(st, ts)));
        }
        Ok(())
    }

    /// One statement of an object's body.
    fn object_statement(&mut self, acc: &mut ObjectTables) -> (r: Result<(), Stop>)
        requires
            old(self).wf(),
            old(self).tokens().len() > 0,
            state_wf(old(acc)@),
        ensures
            final(self).wf(),
            reports_statement(r, object_statement(old(acc)@, old(self).tokens()), final(acc)@,
                old(self).tokens(), old(self).line(), final(self).tokens(), final(self).line()),
    {
        let ghost st = acc@;
        let ghost ts = self.tokens();
        let token = match self.peek() {
            Some(t) => t,
            None => {
                return Err(Stop::Undefined);
            },
        };
        if token_is(&token, "g") {
            self.group_statement(acc)
        } else if token_is(&token, "s") {
            self.smoothing_statement(acc)
        } else if token_is(&token, "usemtl") {
            self.material_statement(acc)
        } else if token_is(&token, "v") {
            let vertex = match self.parse_vertex() {
                Ok(v) => v,
                Err(e) => {
                    return Err(Stop::Invalid(e));
                },
            };
            let ghost vm = vertex@;
            acc.vertices.push(vertex);
            proof {
                assert(vertex_views(acc.vertices@) =~= st.vertices.push(vm));
                assert(acc@ =~= done_value(object_statement(st, ts)));
            }
            Ok(())
        } else if token_is(&token, "vt") {
            let vertex = match self.parse_texture_vertex() {
                Ok(v) => v,
                Err(e) => {
                    return Err(Stop::Invalid(e));
                },
            };
            let ghost vm = vertex@;
            acc.texture_vertices.push(vertex);
            proof {
                assert(texture_vertex_views(acc.texture_vertices@) =~= st.texture_vertices.push(vm));
                assert(acc@ =~= done_value(object_statement(st, ts)));
            }
            Ok(())
        } else if token_is(&token, "vn") {
            let vertex = match self.parse_normal_vertex() {
                Ok(v) => v,
                Err(e) => {
                    return Err(Stop::Invalid(e));
                },
            };
            let ghost vm = vertex@;
            acc.normal_vertices.push(vertex);
            proof {
                assert(normal_vertex_views(acc.normal_vertices@) =~= st.normal_vertices.push(vm));
                assert(acc@ =~= done_value(object_statement(st, ts)));
            }
            Ok(())
        } else if token_is(&token, "p") || token_is(&token, "l") || token_is(&token, "f") {
            self.element_statement(acc)
        } else if token_is(&token, "\n") {
            match self.skip_one_or_more_newlines() {
                Ok(()) => Ok(()),
                Err(e) => Err(Stop::Invalid(e)),
            }
        } else {
            proof {
                lemma_advanced_zero(ts, self.line());
            }
            let m = concat3("Unsupported or invalid element declaration `", token.as_slice(), "`.");
            self.stop(ErrorKind::InvalidElementDeclaration, m)
        }
    }

    /// One object: an optional `o` statement, then statements up to the next
    /// `o` statement or the end of the input.
    fn parse_object(&mut self, off: Offsets) -> (r: Result<Object, Stop>)
        requires
            old(self).wf(),
        ensures
            final(self).wf(),
            reports_stop(r, spec_parse_object(old(self).tokens(), off), old(self).tokens(), old(self).line(),
                final(self).tokens(), final(self).line()),
            r is Ok && old(self).tokens().len() > 0 ==> spec_parse_object(old(self).tokens(), off).consumed() > 0,
            r matches Ok(o) ==> object_wf(o@),
    {
        let ghost ts = self.tokens();
        let ghost l0 = self.line();
        let name = match self.parse_object_name() {
            Ok(name) => name,
            Err(e) => {
                return Err(Stop::Invalid(e));
            },
        };
        let ghost n0 = spec_parse_object_name(ts).consumed();
        let ghost ts1 = self.tokens();
        let ghost l1 = self.line();
        let mut acc = ObjectTables::new();
        let ghost mut n: nat = 0;
        proof {
            lemma_advanced_zero(ts1, l1);
            assert(object_loop(initial_state(), ts1) == object_loop(acc@, self.tokens()).after(0));
        }
        loop
            invariant
                self.wf(),
                ts == old(self).tokens(),
                l0 == old(self).line(),
                advanced(ts, l0, ts1, l1, n0),
                advanced(ts1, l1, self.tokens(), self.line(), n),
                n == 0 ==> self.tokens() == ts1,
                state_wf(acc@),
                object_loop(initial_state(), ts1) == object_loop(acc@, self.tokens()).after(n),
                spec_parse_object_name(ts) == Parsed::<Seq<char>, ErrorKind>::Done(name@, n0),
            ensures
                self.wf(),
                advanced(ts1, l1, self.tokens(), self.line(), n),
                n == 0 ==> self.tokens() == ts1,
                state_wf(acc@),
                object_loop(initial_state(), ts1) == object_loop(acc@, self.tokens()).after(n),
                self.tokens().len() == 0 || self.tokens()[0] == "o"@,
            decreases self.tokens().len(),
        {
            let at_end = match self.peek() {
                None => true,
                Some(t) => token_is(&t, "o"),
            };
            if at_end {
                break ;
            }
            let ghost tsk = self.tokens();
            let ghost lk = self.line();
            let ghost stk = acc@;
            let step = self.object_statement(&mut acc);
            match step {
                Ok(()) => {
                    proof {
                        let m = object_statement(stk, tsk).consumed();
                        lemma_advanced_trans(ts1, l1, tsk, lk, n, self.tokens(), self.line(), m);
                        lemma_object_loop_step(stk, tsk);
                        lemma_after_after(object_loop(acc@, self.tokens()), m, n);
                        n = n + m;
                    }
                },
                Err(e) => {
                    proof {
                        lemma_object_loop_step(stk, tsk);
                        if !(object_statement(stk, tsk) is Abort) {
                            let m = object_statement(stk, tsk).consumed();
                            lemma_advanced_trans(ts1, l1, tsk, lk, n, self.tokens(), self.line(), m);
                            lemma_advanced_trans(ts, l0, ts1, l1, n0, self.tokens(), self.line(), n + m);
                        }
                    }
                    return Err(e);
                },
            }
        }
        proof {
            assert(object_loop(acc@, self.tokens()) == Parsed::<ObjState, ErrorKind>::Done(finished(acc@), 0));
        }
        let ghost st = acc@;
        acc.finish();
        let ghost e = acc@.elements.len();
        proof {
            lemma_group_rows_len(acc@.group_entry_table, e);
            lemma_chained_bounds(element_ranges(acc@.group_entry_table), e);
            lemma_chained_bounds(element_ranges(acc@.smoothing_group_entry_table), e);
            lemma_chained_bounds(element_ranges(acc@.material_name_entry_table), e);
            let t = acc@.group_entry_table;
            assert forall|k: int| 0 <= k < t.len() implies (#[trigger] t[k]).0.0 <= t[k].0.1 by {
                assert(element_ranges(t)[k] == t[k].0);
            }
            let t = acc@.smoothing_group_entry_table;
            assert forall|k: int| 0 <= k < t.len() implies (#[trigger] t[k]).0.0 <= t[k].0.1 <= e by {
                assert(element_ranges(t)[k] == t[k].0);
            }
            let t = acc@.material_name_entry_table;
            assert forall|k: int| 0 <= k < t.len() implies (#[trigger] t[k]).0.0 <= t[k].0.1 by {
                assert(element_ranges(t)[k] == t[k].0);
            }
        }
        let mut shapes = group_shape_entries(&acc.group_entry_table);
        apply_smoothing_table(&mut shapes, &acc.smoothing_group_entry_table);
        let geometries = material_geometries(&acc.material_name_entry_table, &acc.material_names);
        let elements = match rebase_all(&acc.elements, off) {
            Some(es) => es,
            None => {
                proof {
                    lemma_advanced_trans(ts, l0, ts1, l1, n0, self.tokens(), self.line(), n);
                }
                return self.stop(ErrorKind::ExpectedVTNIndex, text_of(
                    "A vertex/texture/normal index refers to the data of an earlier object.",
                ));
            },
        };
        let ObjectTables {
            vertices,
            texture_vertices,
            normal_vertices,
            groups,
            smoothing_groups,
            material_names,
            ..
        } = acc;
        let object = Object {
            name: name,
            vertex_set: vertices,
            texture_vertex_set: texture_vertices,
            normal_vertex_set: normal_vertices,
            group_set: groups,
            smoothing_group_set: smoothing_groups,
            element_set: elements,
            shape_set: shapes,
            geometry_set: geometries,
        };
        proof {
            assert(object@ == object_with_elements(name@, finished(st), elements@));
            lemma_object_of_wf(name@, finished(st));
            lemma_advanced_trans(ts, l0, ts1, l1, n0, self.tokens(), self.line(), n);
        }
        Ok(object)
    }

    /// The objects of the file, each followed by any number of empty lines.
    #[verifier::rlimit(30)]
    fn parse_objects(&mut self) -> (r: Result<Vec<Object>, Stop>)
        requires
            old(self).wf(),
        ensures
            final(self).wf(),
            match spec_parse_objects(old(self).tokens()) {
                Parsed::Done(os, n) => r matches Ok(v) && object_views(v@) == os && advanced(
                    old(self).tokens(),
                    old(self).line(),
                    final(self).tokens(),
                    final(self).line(),
                    n,
                ),
                Parsed::Fail(k, m, n) => r matches Err(Stop::Invalid(e)) && e.error_kind() == k && e.text() == m
                    && e.line() == final(self).line() && advanced(
                    old(self).tokens(),
                    old(self).line(),
                    final(self).tokens(),
                    final(self).line(),
                    n,
                ),
                Parsed::Abort => r matches Err(Stop::Undefined),
            },
            r matches Ok(v) ==> forall|i: int| 0 <= i < v@.len() ==> object_wf(#[trigger] v@[i]@),
    {
        let ghost ts = self.tokens();
        let ghost l0 = self.line();
        let mut result: Vec<Object> = Vec::new();
        let mut off: Offsets = (0, 0, 0);
        self.skip_zero_or_more_newlines();
        let ghost mut n: nat = leading_newlines(ts);
        proof {
            lemma_leading_newlines_bound(ts);
            assert(object_views(result@) =~= Seq::<ObjectModel>::empty());
            lemma_prefixed_empty(spec_objects(self.tokens(), off), n);
        }
        loop
            invariant
                self.wf(),
                ts == old(self).tokens(),
                l0 == old(self).line(),
                advanced(ts, l0, self.tokens(), self.line(), n),
                spec_parse_objects(ts) == prefixed(object_views(result@), spec_objects(self.tokens(), off), n),
                forall|i: int| 0 <= i < result@.len() ==> object_wf(#[trigger] result@[i]@),
            decreases self.tokens().len(),
        {
            let at_end = match self.peek() {
                None => true,
                Some(_) => false,
            };
            if at_end {
                proof {
                    assert(object_views(result@) + Seq::<ObjectModel>::empty() =~= object_views(result@));
                }
                return Ok(result);
            }
            let ghost tsk = self.tokens();
            let ghost lk = self.line();
            proof {
                lemma_objects_step(tsk, off);
            }
            let object = self.parse_object(off);
            match object {
                Ok(object) => {
                    let ghost c = spec_parse_object(tsk, off).consumed();
                    let ghost before = object_views(result@);
                    let ghost om = object@;
                    let a = off.0.checked_add(object.vertex_set.len());
                    let b = off.1.checked_add(object.texture_vertex_set.len());
                    let d = off.2.checked_add(object.normal_vertex_set.len());
                    proof {
                        assert(om.vertex_set.len() == object.vertex_set@.len());
                        assert(om.texture_vertex_set.len() == object.texture_vertex_set@.len());
                        assert(om.normal_vertex_set.len() == object.normal_vertex_set@.len());
                    }
                    let off2 = match (a, b, d) {
                        (Some(a), Some(b), Some(d)) => (a, b, d),
                        _ => {
                            proof {
                                assert(next_offsets(off, om) is None);
                            }
                            return Err(Stop::Undefined);
                        },
                    };
                    proof {
                        assert(next_offsets(off, om) == Some(off2));
                    }
                    result.push(object);
                    proof {
                        lemma_advanced_trans(ts, l0, tsk, lk, n, self.tokens(), self.line(), c);
                    }
                    let ghost ts2 = self.tokens();
                    let ghost l2 = self.line();
                    self.skip_zero_or_more_newlines();
                    proof {
                        let k = leading_newlines(ts2);
                        lemma_leading_newlines_bound(ts2);
                        lemma_advanced_trans(ts, l0, ts2, l2, n + c, self.tokens(), self.line(), k);
                        assert(self.tokens() =~= tsk.skip((c + k) as int));
                        assert(object_views(result@) =~= before.push(om));
                        lemma_prefixed_push(before, om, spec_objects(self.tokens(), off2), n, c + k);
                        n = n + c + k;
                    }
                    off = off2;
                },
                Err(e) => {
                    proof {
                        if !(spec_parse_object(tsk, off) is Abort) {
                            lemma_advanced_trans(ts, l0, tsk, lk, n, self.tokens(), self.line(),
                                spec_parse_object(tsk, off).consumed());
                        }
                    }
                    return Err(e);
                },
            }
        }
    }

    fn parse_objset_impl(&mut self) -> (r: Result<ObjectSet, Stop>)
        requires
            old(self).wf(),
        ensures
            final(self).wf(),
            reports_stop(r, spec_parse_objset(old(self).tokens()), old(self).tokens(), old(self).line(),
                final(self).tokens(), final(self).line()),
            r matches Ok(s) ==> object_set_wf(s@),
    {
        let ghost ts = self.tokens();
        let ghost l0 = self.line();
        let material_libraries = match self.parse_material_libraries() {
            Ok(libraries) => libraries,
            Err(e) => {
                return Err(Stop::Invalid(e));
            },
        };
        let ghost ts1 = self.tokens();
        let ghost l1 = self.line();
        let ghost c = spec_parse_material_libraries(ts).consumed();
        let objects = self.parse_objects();
        proof {
            if !(spec_parse_objects(ts1) is Abort) {
                lemma_advanced_trans(ts, l0, ts1, l1, c, self.tokens(), self.line(),
                    spec_parse_objects(ts1).consumed());
            }
        }
        let objects = objects?;
        Ok(ObjectSet::new(material_libraries, objects))
    }

    /// Parses a whole OBJ file.
    pub fn parse_objset(&mut self) -> (r: Result<ObjectSet, ParseError>)
        requires
            old(self).wf(),
            !(spec_parse_objset(old(self).tokens()) is Abort),
        ensures
            final(self).wf(),
            reports(r, spec_parse_objset(old(self).tokens()), old(self).tokens(), old(self).line(),
                final(self).tokens(), final(self).line()),
            r matches Ok(s) ==> object_set_wf(s@),
    {
        match self.parse_objset_impl() {
            Ok(set) => Ok(set),
            Err(Stop::Invalid(e)) => Err(e),
            Err(Stop::Undefined) => {
                proof {
                    assert(false);
                }
                Err(ParseError::new(0, ErrorKind::EndOfFile, String::new()))
            },
        }
    }
}

/// What parsing the text `input` as an OBJ file gives, as `r` reports it:
/// the object set, or the error with the line it was found on.
pub open spec fn parse_reports(r: Result<ObjectSet, ParseError>, input: Seq<char>) -> bool {
    match spec_parse_objset(tokenize(input)) {
        Parsed::Done(set, _) => r matches Ok(s) && s@ == set,
        Parsed::Fail(k, m, n) => r matches Err(e) && e.error_kind() == k && e.text() == m && e.line() == 1
            + newline_tokens(tokenize(input).take(n as int)),
        Parsed::Abort => false,
    }
}

/// Parses a Wavefront OBJ file from a string.
pub fn parse(input: &str) -> (r: Result<ObjectSet, ParseError>)
    requires
        input@.len() < usize::MAX - 1,
        !(spec_parse_objset(tokenize(input@)) is Abort),
    ensures
        parse_reports(r, input@),
        r matches Ok(s) ==> object_set_wf(s@),
{
    let mut parser = Parser::new(input);
    parser.parse_objset()
}

/// Parses a Wavefront OBJ file from a string; `None` for the inputs on
/// which `parse` is not defined: a point index of zero, or a count that
/// passes `usize::MAX`.
pub fn try_parse(input: &str) -> (r: Option<Result<ObjectSet, ParseError>>)
    requires
        input@.len() < usize::MAX - 1,
    ensures
        r is None <==> spec_parse_objset(tokenize(input@)) is Abort,
        r matches Some(res) ==> parse_reports(res, input@),
        r matches Some(Ok(s)) ==> object_set_wf(s@),
{
    let mut parser = Parser::new(input);
    match parser.parse_objset_impl() {
        Ok(set) => Some(Ok(set)),
        Err(Stop::Invalid(e)) => Some(Err(e)),
        Err(Stop::Undefined) => None,
    }
}

/// The message `a`, then `tag`, then `b`, then the token, then `c`.
fn concat3_str(a: &str, tag: &str, b: &str, token: &Vec<char>, c: &str) -> (s: String)
    ensures
        s@ == a@ + tag@ + b@ + token@ + c@,
{
    let tag_chars = crate::text::str_to_chars(tag);
    crate::text::concat5(a, tag_chars.as_slice(), b, token.as_slice(), c)
}

} // verus!

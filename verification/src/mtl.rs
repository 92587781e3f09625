//! The Wavefront MTL parser: material libraries, with their colors,
//! scalars, illumination models and texture maps.
//!
//! Colors and scalars are kept as the text of the literal in the file; every
//! such text is one that `str::parse::<f64>` accepts.
use vstd::prelude::*;
use crate::lexer::{
    advanced, lemma_advanced_one, lemma_advanced_trans, lemma_advanced_zero, lemma_after_after, tokenize,
    Parsed, TokenStream,
};
use crate::obj::{done_value, leading_newlines, lemma_leading_newlines_bound};
use crate::text::{
    chars_to_string, concat2, concat3, decimal_text, is_float_literal, is_float_token, parse_usize_token, push_decimal,
    spec_parse_usize, text_of, token_is,
};

verus! {

/// A color: red, green and blue, each the text of a float.
#[derive(Clone, Debug, PartialEq)]
pub struct Color {
    pub r: String,
    pub g: String,
    pub b: String,
}

pub struct ColorModel {
    pub r: Seq<char>,
    pub g: Seq<char>,
    pub b: Seq<char>,
}

impl View for Color {
    type V = ColorModel;

    open spec fn view(&self) -> ColorModel {
        ColorModel { r: self.r@, g: self.g@, b: self.b@ }
    }
}

/// Black, the color of a component the file leaves out.
pub open spec fn zero_color() -> ColorModel {
    ColorModel { r: "0"@, g: "0"@, b: "0"@ }
}

impl Color {
    pub fn zero() -> (c: Color)
        ensures
            c@ == zero_color(),
    {
        Color { r: text_of("0"), g: text_of("0"), b: text_of("0") }
    }
}

/// How to illuminate an object with a given material: illumination models
/// 0, 1 and 2 of the MTL format.
#[derive(Clone, Copy, Debug, PartialEq, Eq, PartialOrd, Ord, Structural)]
pub enum IlluminationModel {
    /// An ambient color only.
    Ambient,
    /// Lambertian shading.
    AmbientDiffuse,
    /// Phong shading.
    AmbientDiffuseSpecular,
}

impl View for IlluminationModel {
    type V = IlluminationModel;

    open spec fn view(&self) -> IlluminationModel {
        *self
    }
}

/// A material of a material library.
#[derive(Clone, Debug, PartialEq)]
pub struct Material {
    pub name: String,
    pub color_ambient: Color,
    pub color_diffuse: Color,
    pub color_specular: Color,
    pub color_emissive: Color,
    pub specular_exponent: String,
    pub dissolve: String,
    pub optical_density: Option<String>,
    pub illumination_model: IlluminationModel,
    pub map_ambient: Option<String>,
    pub map_diffuse: Option<String>,
    pub map_specular: Option<String>,
    pub map_emissive: Option<String>,
    pub map_specular_exponent: Option<String>,
    pub map_bump: Option<String>,
    pub map_displacement: Option<String>,
    pub map_dissolve: Option<String>,
    pub map_decal: Option<String>,
}

pub struct MaterialModel {
    pub name: Seq<char>,
    pub color_ambient: ColorModel,
    pub color_diffuse: ColorModel,
    pub color_specular: ColorModel,
    pub color_emissive: ColorModel,
    pub specular_exponent: Seq<char>,
    pub dissolve: Seq<char>,
    pub optical_density: Option<Seq<char>>,
    pub illumination_model: IlluminationModel,
    pub map_ambient: Option<Seq<char>>,
    pub map_diffuse: Option<Seq<char>>,
    pub map_specular: Option<Seq<char>>,
    pub map_emissive: Option<Seq<char>>,
    pub map_specular_exponent: Option<Seq<char>>,
    pub map_bump: Option<Seq<char>>,
    pub map_displacement: Option<Seq<char>>,
    pub map_dissolve: Option<Seq<char>>,
    pub map_decal: Option<Seq<char>>,
}

pub open spec fn opt_text(s: Option<String>) -> Option<Seq<char>> {
    match s {
        Some(t) => Some(t@),
        None => None,
    }
}

impl View for Material {
    type V = MaterialModel;

    open spec fn view(&self) -> MaterialModel {
        MaterialModel {
            name: self.name@,
            color_ambient: self.color_ambient@,
            color_diffuse: self.color_diffuse@,
            color_specular: self.color_specular@,
            color_emissive: self.color_emissive@,
            specular_exponent: self.specular_exponent@,
            dissolve: self.dissolve@,
            optical_density: opt_text(self.optical_density),
            illumination_model: self.illumination_model,
            map_ambient: opt_text(self.map_ambient),
            map_diffuse: opt_text(self.map_diffuse),
            map_specular: opt_text(self.map_specular),
            map_emissive: opt_text(self.map_emissive),
            map_specular_exponent: opt_text(self.map_specular_exponent),
            map_bump: opt_text(self.map_bump),
            map_displacement: opt_text(self.map_displacement),
            map_dissolve: opt_text(self.map_dissolve),
            map_decal: opt_text(self.map_decal),
        }
    }
}

/// A material named `name` with every other attribute at its default:
/// black colors, specular exponent 0, dissolve 1, Phong shading, no optical
/// density and no maps.
pub open spec fn default_material(name: Seq<char>) -> MaterialModel {
    MaterialModel {
        name: name,
        color_ambient: zero_color(),
        color_diffuse: zero_color(),
        color_specular: zero_color(),
        color_emissive: zero_color(),
        specular_exponent: "0"@,
        dissolve: "1"@,
        optical_density: None,
        illumination_model: IlluminationModel::AmbientDiffuseSpecular,
        map_ambient: None,
        map_diffuse: None,
        map_specular: None,
        map_emissive: None,
        map_specular_exponent: None,
        map_bump: None,
        map_displacement: None,
        map_dissolve: None,
        map_decal: None,
    }
}

impl Material {
    fn new() -> (m: Material)
        ensures
            m@ == default_material(Seq::empty()),
    {
        let m = Material {
            name: String::new(),
            color_ambient: Color::zero(),
            color_diffuse: Color::zero(),
            color_specular: Color::zero(),
            color_emissive: Color::zero(),
            specular_exponent: text_of("0"),
            dissolve: text_of("1"),
            optical_density: None,
            illumination_model: IlluminationModel::AmbientDiffuseSpecular,
            map_ambient: None,
            map_diffuse: None,
            map_specular: None,
            map_emissive: None,
            map_specular_exponent: None,
            map_bump: None,
            map_displacement: None,
            map_dissolve: None,
            map_decal: None,
        };
        assert(m@ =~= default_material(Seq::empty()));
        m
    }
}

/// The materials of a material library.
#[derive(Clone, Debug, PartialEq)]
pub struct MaterialSet {
    pub materials: Vec<Material>,
}

pub struct MaterialSetModel {
    pub materials: Seq<MaterialModel>,
}

pub open spec fn material_views(ms: Seq<Material>) -> Seq<MaterialModel> {
    ms.map_values(|m: Material| m@)
}

impl View for MaterialSet {
    type V = MaterialSetModel;

    open spec fn view(&self) -> MaterialSetModel {
        MaterialSetModel { materials: material_views(self.materials@) }
    }
}

/// The kind of a parse error.
#[derive(Clone, Copy, Debug, PartialEq, Eq, Hash, Structural)]
pub enum ErrorKind {
    /// The input ended early.
    EndOfFile,
    /// A tag statement was expected.
    ExpectedTagStatement,
    /// A floating point number was expected.
    ExpectedFloat,
    /// An integer was expected.
    ExpectedInteger,
    /// The input was expected to end.
    ExpectedEndOfInput,
    /// An illumination model other than 0, 1 or 2.
    UnknownIlluminationModel,
    /// A statement that no material has.
    ErrorParsingMaterial,
}

/// An error in an MTL file: the line it was found on, its kind and a
/// message.
#[derive(Clone, Debug, PartialEq, Eq)]
pub struct ParseError {
    line_number: usize,
    kind: ErrorKind,
    message: String,
}

impl ParseError {
    pub closed spec fn line(&self) -> nat {
        self.line_number as nat
    }

    pub closed spec fn error_kind(&self) -> ErrorKind {
        self.kind
    }

    pub closed spec fn text(&self) -> Seq<char> {
        self.message@
    }

    fn new(line_number: usize, kind: ErrorKind, message: String) -> (e: ParseError)
        ensures
            e.line() == line_number,
            e.error_kind() == kind,
            e.text() == message@,
    {
        ParseError { line_number: line_number, kind: kind, message: message }
    }

    pub fn line_number(&self) -> (n: usize)
        ensures
            n == self.line(),
    {
        self.line_number
    }

    /// How the error reads to the user: "Parse error at line", the line,
    /// a colon, and the message.
    pub fn describe(&self) -> (s: String)
        ensures
            s@ == crate::text::error_report(self.line(), self.text()),
    {
        crate::text::report_text(self.line_number, self.message.as_str())
    }

    pub fn kind(&self) -> (k: ErrorKind)
        ensures
            k == self.error_kind(),
    {
        self.kind
    }

    pub fn message(&self) -> (m: &String)
        ensures
            m@ == self.text(),
    {
        &self.message
    }
}

pub type Step<T> = Parsed<T, ErrorKind>;

/// A call on a parser that held `ts` on line `line0` and now holds `ts1` on
/// line `line1` returned `r`, as the step `p` prescribes.
pub open spec fn reports<E: View>(
    r: Result<E, ParseError>,
    p: Step<E::V>,
    ts: Seq<Seq<char>>,
    line0: nat,
    ts1: Seq<Seq<char>>,
    line1: nat,
) -> bool {
    match p {
        Parsed::Done(v, n) => {
            &&& r matches Ok(e) && e@ == v
            &&& advanced(ts, line0, ts1, line1, n)
        },
        Parsed::Fail(k, m, n) => {
            &&& r matches Err(e) && e.error_kind() == k && e.text() == m && e.line() == line1
            &&& advanced(ts, line0, ts1, line1, n)
        },
        Parsed::Abort => false,
    }
}

/// `reports`, for a step whose value is an optional text.
pub open spec fn reports_text(
    r: Result<Option<String>, ParseError>,
    p: Step<Option<Seq<char>>>,
    ts: Seq<Seq<char>>,
    line0: nat,
    ts1: Seq<Seq<char>>,
    line1: nat,
) -> bool {
    match p {
        Parsed::Done(v, n) => {
            &&& r matches Ok(e) && opt_text(e) == v
            &&& advanced(ts, line0, ts1, line1, n)
        },
        Parsed::Fail(k, m, n) => {
            &&& r matches Err(e) && e.error_kind() == k && e.text() == m && e.line() == line1
            &&& advanced(ts, line0, ts1, line1, n)
        },
        Parsed::Abort => false,
    }
}

pub open spec fn eof_message() -> Seq<char> {
    "Expected token but reached end of input."@
}

pub open spec fn spec_next_string(ts: Seq<Seq<char>>) -> Step<Seq<char>> {
    if ts.len() > 0 {
        Parsed::Done(ts[0], 1)
    } else {
        Parsed::Fail(ErrorKind::EndOfFile, eof_message(), 0)
    }
}

pub open spec fn spec_expect_tag(ts: Seq<Seq<char>>, tag: Seq<char>) -> Step<()> {
    if ts.len() == 0 {
        Parsed::Fail(ErrorKind::EndOfFile, Seq::empty(), 0)
    } else if ts[0] != tag {
        Parsed::Fail(ErrorKind::ExpectedTagStatement, "Expected statement "@ + tag + " but got statement "@ + ts[0], 1)
    } else {
        Parsed::Done((), 1)
    }
}

pub open spec fn spec_parse_float(ts: Seq<Seq<char>>) -> Step<Seq<char>> {
    if ts.len() == 0 {
        Parsed::Fail(ErrorKind::EndOfFile, eof_message(), 0)
    } else if is_float_literal(ts[0]) {
        Parsed::Done(ts[0], 1)
    } else {
        Parsed::Fail(ErrorKind::ExpectedFloat, "Expected floating point number but got "@ + ts[0], 1)
    }
}

pub open spec fn spec_parse_usize_step(ts: Seq<Seq<char>>) -> Step<usize> {
    if ts.len() == 0 {
        Parsed::Fail(ErrorKind::EndOfFile, eof_message(), 0)
    } else if spec_parse_usize(ts[0]) is Some {
        Parsed::Done(spec_parse_usize(ts[0])->0, 1)
    } else {
        Parsed::Fail(ErrorKind::ExpectedInteger, "Expected integer but got "@ + ts[0], 1)
    }
}

/// Three floats: red, green and blue.
pub open spec fn spec_parse_color(ts: Seq<Seq<char>>) -> Step<ColorModel> {
    let r = spec_parse_float(ts);
    let g = spec_parse_float(ts.skip(1));
    let b = spec_parse_float(ts.skip(2));
    if !(r is Done) {
        r.fail_as()
    } else if !(g is Done) {
        g.after(1).fail_as()
    } else if !(b is Done) {
        b.after(2).fail_as()
    } else {
        Parsed::Done(ColorModel { r: ts[0], g: ts[1], b: ts[2] }, 3)
    }
}

/// A color statement: `tag`, then a color.
pub open spec fn spec_color_statement(ts: Seq<Seq<char>>, tag: Seq<char>) -> Step<ColorModel> {
    let t = spec_expect_tag(ts, tag);
    if !(t is Done) {
        t.fail_as()
    } else {
        spec_parse_color(ts.skip(1)).after(1)
    }
}

/// A scalar statement: `tag`, then a float.
pub open spec fn spec_scalar_statement(ts: Seq<Seq<char>>, tag: Seq<char>) -> Step<Seq<char>> {
    let t = spec_expect_tag(ts, tag);
    if !(t is Done) {
        t.fail_as()
    } else {
        spec_parse_float(ts.skip(1)).after(1)
    }
}

pub open spec fn map_missing_message() -> Seq<char> {
    "Expected texture map name but got end of input."@
}

/// A texture map statement, if one with tag `tag` or `alt` comes next: the
/// map's file name.
pub open spec fn spec_map_statement(ts: Seq<Seq<char>>, tag: Seq<char>, alt: Seq<char>) -> Step<
    Option<Seq<char>>,
> {
    if ts.len() > 0 && (ts[0] == tag || ts[0] == alt) {
        if ts.len() > 1 {
            Parsed::Done(Some(ts[1]), 2)
        } else {
            Parsed::Fail(ErrorKind::EndOfFile, map_missing_message(), 1)
        }
    } else {
        Parsed::Done(None, 0)
    }
}

pub open spec fn illumination_message(n: usize) -> Seq<char> {
    "Unknown illumination model: "@ + decimal_text(n as nat) + "."@
}

/// An `illum` statement.
pub open spec fn spec_parse_illumination_model(ts: Seq<Seq<char>>) -> Step<IlluminationModel> {
    let t = spec_expect_tag(ts, "illum"@);
    let n = spec_parse_usize_step(ts.skip(1));
    if !(t is Done) {
        t.fail_as()
    } else if !(n is Done) {
        n.after(1).fail_as()
    } else {
        let k = ts.skip(1)[0];
        let v = spec_parse_usize(k)->0;
        if v == 0 {
            Parsed::Done(IlluminationModel::Ambient, 2)
        } else if v == 1 {
            Parsed::Done(IlluminationModel::AmbientDiffuse, 2)
        } else if v == 2 {
            Parsed::Done(IlluminationModel::AmbientDiffuseSpecular, 2)
        } else {
            Parsed::Fail(ErrorKind::UnknownIlluminationModel, illumination_message(v), 2)
        }
    }
}

/// A `newmtl` statement: the material's name.
pub open spec fn spec_parse_newmtl(ts: Seq<Seq<char>>) -> Step<Seq<char>> {
    if ts.len() == 0 {
        Parsed::Fail(ErrorKind::EndOfFile, "Expected `newmtl` but got end of input."@, 0)
    } else if ts[0] != "newmtl"@ {
        Parsed::Fail(ErrorKind::ExpectedTagStatement, "Expected `newmtl` but got "@ + ts[0] + "."@, 1)
    } else if ts.len() < 2 {
        Parsed::Fail(ErrorKind::EndOfFile, "Expected material name but got end of input."@, 1)
    } else {
        Parsed::Done(ts[1], 2)
    }
}

pub open spec fn unknown_statement_message(t: Seq<char>) -> Seq<char> {
    "Could not parse the token `"@ + t + "`."@
}

/// A map statement, as it updates the material.
pub open spec fn map_into(
    m: MaterialModel,
    p: Step<Option<Seq<char>>>,
    update: spec_fn(MaterialModel, Option<Seq<char>>) -> MaterialModel,
) -> Step<MaterialModel> {
    match p {
        Parsed::Done(v, n) => Parsed::Done(update(m, v), n),
        other => other.fail_as(),
    }
}

/// One statement of a material's body, which starts `ts`.
pub open spec fn material_statement(m: MaterialModel, ts: Seq<Seq<char>>) -> Step<MaterialModel> {
    let t = ts[0];
    if t == "Ka"@ || t == "Kd"@ || t == "Ks"@ || t == "Ke"@ {
        match spec_color_statement(ts, t) {
            Parsed::Done(c, n) => Parsed::Done(
                if t == "Ka"@ {
                    MaterialModel { color_ambient: c, ..m }
                } else if t == "Kd"@ {
                    MaterialModel { color_diffuse: c, ..m }
                } else if t == "Ks"@ {
                    MaterialModel { color_specular: c, ..m }
                } else {
                    MaterialModel { color_emissive: c, ..m }
                },
                n,
            ),
            other => other.fail_as(),
        }
    } else if t == "d"@ || t == "Ns"@ || t == "Ni"@ {
        match spec_scalar_statement(ts, t) {
            Parsed::Done(x, n) => Parsed::Done(
                if t == "d"@ {
                    MaterialModel { dissolve: x, ..m }
                } else if t == "Ns"@ {
                    MaterialModel { specular_exponent: x, ..m }
                } else {
                    MaterialModel { optical_density: Some(x), ..m }
                },
                n,
            ),
            other => other.fail_as(),
        }
    } else if t == "illum"@ {
        match spec_parse_illumination_model(ts) {
            Parsed::Done(x, n) => Parsed::Done(MaterialModel { illumination_model: x, ..m }, n),
            other => other.fail_as(),
        }
    } else if t == "map_Ka"@ {
        map_into(m, spec_map_statement(ts, t, t), |m: MaterialModel, v| MaterialModel { map_ambient: v, ..m })
    } else if t == "map_Kd"@ {
        map_into(m, spec_map_statement(ts, t, t), |m: MaterialModel, v| MaterialModel { map_diffuse: v, ..m })
    } else if t == "map_Ks"@ {
        map_into(m, spec_map_statement(ts, t, t), |m: MaterialModel, v| MaterialModel { map_specular: v, ..m })
    } else if t == "map_Ke"@ {
        map_into(m, spec_map_statement(ts, t, t), |m: MaterialModel, v| MaterialModel { map_emissive: v, ..m })
    } else if t == "map_Ns"@ {
        map_into(
            m,
            spec_map_statement(ts, t, t),
            |m: MaterialModel, v| MaterialModel { map_specular_exponent: v, ..m },
        )
    } else if t == "map_Bump"@ || t == "bump"@ {
        map_into(m, spec_map_statement(ts, t, t), |m: MaterialModel, v| MaterialModel { map_bump: v, ..m })
    } else if t == "disp"@ {
        map_into(m, spec_map_statement(ts, t, t), |m: MaterialModel, v| MaterialModel { map_displacement: v, ..m })
    } else if t == "map_d"@ {
        map_into(m, spec_map_statement(ts, t, t), |m: MaterialModel, v| MaterialModel { map_dissolve: v, ..m })
    } else if t == "decal"@ {
        map_into(m, spec_map_statement(ts, t, t), |m: MaterialModel, v| MaterialModel { map_decal: v, ..m })
    } else {
        Parsed::Fail(ErrorKind::ErrorParsingMaterial, unknown_statement_message(t), 0)
    }
}

/// The statements of a material's body, each followed by any number of
/// empty lines, up to the next `newmtl` statement or the end of the input.
pub open spec fn material_loop(m: MaterialModel, ts: Seq<Seq<char>>) -> Step<MaterialModel>
    decreases ts.len(),
{
    if ts.len() == 0 || ts[0] == "newmtl"@ {
        Parsed::Done(m, 0)
    } else {
        match material_statement(m, ts) {
            Parsed::Done(m2, n) => if 0 < n <= ts.len() {
                let k = leading_newlines(ts.skip(n as int));
                proof {
                    lemma_leading_newlines_bound(ts.skip(n as int));
                }
                material_loop(m2, ts.skip((n + k) as int)).after(n + k)
            } else {
                Parsed::Abort
            },
            other => other,
        }
    }
}

/// A material: its `newmtl` statement, empty lines, then its body.
pub open spec fn spec_parse_material(ts: Seq<Seq<char>>) -> Step<MaterialModel> {
    match spec_parse_newmtl(ts) {
        Parsed::Done(name, n) => {
            let k = leading_newlines(ts.skip(n as int));
            material_loop(default_material(name), ts.skip((n + k) as int)).after(n + k)
        },
        other => other.fail_as(),
    }
}

/// The materials at the front of `ts`.
pub open spec fn spec_materials(ts: Seq<Seq<char>>) -> Step<Seq<MaterialModel>>
    decreases ts.len(),
{
    if ts.len() > 0 && ts[0] == "newmtl"@ {
        match spec_parse_material(ts) {
            Parsed::Done(m, n) => if 0 < n <= ts.len() {
                match spec_materials(ts.skip(n as int)) {
                    Parsed::Done(ms, k) => Parsed::Done(seq![m] + ms, n + k),
                    other => other.after(n),
                }
            } else {
                Parsed::Abort
            },
            other => other.fail_as(),
        }
    } else {
        Parsed::Done(Seq::empty(), 0)
    }
}

pub open spec fn end_of_input_message(t: Seq<char>) -> Seq<char> {
    "Expected end of input but got `"@ + t + "`."@
}

/// A whole MTL file: empty lines, then materials up to the end of the input.
pub open spec fn spec_parse_mtlset(ts: Seq<Seq<char>>) -> Step<MaterialSetModel> {
    let k = leading_newlines(ts);
    match spec_materials(ts.skip(k as int)) {
        Parsed::Done(ms, n) => {
            let rest = ts.skip((k + n) as int);
            if rest.len() > 0 {
                Parsed::Fail(ErrorKind::ExpectedEndOfInput, end_of_input_message(rest[0]), k + n)
            } else {
                Parsed::Done(MaterialSetModel { materials: ms }, k + n)
            }
        },
        other => other.after(k).fail_as(),
    }
}

/// The outcome `p` of parsing the rest, after `n` tokens that gave the
/// materials `prefix`.
pub open spec fn prefixed(prefix: Seq<MaterialModel>, p: Step<Seq<MaterialModel>>, n: nat) -> Step<Seq<MaterialModel>> {
    match p {
        Parsed::Done(ms, m) => Parsed::Done(prefix + ms, n + m),
        other => other.after(n),
    }
}

/// `reports` for a statement of a material's body, which updates the
/// material to `m`.
pub open spec fn reports_statement(
    r: Result<(), ParseError>,
    p: Step<MaterialModel>,
    m: MaterialModel,
    ts: Seq<Seq<char>>,
    line0: nat,
    ts1: Seq<Seq<char>>,
    line1: nat,
) -> bool {
    match p {
        Parsed::Done(v, n) => {
            &&& r is Ok && m == v
            &&& advanced(ts, line0, ts1, line1, n)
            &&& n > 0
        },
        Parsed::Fail(k, msg, n) => {
            &&& r matches Err(e) && e.error_kind() == k && e.text() == msg && e.line() == line1
            &&& advanced(ts, line0, ts1, line1, n)
        },
        Parsed::Abort => false,
    }
}

/// One material statement, and the rest of the body after it.
pub proof fn lemma_material_loop_step(m: MaterialModel, ts: Seq<Seq<char>>)
    requires
        ts.len() > 0,
        ts[0] != "newmtl"@,
    ensures
        match material_statement(m, ts) {
            Parsed::Done(m2, n) => 0 < n <= ts.len() ==> material_loop(m, ts) == material_loop(
                m2,
                ts.skip((n + leading_newlines(ts.skip(n as int))) as int),
            ).after(n + leading_newlines(ts.skip(n as int))),
            _ => material_loop(m, ts) == material_statement(m, ts),
        },
{
}

/// One material, and the materials after it.
pub proof fn lemma_materials_step(ts: Seq<Seq<char>>)
    requires
        ts.len() > 0,
        ts[0] == "newmtl"@,
    ensures
        match spec_parse_material(ts) {
            Parsed::Done(m, c) => 0 < c && (c <= ts.len() ==> spec_materials(ts) == match spec_materials(
                ts.skip(c as int),
            ) {
                Parsed::Done(ms, k) => Parsed::Done(seq![m] + ms, c + k),
                other => other.after(c),
            }),
            other => spec_materials(ts) == other.fail_as::<Seq<MaterialModel>>(),
        },
{
}

pub proof fn lemma_prefixed_push(prefix: Seq<MaterialModel>, m: MaterialModel, p: Step<Seq<MaterialModel>>, n: nat, c: nat)
    ensures
        prefixed(prefix, match p {
            Parsed::Done(ms, k) => Parsed::Done(seq![m] + ms, c + k),
            other => other.after(c),
        }, n) == prefixed(prefix.push(m), p, n + c),
{
    if let Parsed::Done(ms, k) = p {
        assert(prefix + (seq![m] + ms) =~= prefix.push(m) + ms);
    }
}

/// A Wavefront MTL parser.
pub struct Parser {
    stream: TokenStream,
}

impl Parser {
    pub closed spec fn wf(&self) -> bool {
        self.stream.wf()
    }

    /// The tokens left to parse.
    pub closed spec fn tokens(&self) -> Seq<Seq<char>> {
        self.stream.tokens()
    }

    /// The line the parser stands on.
    pub closed spec fn line(&self) -> nat {
        self.stream.line()
    }

    pub fn new(input: &str) -> (p: Parser)
        requires
            input@.len() < usize::MAX - 1,
        ensures
            p.wf(),
            p.tokens() == tokenize(input@),
            p.line() == 1,
    {
        Parser { stream: TokenStream::new(input) }
    }

    fn error<T>(&self, kind: ErrorKind, message: String) -> (r: Result<T, ParseError>)
        ensures
            r matches Err(e) && e.error_kind() == kind && e.text() == message@ && e.line() == self.line(),
    {
        Err(ParseError::new(self.stream.line_number(), kind, message))
    }

    fn peek(&mut self) -> (token: Option<Vec<char>>)
        requires
            old(self).wf(),
        ensures
            final(self).wf(),
            final(self).tokens() == old(self).tokens(),
            final(self).line() == old(self).line(),
            token matches Some(t) ==> old(self).tokens().len() > 0 && t@ == old(self).tokens()[0],
            token is None ==> old(self).tokens().len() == 0,
    {
        self.stream.peek()
    }

    /// Whether the next token is `tag`.
    fn peek_is(&mut self, tag: &str) -> (b: bool)
        requires
            old(self).wf(),
        ensures
            final(self).wf(),
            final(self).tokens() == old(self).tokens(),
            final(self).line() == old(self).line(),
            b == (old(self).tokens().len() > 0 && old(self).tokens()[0] == tag@),
    {
        match self.peek() {
            Some(t) => token_is(&t, tag),
            None => false,
        }
    }

    fn next(&mut self) -> (token: Option<Vec<char>>)
        requires
            old(self).wf(),
        ensures
            final(self).wf(),
            old(self).tokens().len() > 0 ==> (token matches Some(t) && t@ == old(self).tokens()[0])
                && advanced(old(self).tokens(), old(self).line(), final(self).tokens(), final(self).line(), 1),
            old(self).tokens().len() == 0 ==> token is None
                && advanced(old(self).tokens(), old(self).line(), final(self).tokens(), final(self).line(), 0),
    {
        proof {
            lemma_advanced_zero(self.tokens(), self.line());
            if self.tokens().len() > 0 {
                lemma_advanced_one(self.tokens(), self.line());
            }
        }
        let ghost ts = self.tokens();
        let token = self.stream.next();
        proof {
            if ts.len() == 0 {
                assert(self.tokens() =~= ts);
            }
        }
        token
    }

    fn next_string(&mut self) -> (r: Result<Vec<char>, ParseError>)
        requires
            old(self).wf(),
        ensures
            final(self).wf(),
            reports(r, spec_next_string(old(self).tokens()), old(self).tokens(), old(self).line(),
                final(self).tokens(), final(self).line()),
    {
        match self.next() {
            Some(st) => Ok(st),
            None => self.error(ErrorKind::EndOfFile, text_of("Expected token but reached end of input.")),
        }
    }

    pub fn expect_tag(&mut self, tag: &str) -> (r: Result<(), ParseError>)
        requires
            old(self).wf(),
        ensures
            final(self).wf(),
            reports(r, spec_expect_tag(old(self).tokens(), tag@), old(self).tokens(), old(self).line(),
                final(self).tokens(), final(self).line()),
    {
        match self.next() {
            None => self.error(ErrorKind::EndOfFile, String::new()),
            Some(st) => {
                if !token_is(&st, tag) {
                    let mut m = text_of("Expected statement ");
                    m.append(tag);
                    m.append(" but got statement ");
                    let got = chars_to_string(st.as_slice());
                    m.append(got.as_str());
                    self.error(ErrorKind::ExpectedTagStatement, m)
                } else {
                    Ok(())
                }
            },
        }
    }

    pub fn skip_zero_or_more_newlines(&mut self)
        requires
            old(self).wf(),
        ensures
            final(self).wf(),
            advanced(old(self).tokens(), old(self).line(), final(self).tokens(), final(self).line(),
                leading_newlines(old(self).tokens())),
    {
        let ghost ts = self.tokens();
        let ghost l0 = self.line();
        proof {
            lemma_advanced_zero(ts, l0);
        }
        let ghost mut n: nat = 0;
        while self.peek_is("\n")
            invariant
                self.wf(),
                advanced(ts, l0, self.tokens(), self.line(), n),
                leading_newlines(ts) == n + leading_newlines(self.tokens()),
            decreases self.tokens().len(),
        {
            let ghost ts1 = self.tokens();
            let ghost l1 = self.line();
            self.next();
            proof {
                lemma_advanced_trans(ts, l0, ts1, l1, n, self.tokens(), self.line(), 1);
                n = n + 1;
            }
        }
    }

    /// Parses a floating point literal; the result is the literal's text.
    pub fn parse_f64(&mut self) -> (r: Result<String, ParseError>)
        requires
            old(self).wf(),
        ensures
            final(self).wf(),
            reports(r, spec_parse_float(old(self).tokens()), old(self).tokens(), old(self).line(),
                final(self).tokens(), final(self).line()),
    {
        let st = self.next_string()?;
        if is_float_token(&st) {
            Ok(chars_to_string(st.as_slice()))
        } else {
            let m = concat2("Expected floating point number but got ", st.as_slice());
            self.error(ErrorKind::ExpectedFloat, m)
        }
    }

    pub fn parse_usize(&mut self) -> (r: Result<usize, ParseError>)
        requires
            old(self).wf(),
        ensures
            final(self).wf(),
            reports(r, spec_parse_usize_step(old(self).tokens()), old(self).tokens(), old(self).line(),
                final(self).tokens(), final(self).line()),
    {
        let st = self.next_string()?;
        match parse_usize_token(&st) {
            Some(val) => Ok(val),
            None => {
                let m = concat2("Expected integer but got ", st.as_slice());
                self.error(ErrorKind::ExpectedInteger, m)
            },
        }
    }

    /// Parses three floats: red, green and blue.
    pub fn parse_color(&mut self) -> (r: Result<Color, ParseError>)
        requires
            old(self).wf(),
        ensures
            final(self).wf(),
            reports(r, spec_parse_color(old(self).tokens()), old(self).tokens(), old(self).line(),
                final(self).tokens(), final(self).line()),
    {
        let ghost ts = self.tokens();
        let ghost l0 = self.line();
        let r = self.parse_f64()?;
        let ghost ts1 = self.tokens();
        let ghost l1 = self.line();
        let g = self.parse_f64();
        proof {
            lemma_advanced_trans(ts, l0, ts1, l1, 1, self.tokens(), self.line(), spec_parse_float(ts1).consumed());
        }
        let g = g?;
        let ghost ts2 = self.tokens();
        let ghost l2 = self.line();
        let b = self.parse_f64();
        proof {
            lemma_advanced_trans(ts, l0, ts2, l2, 2, self.tokens(), self.line(), spec_parse_float(ts2).consumed());
            assert(ts1 =~= ts.skip(1));
            assert(ts2 =~= ts.skip(2));
        }
        let b = b?;
        Ok(Color { r: r, g: g, b: b })
    }

    fn color_statement(&mut self, tag: &str) -> (r: Result<Color, ParseError>)
        requires
            old(self).wf(),
        ensures
            final(self).wf(),
            reports(r, spec_color_statement(old(self).tokens(), tag@), old(self).tokens(), old(self).line(),
                final(self).tokens(), final(self).line()),
    {
        let ghost ts = self.tokens();
        let ghost l0 = self.line();
        self.expect_tag(tag)?;
        let ghost ts1 = self.tokens();
        let ghost l1 = self.line();
        let c = self.parse_color();
        proof {
            lemma_advanced_trans(ts, l0, ts1, l1, 1, self.tokens(), self.line(), spec_parse_color(ts1).consumed());
            assert(ts1 =~= ts.skip(1));
        }
        c
    }

    /// Parses a `Ka` statement.
    pub fn parse_ambient_component(&mut self) -> (r: Result<Color, ParseError>)
        requires
            old(self).wf(),
        ensures
            final(self).wf(),
            reports(r, spec_color_statement(old(self).tokens(), "Ka"@), old(self).tokens(), old(self).line(),
                final(self).tokens(), final(self).line()),
    {
        self.color_statement("Ka")
    }

    /// Parses a `Kd` statement.
    pub fn parse_diffuse_component(&mut self) -> (r: Result<Color, ParseError>)
        requires
            old(self).wf(),
        ensures
            final(self).wf(),
            reports(r, spec_color_statement(old(self).tokens(), "Kd"@), old(self).tokens(), old(self).line(),
                final(self).tokens(), final(self).line()),
    {
        self.color_statement("Kd")
    }

    /// Parses a `Ks` statement.
    pub fn parse_specular_component(&mut self) -> (r: Result<Color, ParseError>)
        requires
            old(self).wf(),
        ensures
            final(self).wf(),
            reports(r, spec_color_statement(old(self).tokens(), "Ks"@), old(self).tokens(), old(self).line(),
                final(self).tokens(), final(self).line()),
    {
        self.color_statement("Ks")
    }

    /// Parses a `Ke` statement.
    pub fn parse_emissive_component(&mut self) -> (r: Result<Color, ParseError>)
        requires
            old(self).wf(),
        ensures
            final(self).wf(),
            reports(r, spec_color_statement(old(self).tokens(), "Ke"@), old(self).tokens(), old(self).line(),
                final(self).tokens(), final(self).line()),
    {
        self.color_statement("Ke")
    }

    fn scalar_statement(&mut self, tag: &str) -> (r: Result<String, ParseError>)
        requires
            old(self).wf(),
        ensures
            final(self).wf(),
            reports(r, spec_scalar_statement(old(self).tokens(), tag@), old(self).tokens(), old(self).line(),
                final(self).tokens(), final(self).line()),
    {
        let ghost ts = self.tokens();
        let ghost l0 = self.line();
        self.expect_tag(tag)?;
        let ghost ts1 = self.tokens();
        let ghost l1 = self.line();
        let x = self.parse_f64();
        proof {
            lemma_advanced_trans(ts, l0, ts1, l1, 1, self.tokens(), self.line(), spec_parse_float(ts1).consumed());
            assert(ts1 =~= ts.skip(1));
        }
        x
    }

    /// Parses a `d` statement: the dissolve.
    pub fn parse_dissolve_component(&mut self) -> (r: Result<String, ParseError>)
        requires
            old(self).wf(),
        ensures
            final(self).wf(),
            reports(r, spec_scalar_statement(old(self).tokens(), "d"@), old(self).tokens(), old(self).line(),
                final(self).tokens(), final(self).line()),
    {
        self.scalar_statement("d")
    }

    /// Parses an `Ns` statement: the specular exponent.
    pub fn parse_specular_exponent(&mut self) -> (r: Result<String, ParseError>)
        requires
            old(self).wf(),
        ensures
            final(self).wf(),
            reports(r, spec_scalar_statement(old(self).tokens(), "Ns"@), old(self).tokens(), old(self).line(),
                final(self).tokens(), final(self).line()),
    {
        self.scalar_statement("Ns")
    }

    /// Parses an `Ni` statement: the optical density.
    pub fn parse_optical_density(&mut self) -> (r: Result<String, ParseError>)
        requires
            old(self).wf(),
        ensures
            final(self).wf(),
            reports(r, spec_scalar_statement(old(self).tokens(), "Ni"@), old(self).tokens(), old(self).line(),
                final(self).tokens(), final(self).line()),
    {
        self.scalar_statement("Ni")
    }

    fn map_statement(&mut self, tag: &str, alt: &str) -> (r: Result<Option<String>, ParseError>)
        requires
            old(self).wf(),
        ensures
            final(self).wf(),
            reports_text(r, spec_map_statement(old(self).tokens(), tag@, alt@), old(self).tokens(),
                old(self).line(), final(self).tokens(), final(self).line()),
    {
        let ghost ts = self.tokens();
        let ghost l0 = self.line();
        proof {
            lemma_advanced_zero(ts, l0);
        }
        if !(self.peek_is(tag) || self.peek_is(alt)) {
            return Ok(None);
        }
        self.next();
        let ghost ts1 = self.tokens();
        let ghost l1 = self.line();
        let name = self.next();
        proof {
            if ts1.len() > 0 {
                lemma_advanced_trans(ts, l0, ts1, l1, 1, self.tokens(), self.line(), 1);
            } else {
                lemma_advanced_trans(ts, l0, ts1, l1, 1, self.tokens(), self.line(), 0);
            }
        }
        match name {
            Some(st) => Ok(Some(chars_to_string(st.as_slice()))),
            None => self.error(ErrorKind::EndOfFile, text_of("Expected texture map name but got end of input.")),
        }
    }

    /// Parses a `map_Ka` statement, if one comes next.
    pub fn parse_map_ambient(&mut self) -> (r: Result<Option<String>, ParseError>)
        requires
            old(self).wf(),
        ensures
            final(self).wf(),
            reports_text(r, spec_map_statement(old(self).tokens(), "map_Ka"@, "map_Ka"@), old(self).tokens(),
                old(self).line(), final(self).tokens(), final(self).line()),
    {
        self.map_statement("map_Ka", "map_Ka")
    }

    /// Parses a `map_Kd` statement, if one comes next.
    pub fn parse_map_diffuse(&mut self) -> (r: Result<Option<String>, ParseError>)
        requires
            old(self).wf(),
        ensures
            final(self).wf(),
            reports_text(r, spec_map_statement(old(self).tokens(), "map_Kd"@, "map_Kd"@), old(self).tokens(),
                old(self).line(), final(self).tokens(), final(self).line()),
    {
        self.map_statement("map_Kd", "map_Kd")
    }

    /// Parses a `map_Ks` statement, if one comes next.
    pub fn parse_map_specular(&mut self) -> (r: Result<Option<String>, ParseError>)
        requires
            old(self).wf(),
        ensures
            final(self).wf(),
            reports_text(r, spec_map_statement(old(self).tokens(), "map_Ks"@, "map_Ks"@), old(self).tokens(),
                old(self).line(), final(self).tokens(), final(self).line()),
    {
        self.map_statement("map_Ks", "map_Ks")
    }

    /// Parses a `map_Ke` statement, if one comes next.
    pub fn parse_map_emissive(&mut self) -> (r: Result<Option<String>, ParseError>)
        requires
            old(self).wf(),
        ensures
            final(self).wf(),
            reports_text(r, spec_map_statement(old(self).tokens(), "map_Ke"@, "map_Ke"@), old(self).tokens(),
                old(self).line(), final(self).tokens(), final(self).line()),
    {
        self.map_statement("map_Ke", "map_Ke")
    }

    /// Parses a `map_Bump` or `bump` statement, if one comes next.
    pub fn parse_map_bump(&mut self) -> (r: Result<Option<String>, ParseError>)
        requires
            old(self).wf(),
        ensures
            final(self).wf(),
            reports_text(r, spec_map_statement(old(self).tokens(), "map_Bump"@, "bump"@), old(self).tokens(),
                old(self).line(), final(self).tokens(), final(self).line()),
    {
        self.map_statement("map_Bump", "bump")
    }

    /// Parses a `disp` statement, if one comes next.
    pub fn parse_map_displacement(&mut self) -> (r: Result<Option<String>, ParseError>)
        requires
            old(self).wf(),
        ensures
            final(self).wf(),
            reports_text(r, spec_map_statement(old(self).tokens(), "disp"@, "disp"@), old(self).tokens(),
                old(self).line(), final(self).tokens(), final(self).line()),
    {
        self.map_statement("disp", "disp")
    }

    /// Parses a `map_d` statement, if one comes next.
    pub fn parse_map_dissolve(&mut self) -> (r: Result<Option<String>, ParseError>)
        requires
            old(self).wf(),
        ensures
            final(self).wf(),
            reports_text(r, spec_map_statement(old(self).tokens(), "map_d"@, "map_d"@), old(self).tokens(),
                old(self).line(), final(self).tokens(), final(self).line()),
    {
        self.map_statement("map_d", "map_d")
    }

    /// Parses a `decal` statement, if one comes next.
    pub fn parse_map_decal(&mut self) -> (r: Result<Option<String>, ParseError>)
        requires
            old(self).wf(),
        ensures
            final(self).wf(),
            reports_text(r, spec_map_statement(old(self).tokens(), "decal"@, "decal"@), old(self).tokens(),
                old(self).line(), final(self).tokens(), final(self).line()),
    {
        self.map_statement("decal", "decal")
    }

    /// Parses a `map_Ns` statement, if one comes next.
    pub fn parse_map_specular_exponent(&mut self) -> (r: Result<Option<String>, ParseError>)
        requires
            old(self).wf(),
        ensures
            final(self).wf(),
            reports_text(r, spec_map_statement(old(self).tokens(), "map_Ns"@, "map_Ns"@), old(self).tokens(),
                old(self).line(), final(self).tokens(), final(self).line()),
    {
        self.map_statement("map_Ns", "map_Ns")
    }

    /// Parses an `illum` statement.
    pub fn parse_illumination_model(&mut self) -> (r: Result<IlluminationModel, ParseError>)
        requires
            old(self).wf(),
        ensures
            final(self).wf(),
            reports(r, spec_parse_illumination_model(old(self).tokens()), old(self).tokens(), old(self).line(),
                final(self).tokens(), final(self).line()),
    {
        let ghost ts = self.tokens();
        let ghost l0 = self.line();
        self.expect_tag("illum")?;
        let ghost ts1 = self.tokens();
        let ghost l1 = self.line();
        let n = self.parse_usize();
        proof {
            lemma_advanced_trans(ts, l0, ts1, l1, 1, self.tokens(), self.line(),
                spec_parse_usize_step(ts1).consumed());
            assert(ts1 =~= ts.skip(1));
        }
        let n = n?;
        if n == 0 {
            Ok(IlluminationModel::Ambient)
        } else if n == 1 {
            Ok(IlluminationModel::AmbientDiffuse)
        } else if n == 2 {
            Ok(IlluminationModel::AmbientDiffuseSpecular)
        } else {
            let mut m = text_of("Unknown illumination model: ");
            push_decimal(&mut m, n);
            m.append(".");
            self.error(ErrorKind::UnknownIlluminationModel, m)
        }
    }

    /// Parses a `newmtl` statement: the material's name.
    pub fn parse_newmtl(&mut self) -> (r: Result<String, ParseError>)
        requires
            old(self).wf(),
        ensures
            final(self).wf(),
            reports(r, spec_parse_newmtl(old(self).tokens()), old(self).tokens(), old(self).line(),
                final(self).tokens(), final(self).line()),
    {
        let ghost ts = self.tokens();
        let ghost l0 = self.line();
        match self.next() {
            Some(st) => {
                if !token_is(&st, "newmtl") {
                    let m = concat3("Expected `newmtl` but got ", st.as_slice(), ".");
                    return self.error(ErrorKind::ExpectedTagStatement, m);
                }
            },
            None => {
                return self.error(ErrorKind::EndOfFile, text_of("Expected `newmtl` but got end of input."));
            },
        }
        let ghost ts1 = self.tokens();
        let ghost l1 = self.line();
        let name = self.next();
        proof {
            if ts1.len() > 0 {
                lemma_advanced_trans(ts, l0, ts1, l1, 1, self.tokens(), self.line(), 1);
            } else {
                lemma_advanced_trans(ts, l0, ts1, l1, 1, self.tokens(), self.line(), 0);
            }
        }
        match name {
            Some(st) => Ok(chars_to_string(st.as_slice())),
            None => self.error(ErrorKind::EndOfFile, text_of("Expected material name but got end of input.")),
        }
    }


    /// One statement of a material's body.
    fn material_statement(&mut self, m: &mut Material) -> (r: Result<(), ParseError>)
        requires
            old(self).wf(),
            old(self).tokens().len() > 0,
        ensures
            final(self).wf(),
            reports_statement(r, material_statement(old(m)@, old(self).tokens()), final(m)@,
                old(self).tokens(), old(self).line(), final(self).tokens(), final(self).line()),
    {
        let ghost ts = self.tokens();
        let ghost l0 = self.line();
        let ghost m0 = m@;
        let token = match self.peek() {
            Some(t) => t,
            None => {
                return self.error(ErrorKind::EndOfFile, String::new());
            },
        };
        if token_is(&token, "Ka") {
            m.color_ambient = self.parse_ambient_component()?;
        } else if token_is(&token, "Kd") {
            m.color_diffuse = self.parse_diffuse_component()?;
        } else if token_is(&token, "Ks") {
            m.color_specular = self.parse_specular_component()?;
        } else if token_is(&token, "Ke") {
            m.color_emissive = self.parse_emissive_component()?;
        } else if token_is(&token, "d") {
            m.dissolve = self.parse_dissolve_component()?;
        } else if token_is(&token, "Ns") {
            m.specular_exponent = self.parse_specular_exponent()?;
        } else if token_is(&token, "Ni") {
            let optical_density = self.parse_optical_density()?;
            m.optical_density = Some(optical_density);
        } else if token_is(&token, "illum") {
            m.illumination_model = self.parse_illumination_model()?;
        } else if token_is(&token, "map_Ka") {
            m.map_ambient = self.parse_map_ambient()?;
        } else if token_is(&token, "map_Kd") {
            m.map_diffuse = self.parse_map_diffuse()?;
        } else if token_is(&token, "map_Ks") {
            m.map_specular = self.parse_map_specular()?;
        } else if token_is(&token, "map_Ke") {
            m.map_emissive = self.parse_map_emissive()?;
        } else if token_is(&token, "map_Ns") {
            m.map_specular_exponent = self.parse_map_specular_exponent()?;
        } else if token_is(&token, "map_Bump") || token_is(&token, "bump") {
            m.map_bump = self.parse_map_bump()?;
        } else if token_is(&token, "disp") {
            m.map_displacement = self.parse_map_displacement()?;
        } else if token_is(&token, "map_d") {
            m.map_dissolve = self.parse_map_dissolve()?;
        } else if token_is(&token, "decal") {
            m.map_decal = self.parse_map_decal()?;
        } else {
            proof {
                lemma_advanced_zero(ts, l0);
            }
            let msg = concat3("Could not parse the token `", token.as_slice(), "`.");
            return self.error(ErrorKind::ErrorParsingMaterial, msg);
        }
        proof {
            assert(m@ == done_value(material_statement(m0, ts)));
        }
        Ok(())
    }

    /// Parses one material: its `newmtl` statement, then its body.
    fn parse_material(&mut self) -> (r: Result<Material, ParseError>)
        requires
            old(self).wf(),
        ensures
            final(self).wf(),
            reports(r, spec_parse_material(old(self).tokens()), old(self).tokens(), old(self).line(),
                final(self).tokens(), final(self).line()),
    {
        let ghost ts = self.tokens();
        let ghost l0 = self.line();
        let mut material = Material::new();
        let name = self.parse_newmtl()?;
        material.name = name;
        let ghost n0 = spec_parse_newmtl(ts).consumed();
        let ghost ts0 = self.tokens();
        let ghost ln0 = self.line();
        self.skip_zero_or_more_newlines();
        let ghost ts1 = self.tokens();
        let ghost l1 = self.line();
        let ghost k0 = leading_newlines(ts0);
        proof {
            lemma_leading_newlines_bound(ts0);
            lemma_advanced_trans(ts, l0, ts0, ln0, n0, ts1, l1, k0);
            assert(ts1 =~= ts.skip((n0 + k0) as int));
            assert(material@ == default_material(material.name@));
            lemma_advanced_zero(ts1, l1);
        }
        let ghost name0 = material.name@;
        let ghost mut n: nat = 0;
        loop
            invariant
                self.wf(),
                ts == old(self).tokens(),
                l0 == old(self).line(),
                advanced(ts, l0, ts1, l1, n0 + k0),
                advanced(ts1, l1, self.tokens(), self.line(), n),
                material_loop(default_material(name0), ts1) == material_loop(material@, self.tokens()).after(n),
                spec_parse_material(ts) == material_loop(default_material(name0), ts1).after(n0 + k0),
            decreases self.tokens().len(),
        {
            let at_end = match self.peek() {
                None => true,
                Some(t) => token_is(&t, "newmtl"),
            };
            if at_end {
                proof {
                    lemma_advanced_trans(ts, l0, ts1, l1, n0 + k0, self.tokens(), self.line(), n);
                    lemma_after_after(material_loop(material@, self.tokens()), n, n0 + k0);
                }
                return Ok(material);
            }
            let ghost tsk = self.tokens();
            let ghost lk = self.line();
            let ghost mk = material@;
            let step = self.material_statement(&mut material);
            proof {
                lemma_material_loop_step(mk, tsk);
            }
            match step {
                Ok(()) => {},
                Err(e) => {
                    proof {
                        let c = material_statement(mk, tsk).consumed();
                        lemma_advanced_trans(ts1, l1, tsk, lk, n, self.tokens(), self.line(), c);
                        lemma_advanced_trans(ts, l0, ts1, l1, n0 + k0, self.tokens(), self.line(), n + c);
                        lemma_after_after(material_statement(mk, tsk), n, n0 + k0);
                    }
                    return Err(e);
                },
            }
            let ghost c = material_statement(mk, tsk).consumed();
            let ghost ts2 = self.tokens();
            let ghost l2 = self.line();
            self.skip_zero_or_more_newlines();
            proof {
                let k = leading_newlines(ts2);
                lemma_leading_newlines_bound(ts2);
                lemma_advanced_trans(tsk, lk, ts2, l2, c, self.tokens(), self.line(), k);
                lemma_advanced_trans(ts1, l1, tsk, lk, n, self.tokens(), self.line(), c + k);
                assert(self.tokens() =~= tsk.skip((c + k) as int));
                lemma_after_after(material_loop(material@, self.tokens()), c + k, n);
                n = n + c + k;
            }
        }
    }

    /// Parses an MTL file.
    pub fn parse_mtlset(&mut self) -> (r: Result<MaterialSet, ParseError>)
        requires
            old(self).wf(),
        ensures
            final(self).wf(),
            reports(r, spec_parse_mtlset(old(self).tokens()), old(self).tokens(), old(self).line(),
                final(self).tokens(), final(self).line()),
    {
        let ghost ts = self.tokens();
        let ghost l0 = self.line();
        self.skip_zero_or_more_newlines();
        let ghost k = leading_newlines(ts);
        let ghost tsk = self.tokens();
        let mut materials: Vec<Material> = Vec::new();
        let ghost mut n: nat = 0;
        proof {
            lemma_leading_newlines_bound(ts);
            assert(tsk =~= ts.skip(k as int));
            lemma_advanced_zero(tsk, self.line());
            assert(material_views(materials@) =~= Seq::<MaterialModel>::empty());
            let p = spec_materials(tsk);
            if let Parsed::Done(ms, m) = p {
                assert(Seq::<MaterialModel>::empty() + ms =~= ms);
            }
        }
        let ghost lk = self.line();
        while self.peek_is("newmtl")
            invariant
                self.wf(),
                ts == old(self).tokens(),
                l0 == old(self).line(),
                k == leading_newlines(ts),
                tsk == ts.skip(k as int),
                advanced(ts, l0, tsk, lk, k),
                advanced(tsk, lk, self.tokens(), self.line(), n),
                spec_materials(tsk) == prefixed(material_views(materials@), spec_materials(self.tokens()), n),
            decreases self.tokens().len(),
        {
            let ghost tsj = self.tokens();
            let ghost lj = self.line();
            let ghost before = material_views(materials@);
            proof {
                lemma_materials_step(tsj);
            }
            let material = self.parse_material();
            match material {
                Ok(material) => {
                    let ghost c = spec_parse_material(tsj).consumed();
                    let ghost mm = material@;
                    materials.push(material);
                    proof {
                        lemma_advanced_trans(tsk, lk, tsj, lj, n, self.tokens(), self.line(), c);
                        assert(material_views(materials@) =~= before.push(mm));
                        lemma_prefixed_push(before, mm, spec_materials(self.tokens()), n, c);
                        n = n + c;
                    }
                },
                Err(e) => {
                    proof {
                        let c = spec_parse_material(tsj).consumed();
                        lemma_advanced_trans(tsk, lk, tsj, lj, n, self.tokens(), self.line(), c);
                        lemma_advanced_trans(ts, l0, tsk, lk, k, self.tokens(), self.line(), n + c);
                        assert(spec_materials(tsk) == spec_parse_material(tsj).fail_as::<Seq<MaterialModel>>().after(n));
                        assert(spec_parse_material(tsj) is Fail);
                        assert(spec_materials(tsk) is Fail);
                        assert(spec_parse_mtlset(ts) == spec_materials(tsk).after(k).fail_as::<MaterialSetModel>());
                    }
                    return Err(e);
                },
            }
        }
        proof {
            lemma_advanced_trans(ts, l0, tsk, lk, k, self.tokens(), self.line(), n);
            assert(material_views(materials@) + Seq::<MaterialModel>::empty() =~= material_views(materials@));
            assert(self.tokens() =~= ts.skip((k + n) as int));
        }
        match self.peek() {
            Some(st) => {
                proof {
                    lemma_advanced_zero(self.tokens(), self.line());
                }
                let m = concat3("Expected end of input but got `", st.as_slice(), "`.");
                self.error(ErrorKind::ExpectedEndOfInput, m)
            },
            None => Ok(MaterialSet { materials: materials }),
        }
    }
}

/// What parsing the text `input` as an MTL file gives, as `r` reports it:
/// the materials, or the error with the line it was found on.
pub open spec fn parse_reports(r: Result<MaterialSet, ParseError>, input: Seq<char>) -> bool {
    match spec_parse_mtlset(tokenize(input)) {
        Parsed::Done(set, _) => r matches Ok(s) && s@ == set,
        Parsed::Fail(k, m, n) => r matches Err(e) && e.error_kind() == k && e.text() == m && e.line() == 1
            + crate::lexer::newline_tokens(tokenize(input).take(n as int)),
        Parsed::Abort => false,
    }
}

/// Parses a material library from a string.
pub fn parse(input: &str) -> (r: Result<MaterialSet, ParseError>)
    requires
        input@.len() < usize::MAX - 1,
    ensures
        parse_reports(r, input@),
{
    let mut parser = Parser::new(input);
    parser.parse_mtlset()
}


} // verus!

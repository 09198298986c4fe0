use vstd::prelude::*;

use crate::decimal::{
    decimal_digits, lemma_decimal_value_nonneg, lemma_digits_round_trip, lemma_value_round_trip, no_leading_zero,
    parse_index, parse_index_str, push_decimal,
};
use crate::validation::Checked;
use crate::value::{Number, Value};

verus! {

/// Corresponds to `GL_POINTS`.
pub const POINTS: u32 = 0;

/// Corresponds to `GL_LINES`.
pub const LINES: u32 = 1;

/// Corresponds to `GL_LINE_LOOP`.
pub const LINE_LOOP: u32 = 2;

/// Corresponds to `GL_LINE_STRIP`.
pub const LINE_STRIP: u32 = 3;

/// Corresponds to `GL_TRIANGLES`.
pub const TRIANGLES: u32 = 4;

/// Corresponds to `GL_TRIANGLE_STRIP`.
pub const TRIANGLE_STRIP: u32 = 5;

/// Corresponds to `GL_TRIANGLE_FAN`.
pub const TRIANGLE_FAN: u32 = 6;

/// The type of primitives to render.
#[derive(Clone, Copy, Debug, PartialEq, Eq, Structural)]
pub enum Mode {
    /// Corresponds to `GL_POINTS`.
    Points,
    /// Corresponds to `GL_LINES`.
    Lines,
    /// Corresponds to `GL_LINE_LOOP`.
    LineLoop,
    /// Corresponds to `GL_LINE_STRIP`.
    LineStrip,
    /// Corresponds to `GL_TRIANGLES`.
    Triangles,
    /// Corresponds to `GL_TRIANGLE_STRIP`.
    TriangleStrip,
    /// Corresponds to `GL_TRIANGLE_FAN`.
    TriangleFan,
}

impl View for Mode {
    type V = Mode;

    open spec fn view(&self) -> Mode {
        *self
    }
}

/// The mode that the code `code` stands for, if any.
pub open spec fn mode_of_code(code: int) -> Checked<Mode> {
    if code == 0 {
        Checked::Valid(Mode::Points)
    } else if code == 1 {
        Checked::Valid(Mode::Lines)
    } else if code == 2 {
        Checked::Valid(Mode::LineLoop)
    } else if code == 3 {
        Checked::Valid(Mode::LineStrip)
    } else if code == 4 {
        Checked::Valid(Mode::Triangles)
    } else if code == 5 {
        Checked::Valid(Mode::TriangleStrip)
    } else if code == 6 {
        Checked::Valid(Mode::TriangleFan)
    } else {
        Checked::Invalid
    }
}

/// The code of a mode.
pub open spec fn code_of_mode(m: Mode) -> int {
    match m {
        Mode::Points => 0,
        Mode::Lines => 1,
        Mode::LineLoop => 2,
        Mode::LineStrip => 3,
        Mode::Triangles => 4,
        Mode::TriangleStrip => 5,
        Mode::TriangleFan => 6,
    }
}

impl Default for Mode {
    fn default() -> (r: Mode)
        ensures
            r == Mode::Triangles,
    {
        Mode::Triangles
    }
}

impl Mode {
    /// Checks a rendering mode code: the codes 0 to 6 name the modes in
    /// declaration order, and every other integer is not recognized.
    pub fn checked(code: i128) -> (r: Checked<Mode>)
        ensures
            r == mode_of_code(code as int),
    {
        if code == POINTS as i128 {
            Checked::Valid(Mode::Points)
        } else if code == LINES as i128 {
            Checked::Valid(Mode::Lines)
        } else if code == LINE_LOOP as i128 {
            Checked::Valid(Mode::LineLoop)
        } else if code == LINE_STRIP as i128 {
            Checked::Valid(Mode::LineStrip)
        } else if code == TRIANGLES as i128 {
            Checked::Valid(Mode::Triangles)
        } else if code == TRIANGLE_STRIP as i128 {
            Checked::Valid(Mode::TriangleStrip)
        } else if code == TRIANGLE_FAN as i128 {
            Checked::Valid(Mode::TriangleFan)
        } else {
            Checked::Invalid
        }
    }

    /// The code of this mode.
    pub fn code(&self) -> (r: u32)
        ensures
            r == code_of_mode(*self),
    {
        match self {
            Mode::Points => POINTS,
            Mode::Lines => LINES,
            Mode::LineLoop => LINE_LOOP,
            Mode::LineStrip => LINE_STRIP,
            Mode::Triangles => TRIANGLES,
            Mode::TriangleStrip => TRIANGLE_STRIP,
            Mode::TriangleFan => TRIANGLE_FAN,
        }
    }
}

/// Each mode is recognized from its own code, and only the codes 0 to 6 are
/// recognized.
pub proof fn lemma_mode_codes(code: int)
    ensures
        0 <= code <= 6 ==> mode_of_code(code) is Valid && code_of_mode(
            mode_of_code(code)->Valid_0,
        ) == code,
        !(0 <= code <= 6) ==> mode_of_code(code) is Invalid,
        forall|m: Mode| #[trigger] mode_of_code(code_of_mode(m)) == Checked::Valid(m),
{
    assert forall|m: Mode| #[trigger] mode_of_code(code_of_mode(m)) == Checked::Valid(m) by {
        match m {
            Mode::Points => {},
            Mode::Lines => {},
            Mode::LineLoop => {},
            Mode::LineStrip => {},
            Mode::Triangles => {},
            Mode::TriangleStrip => {},
            Mode::TriangleFan => {},
        }
    }
}

/// Application specific data, kept as it was written.
pub type Extras = Option<Value>;

/// Extension specific data for `Mesh`. Members of any name are accepted and
/// ignored.
#[derive(Clone, Copy, Debug, Default)]
pub struct MeshExtensions {
    _allow_unknown_fields: (),
}

/// Extension specific data for `Primitive`. Members of any name are accepted
/// and ignored.
#[derive(Clone, Copy, Debug, Default)]
pub struct PrimitiveExtensions {
    _allow_unknown_fields: (),
}

impl MeshExtensions {
    /// Empty extension data.
    pub fn new() -> (r: MeshExtensions) {
        MeshExtensions { _allow_unknown_fields: () }
    }
}

impl PrimitiveExtensions {
    /// Empty extension data.
    pub fn new() -> (r: PrimitiveExtensions) {
        PrimitiveExtensions { _allow_unknown_fields: () }
    }
}

/// A set of primitives to be rendered.
///
/// A node can contain one or more meshes and its transform places the meshes in
/// the scene.
#[derive(Debug)]
pub struct Mesh {
    /// Extension specific data.
    pub extensions: MeshExtensions,
    /// Optional application specific data.
    pub extras: Extras,
    /// Optional user-defined name for this object.
    pub name: Option<String>,
    /// Defines the geometry to be rendered with a material.
    pub primitives: Vec<Primitive>,
    /// Defines the weights to be applied to the morph targets.
    pub weights: Option<Vec<Number>>,
}

/// Geometry to be rendered with the given material.
#[derive(Debug)]
pub struct Primitive {
    /// Maps attribute semantic names to the indices of the accessors holding
    /// the attribute data; no semantic occurs twice.
    pub attributes: Vec<(Checked<Semantic>, u32)>,
    /// Extension specific data.
    pub extensions: PrimitiveExtensions,
    /// Optional application specific data.
    pub extras: Extras,
    /// The index of the accessor that contains the indices.
    pub indices: Option<u32>,
    /// The index of the material to apply to this primitive when rendering.
    pub material: Option<u32>,
    /// The type of primitives to render.
    pub mode: Checked<Mode>,
    /// An array of morph targets, each mapping attributes (only `POSITION`,
    /// `NORMAL`, and `TANGENT` supported) to their deviations in the morph
    /// target.
    pub targets: Option<Vec<MorphTargets>>,
}

/// A dictionary mapping attributes to their deviations in the morph target.
#[derive(Clone, Copy, Debug, PartialEq, Eq, Structural)]
pub struct MorphTargets {
    /// XYZ vertex position displacements, written `POSITION`.
    pub positions: Option<u32>,
    /// XYZ vertex normal displacements, written `NORMAL`.
    pub normals: Option<u32>,
    /// XYZ vertex tangent displacements, written `TANGENT`.
    pub tangents: Option<u32>,
}

/// Vertex attribute semantic name.
#[derive(Clone, Debug, PartialEq, Eq, Hash)]
pub enum Semantic {
    /// Extra attribute name, written with a leading underscore.
    Extras(String),
    /// XYZ vertex positions.
    Positions,
    /// XYZ vertex normals.
    Normals,
    /// XYZW vertex tangents where the `w` component is a sign value indicating the
    /// handedness of the tangent basis.
    Tangents,
    /// RGB or RGBA vertex color.
    Colors(u32),
    /// UV texture co-ordinates.
    TexCoords(u32),
    /// Joint indices.
    Joints(u32),
    /// Joint weights.
    Weights(u32),
}

/// What a `Semantic` stands for, with the extra name as a sequence of characters.
pub enum SemanticModel {
    Extras(Seq<char>),
    Positions,
    Normals,
    Tangents,
    Colors(u32),
    TexCoords(u32),
    Joints(u32),
    Weights(u32),
}

impl View for Semantic {
    type V = SemanticModel;

    open spec fn view(&self) -> SemanticModel {
        match self {
            Semantic::Extras(name) => SemanticModel::Extras(name@),
            Semantic::Positions => SemanticModel::Positions,
            Semantic::Normals => SemanticModel::Normals,
            Semantic::Tangents => SemanticModel::Tangents,
            Semantic::Colors(n) => SemanticModel::Colors(*n),
            Semantic::TexCoords(n) => SemanticModel::TexCoords(*n),
            Semantic::Joints(n) => SemanticModel::Joints(*n),
            Semantic::Weights(n) => SemanticModel::Weights(*n),
        }
    }
}

/// Whether `s` begins with `p`.
pub open spec fn has_prefix(s: Seq<char>, p: Seq<char>) -> bool {
    p.len() <= s.len() && s.subrange(0, p.len() as int) == p
}

/// The part of `s` after its first `n` characters.
pub open spec fn after(s: Seq<char>, n: int) -> Seq<char> {
    s.subrange(n, s.len() as int)
}

/// The set index after the prefix `p`, wrapped by `f`.
pub open spec fn indexed(s: Seq<char>, p: Seq<char>, f: spec_fn(u32) -> SemanticModel) -> Checked<
    SemanticModel,
> {
    match parse_index(after(s, p.len() as int)) {
        Some(n) => Checked::Valid(f(n)),
        None => Checked::Invalid,
    }
}

/// The semantic that the attribute name `s` stands for. Names with a leading
/// underscore are extra names only when `allow_extras` holds.
pub open spec fn semantic_of_name(s: Seq<char>, allow_extras: bool) -> Checked<SemanticModel> {
    if s == "NORMAL"@ {
        Checked::Valid(SemanticModel::Normals)
    } else if s == "POSITION"@ {
        Checked::Valid(SemanticModel::Positions)
    } else if s == "TANGENT"@ {
        Checked::Valid(SemanticModel::Tangents)
    } else if allow_extras && has_prefix(s, "_"@) {
        Checked::Valid(SemanticModel::Extras(after(s, 1)))
    } else if has_prefix(s, "COLOR_"@) {
        indexed(s, "COLOR_"@, |n: u32| SemanticModel::Colors(n))
    } else if has_prefix(s, "TEXCOORD_"@) {
        indexed(s, "TEXCOORD_"@, |n: u32| SemanticModel::TexCoords(n))
    } else if has_prefix(s, "JOINTS_"@) {
        indexed(s, "JOINTS_"@, |n: u32| SemanticModel::Joints(n))
    } else if has_prefix(s, "WEIGHTS_"@) {
        indexed(s, "WEIGHTS_"@, |n: u32| SemanticModel::Weights(n))
    } else {
        Checked::Invalid
    }
}

/// The attribute name of a semantic.
pub open spec fn name_of_semantic(m: SemanticModel) -> Seq<char> {
    match m {
        SemanticModel::Extras(name) => "_"@ + name,
        SemanticModel::Positions => "POSITION"@,
        SemanticModel::Normals => "NORMAL"@,
        SemanticModel::Tangents => "TANGENT"@,
        SemanticModel::Colors(n) => "COLOR_"@ + decimal_digits(n as nat),
        SemanticModel::TexCoords(n) => "TEXCOORD_"@ + decimal_digits(n as nat),
        SemanticModel::Joints(n) => "JOINTS_"@ + decimal_digits(n as nat),
        SemanticModel::Weights(n) => "WEIGHTS_"@ + decimal_digits(n as nat),
    }
}

/// The text shown for an attribute name that was not recognized.
pub open spec fn invalid_semantic_text() -> Seq<char> {
    "<invalid semantic name>"@
}

/// Whether every set index in `s` is written without a superfluous leading zero.
pub open spec fn index_unpadded(s: Seq<char>) -> bool {
    &&& has_prefix(s, "COLOR_"@) ==> no_leading_zero(after(s, 6))
    &&& has_prefix(s, "TEXCOORD_"@) ==> no_leading_zero(after(s, 9))
    &&& has_prefix(s, "JOINTS_"@) ==> no_leading_zero(after(s, 7))
    &&& has_prefix(s, "WEIGHTS_"@) ==> no_leading_zero(after(s, 8))
}

proof fn lemma_indexed_round_trip(p: Seq<char>, n: u32)
    ensures
        has_prefix(p + decimal_digits(n as nat), p),
        after(p + decimal_digits(n as nat), p.len() as int) == decimal_digits(n as nat),
        parse_index(decimal_digits(n as nat)) == Some(n),
{
    let s = p + decimal_digits(n as nat);
    assert(s.subrange(0, p.len() as int) =~= p);
    assert(after(s, p.len() as int) =~= decimal_digits(n as nat));
    lemma_digits_round_trip(n as nat);
}

/// Writing a semantic as an attribute name and decoding that name gives the
/// semantic back. Extra names come back only where they are allowed.
pub proof fn lemma_semantic_round_trip(m: SemanticModel, allow_extras: bool)
    requires
        m is Extras ==> allow_extras,
    ensures
        semantic_of_name(name_of_semantic(m), allow_extras) == Checked::Valid(m),
{
    reveal_strlit("NORMAL");
    reveal_strlit("POSITION");
    reveal_strlit("TANGENT");
    reveal_strlit("_");
    reveal_strlit("COLOR_");
    reveal_strlit("TEXCOORD_");
    reveal_strlit("JOINTS_");
    reveal_strlit("WEIGHTS_");
    let s = name_of_semantic(m);
    match m {
        SemanticModel::Extras(name) => {
            assert(s[0] == '_');
            assert(s.subrange(0, 1) =~= "_"@);
            assert(after(s, 1) =~= name);
        },
        SemanticModel::Positions => {},
        SemanticModel::Normals => {},
        SemanticModel::Tangents => {},
        SemanticModel::Colors(n) => {
            lemma_indexed_round_trip("COLOR_"@, n);
            assert(s[0] == 'C');
            assert(s.len() > 6);
        },
        SemanticModel::TexCoords(n) => {
            lemma_indexed_round_trip("TEXCOORD_"@, n);
            assert(s[0] == 'T' && s[1] == 'E');
            assert(s.len() > 9);
        },
        SemanticModel::Joints(n) => {
            lemma_indexed_round_trip("JOINTS_"@, n);
            assert(s[0] == 'J');
            assert(s.len() > 7);
        },
        SemanticModel::Weights(n) => {
            lemma_indexed_round_trip("WEIGHTS_"@, n);
            assert(s[0] == 'W');
            assert(s.len() > 8);
        },
    }
}

proof fn lemma_index_name(s: Seq<char>, p: Seq<char>)
    requires
        has_prefix(s, p),
        parse_index(after(s, p.len() as int)) is Some,
        no_leading_zero(after(s, p.len() as int)),
    ensures
        p + decimal_digits(parse_index(after(s, p.len() as int))->0 as nat) == s,
{
    let rest = after(s, p.len() as int);
    lemma_decimal_value_nonneg(rest);
    lemma_value_round_trip(rest);
    assert(p + rest =~= s);
}

/// A recognized attribute name whose set index has no superfluous leading
/// zero is exactly the name that its semantic is written as.
pub proof fn lemma_name_round_trip(s: Seq<char>, allow_extras: bool)
    requires
        semantic_of_name(s, allow_extras) is Valid,
        index_unpadded(s),
    ensures
        name_of_semantic(semantic_of_name(s, allow_extras)->Valid_0) == s,
{
    reveal_strlit("NORMAL");
    reveal_strlit("POSITION");
    reveal_strlit("TANGENT");
    reveal_strlit("_");
    reveal_strlit("COLOR_");
    reveal_strlit("TEXCOORD_");
    reveal_strlit("JOINTS_");
    reveal_strlit("WEIGHTS_");
    if s == "NORMAL"@ || s == "POSITION"@ || s == "TANGENT"@ {
    } else if allow_extras && has_prefix(s, "_"@) {
        assert("_"@ + after(s, 1) =~= s);
    } else if has_prefix(s, "COLOR_"@) {
        lemma_index_name(s, "COLOR_"@);
    } else if has_prefix(s, "TEXCOORD_"@) {
        lemma_index_name(s, "TEXCOORD_"@);
    } else if has_prefix(s, "JOINTS_"@) {
        lemma_index_name(s, "JOINTS_"@);
    } else {
        lemma_index_name(s, "WEIGHTS_"@);
    }
}

/// Whether two strings hold the same characters.
pub fn str_eq(a: &str, b: &str) -> (r: bool)
    ensures
        r == (a@ == b@),
{
    let n = a.unicode_len();
    if n != b.unicode_len() {
        return false;
    }
    let mut i: usize = 0;
    while i < n
        invariant
            n == a@.len(),
            n == b@.len(),
            0 <= i <= n,
            forall|k: int| 0 <= k < i ==> a@[k] == b@[k],
        decreases n - i,
    {
        if a.get_char(i) != b.get_char(i) {
            return false;
        }
        i = i + 1;
    }
    assert(a@ =~= b@);
    true
}

/// Whether `s` begins with `p`.
pub fn starts_with(s: &str, p: &str) -> (r: bool)
    ensures
        r == has_prefix(s@, p@),
{
    let n = p.unicode_len();
    if n > s.unicode_len() {
        return false;
    }
    let head = s.substring_char(0, n);
    str_eq(head, p)
}

/// The set index after the prefix `p` of `s`.
fn checked_index(s: &str, p: &str) -> (r: Option<u32>)
    requires
        has_prefix(s@, p@),
    ensures
        r == parse_index(after(s@, p@.len() as int)),
{
    let rest = s.substring_char(p.unicode_len(), s.unicode_len());
    parse_index_str(rest)
}

impl Semantic {
    /// Decodes an attribute name. A name that is not recognized gives
    /// `Invalid`, never an error.
    pub fn checked(s: &str, allow_extras: bool) -> (r: Checked<Semantic>)
        ensures
            r@ == semantic_of_name(s@, allow_extras),
    {
        if str_eq(s, "NORMAL") {
            Checked::Valid(Semantic::Normals)
        } else if str_eq(s, "POSITION") {
            Checked::Valid(Semantic::Positions)
        } else if str_eq(s, "TANGENT") {
            Checked::Valid(Semantic::Tangents)
        } else if allow_extras && starts_with(s, "_") {
            proof {
                reveal_strlit("_");
            }
            let rest = s.substring_char(1, s.unicode_len());
            Checked::Valid(Semantic::Extras(String::from_str(rest)))
        } else if starts_with(s, "COLOR_") {
            match checked_index(s, "COLOR_") {
                Some(n) => Checked::Valid(Semantic::Colors(n)),
                None => Checked::Invalid,
            }
        } else if starts_with(s, "TEXCOORD_") {
            match checked_index(s, "TEXCOORD_") {
                Some(n) => Checked::Valid(Semantic::TexCoords(n)),
                None => Checked::Invalid,
            }
        } else if starts_with(s, "JOINTS_") {
            match checked_index(s, "JOINTS_") {
                Some(n) => Checked::Valid(Semantic::Joints(n)),
                None => Checked::Invalid,
            }
        } else if starts_with(s, "WEIGHTS_") {
            match checked_index(s, "WEIGHTS_") {
                Some(n) => Checked::Valid(Semantic::Weights(n)),
                None => Checked::Invalid,
            }
        } else {
            Checked::Invalid
        }
    }

    /// The attribute name of this semantic.
    pub fn to_string(&self) -> (r: String)
        ensures
            r@ == name_of_semantic(self@),
    {
        match self {
            Semantic::Positions => String::from_str("POSITION"),
            Semantic::Normals => String::from_str("NORMAL"),
            Semantic::Tangents => String::from_str("TANGENT"),
            Semantic::Colors(n) => {
                let mut r = String::from_str("COLOR_");
                push_decimal(&mut r, *n);
                r
            },
            Semantic::TexCoords(n) => {
                let mut r = String::from_str("TEXCOORD_");
                push_decimal(&mut r, *n);
                r
            },
            Semantic::Joints(n) => {
                let mut r = String::from_str("JOINTS_");
                push_decimal(&mut r, *n);
                r
            },
            Semantic::Weights(n) => {
                let mut r = String::from_str("WEIGHTS_");
                push_decimal(&mut r, *n);
                r
            },
            Semantic::Extras(name) => {
                let mut r = String::from_str("_");
                r.append(name.as_str());
                r
            },
        }
    }
}

impl Checked<Semantic> {
    /// The attribute name of a recognized semantic, or a fixed placeholder
    /// for one that was not recognized. The placeholder is for display only.
    pub fn to_string(&self) -> (r: String)
        ensures
            r@ == (match self@ {
                Checked::Valid(m) => name_of_semantic(m),
                Checked::Invalid => invalid_semantic_text(),
            }),
    {
        match self {
            Checked::Valid(semantic) => semantic.to_string(),
            Checked::Invalid => String::from_str("<invalid semantic name>"),
        }
    }
}

} // verus!

use vstd::prelude::*;

use crate::mesh::{
    mode_of_code, semantic_of_name, str_eq, Extras, Mesh, MeshExtensions, Mode, MorphTargets,
    Primitive, PrimitiveExtensions, Semantic, SemanticModel,
};
use crate::validation::Checked;
use crate::value::{
    decode_optional_index, distinct_names, error_at_index, error_at_key, error_here, field,
    index_of, optional_index, take_fields, ErrorKind, ErrorModel, Number, StructuralError, Value,
};

verus! {

/// Whether a decoder's result is the one that its specification gives.
pub open spec fn agrees<T>(r: Result<T, StructuralError>, s: Result<T, ErrorModel>) -> bool {
    match (r, s) {
        (Ok(a), Ok(b)) => a == b,
        (Err(e), Err(m)) => e@ == m,
        _ => false,
    }
}

/// The elements of `v` in the opposite order.
fn reversed<T>(v: Vec<T>) -> (r: Vec<T>)
    ensures
        r@.len() == v@.len(),
        forall|j: int| 0 <= j < v@.len() ==> r@[j] == v@[v@.len() - 1 - j],
{
    let ghost all = v@;
    let mut rest = v;
    let mut r: Vec<T> = Vec::new();
    while rest.len() > 0
        invariant
            rest@.len() + r@.len() == all.len(),
            rest@ == all.subrange(0, rest@.len() as int),
            forall|j: int| 0 <= j < r@.len() ==> r@[j] == all[all.len() - 1 - j],
        decreases rest@.len(),
    {
        let x = rest.pop().unwrap();
        r.push(x);
    }
    r
}

/// Extension data: an object whose members are all ignored, or absent.
pub open spec fn extensions_ok(f: Option<Value>) -> bool {
    match f {
        None => true,
        Some(Value::Object(_)) => true,
        _ => false,
    }
}

fn check_extensions(f: &Option<Value>) -> (r: bool)
    ensures
        r == extensions_ok(*f),
{
    match f {
        None => true,
        Some(Value::Object(_)) => true,
        _ => false,
    }
}

/// Application data: any value; null counts as absent.
pub open spec fn extras_of(f: Option<Value>) -> Extras {
    match f {
        Some(Value::Null) => None,
        _ => f,
    }
}

fn decode_extras(f: Option<Value>) -> (r: Extras)
    ensures
        r == extras_of(f),
{
    match f {
        Some(Value::Null) => None,
        _ => f,
    }
}

/// The mode member: absent means triangles; any integer is checked against
/// the known codes; anything else has the wrong type.
pub open spec fn mode_field(f: Option<Value>) -> Result<Checked<Mode>, ErrorModel> {
    match f {
        None => Ok(Checked::Valid(Mode::Triangles)),
        Some(Value::Number(Number::PosInt(n))) => Ok(mode_of_code(n as int)),
        Some(Value::Number(Number::NegInt(n))) => Ok(mode_of_code(n as int)),
        _ => Err(error_here(ErrorKind::WrongType)),
    }
}

/// Decodes the mode member of a primitive.
pub fn decode_mode(f: &Option<Value>) -> (r: Result<Checked<Mode>, StructuralError>)
    ensures
        agrees(r, mode_field(*f)),
{
    match f {
        None => Ok(Checked::Valid(Mode::default())),
        Some(Value::Number(Number::PosInt(n))) => Ok(Mode::checked(*n as i128)),
        Some(Value::Number(Number::NegInt(n))) => Ok(Mode::checked(*n as i128)),
        _ => Err(StructuralError::here(ErrorKind::WrongType)),
    }
}

/// The morph target that `v` describes.
pub open spec fn morph_targets_of(v: Value) -> Result<MorphTargets, ErrorModel> {
    match v {
        Value::Object(ms) => {
            let p = optional_index(field(ms@, "POSITION"@));
            let n = optional_index(field(ms@, "NORMAL"@));
            let t = optional_index(field(ms@, "TANGENT"@));
            if p is Err {
                Err(error_at_key("POSITION"@, p->Err_0))
            } else if n is Err {
                Err(error_at_key("NORMAL"@, n->Err_0))
            } else if t is Err {
                Err(error_at_key("TANGENT"@, t->Err_0))
            } else {
                Ok(MorphTargets { positions: p->Ok_0, normals: n->Ok_0, tangents: t->Ok_0 })
            }
        },
        _ => Err(error_here(ErrorKind::WrongType)),
    }
}

impl MorphTargets {
    /// Decodes a morph target from an object of optional accessor indices.
    pub fn decode(v: Value) -> (r: Result<MorphTargets, StructuralError>)
        ensures
            agrees(r, morph_targets_of(v)),
    {
        let ghost gv = v;
        let members = match v {
            Value::Object(ms) => ms,
            _ => {
                return Err(StructuralError::here(ErrorKind::WrongType));
            },
        };
        let names: Vec<&str> = vec!["POSITION", "NORMAL", "TANGENT"];
        proof {
            reveal_strlit("POSITION");
            reveal_strlit("NORMAL");
            reveal_strlit("TANGENT");
        }
        assert(distinct_names(names@)) by {
            assert forall|i: int, j: int| 0 <= i < j < names@.len() implies names@[i]@
                != names@[j]@ by {
                assert(names@[i]@[0] != names@[j]@[0]);
            }
        }
        let ghost gm = members@;
        let mut fields = take_fields(members, &names);
        let tangent = fields.pop().unwrap();
        let normal = fields.pop().unwrap();
        let position = fields.pop().unwrap();
        let positions = match decode_optional_index(position) {
            Ok(x) => x,
            Err(e) => {
                return Err(e.at_key("POSITION"));
            },
        };
        let normals = match decode_optional_index(normal) {
            Ok(x) => x,
            Err(e) => {
                return Err(e.at_key("NORMAL"));
            },
        };
        let tangents = match decode_optional_index(tangent) {
            Ok(x) => x,
            Err(e) => {
                return Err(e.at_key("TANGENT"));
            },
        };
        Ok(MorphTargets { positions, normals, tangents })
    }
}

/// The first morph target of `items` that does not decode, as an error at
/// its position counted from `base`.
pub open spec fn targets_error(items: Seq<Value>, base: nat) -> Option<ErrorModel>
    decreases items.len(),
{
    if items.len() == 0 {
        None
    } else {
        match morph_targets_of(items[0]) {
            Err(e) => Some(error_at_index(base, e)),
            Ok(_) => targets_error(items.drop_first(), base + 1),
        }
    }
}

/// The targets member of a primitive: absent or null, or an array of morph
/// targets.
pub open spec fn targets_field(f: Option<Value>) -> Result<Option<Seq<MorphTargets>>, ErrorModel> {
    match f {
        None => Ok(None),
        Some(Value::Null) => Ok(None),
        Some(Value::Array(items)) => match targets_error(items@, 0) {
            Some(e) => Err(e),
            None => Ok(Some(Seq::new(items@.len(), |i: int| morph_targets_of(items@[i])->Ok_0))),
        },
        _ => Err(error_here(ErrorKind::WrongType)),
    }
}

/// Whether decoded morph targets are the ones that the specification gives.
pub open spec fn targets_match(t: Option<Vec<MorphTargets>>, s: Option<Seq<MorphTargets>>) -> bool {
    match (t, s) {
        (Some(v), Some(w)) => v@ == w,
        (None, None) => true,
        _ => false,
    }
}

fn decode_targets(f: Option<Value>) -> (r: Result<Option<Vec<MorphTargets>>, StructuralError>)
    ensures
        match (r, targets_field(f)) {
            (Ok(t), Ok(s)) => targets_match(t, s),
            (Err(e), Err(m)) => e@ == m,
            _ => false,
        },
{
    let items = match f {
        None => {
            return Ok(None);
        },
        Some(Value::Null) => {
            return Ok(None);
        },
        Some(Value::Array(items)) => items,
        _ => {
            return Err(StructuralError::here(ErrorKind::WrongType));
        },
    };
    let ghost all = items@;
    let n = items.len();
    let mut rest = reversed(items);
    let mut out: Vec<MorphTargets> = Vec::new();
    let mut i: usize = 0;
    assert(all.subrange(0, n as int) =~= all);
    while i < n
        invariant
            n == all.len(),
            f is Some && f->Some_0 is Array && f->Some_0->Array_0@ == all,
            i <= n,
            rest@.len() == n - i,
            forall|j: int| 0 <= j < rest@.len() ==> rest@[j] == all[n - 1 - j],
            out@.len() == i,
            forall|j: int| 0 <= j < i ==> out@[j] == morph_targets_of(all[j])->Ok_0,
            forall|j: int| 0 <= j < i ==> morph_targets_of(all[j]) is Ok,
            targets_error(all, 0) == targets_error(all.subrange(i as int, n as int), i as nat),
        decreases n - i,
    {
        let ghost tail = all.subrange(i as int, n as int);
        assert(tail.drop_first() =~= all.subrange(i + 1, n as int));
        assert(tail[0] == all[i as int]);
        let item = rest.pop().unwrap();
        assert(item == all[i as int]);
        match MorphTargets::decode(item) {
            Ok(t) => {
                out.push(t);
            },
            Err(e) => {
                assert(morph_targets_of(all[i as int]) == Err::<MorphTargets, ErrorModel>(e@));
                assert(targets_error(tail, i as nat) == Some(error_at_index(i as nat, e@)));
                return Err(e.at_index(i));
            },
        }
        i = i + 1;
    }
    assert(all.subrange(n as int, n as int).len() == 0);
    assert(out@ =~= Seq::new(all.len(), |i: int| morph_targets_of(all[i])->Ok_0));
    Ok(Some(out))
}

/// The first attribute whose value is not an accessor index, as an error at
/// its name.
pub open spec fn attributes_error(ms: Seq<(String, Value)>) -> Option<ErrorModel>
    decreases ms.len(),
{
    if ms.len() == 0 {
        None
    } else if index_of(ms[0].1) is None {
        Some(error_at_key(ms[0].0@, error_here(ErrorKind::WrongType)))
    } else {
        attributes_error(ms.drop_first())
    }
}

/// The attribute map written by `ms`: each name decoded to its semantic, a
/// later member overriding an earlier one of the same semantic.
pub open spec fn attributes_map(ms: Seq<(String, Value)>, allow_extras: bool) -> Map<
    Checked<SemanticModel>,
    u32,
>
    decreases ms.len(),
{
    if ms.len() == 0 {
        Map::empty()
    } else {
        attributes_map(ms.drop_last(), allow_extras).insert(
            semantic_of_name(ms.last().0@, allow_extras),
            index_of(ms.last().1)->Some_0,
        )
    }
}

/// The attributes member of a primitive: a required object of accessor
/// indices.
pub open spec fn attributes_field(f: Option<Value>, allow_extras: bool) -> Result<
    Map<Checked<SemanticModel>, u32>,
    ErrorModel,
> {
    match f {
        None => Err(error_here(ErrorKind::Missing)),
        Some(Value::Object(ms)) => match attributes_error(ms@) {
            Some(e) => Err(e),
            None => Ok(attributes_map(ms@, allow_extras)),
        },
        _ => Err(error_here(ErrorKind::WrongType)),
    }
}

/// Whether the pairs `es` hold exactly the map `m`, each key once.
pub open spec fn entries_agree(es: Seq<(Checked<Semantic>, u32)>, m: Map<Checked<SemanticModel>, u32>) -> bool {
    &&& forall|i: int, j: int| 0 <= i < j < es.len() ==> (#[trigger] es[i]).0@ != (#[trigger] es[j]).0@
    &&& forall|i: int| 0 <= i < es.len() ==> m.contains_key((#[trigger] es[i]).0@) && m[es[i].0@] == es[i].1
    &&& forall|k: Checked<SemanticModel>| #[trigger] m.contains_key(k) ==> exists|i: int| 0 <= i < es.len() && (#[trigger] es[i]).0@ == k
}

/// Whether two checked semantics stand for the same thing.
pub fn same_semantic(a: &Checked<Semantic>, b: &Checked<Semantic>) -> (r: bool)
    ensures
        r == (a@ == b@),
{
    match (a, b) {
        (Checked::Invalid, Checked::Invalid) => true,
        (Checked::Valid(x), Checked::Valid(y)) => match (x, y) {
            (Semantic::Extras(p), Semantic::Extras(q)) => str_eq(p.as_str(), q.as_str()),
            (Semantic::Positions, Semantic::Positions) => true,
            (Semantic::Normals, Semantic::Normals) => true,
            (Semantic::Tangents, Semantic::Tangents) => true,
            (Semantic::Colors(p), Semantic::Colors(q)) => *p == *q,
            (Semantic::TexCoords(p), Semantic::TexCoords(q)) => *p == *q,
            (Semantic::Joints(p), Semantic::Joints(q)) => *p == *q,
            (Semantic::Weights(p), Semantic::Weights(q)) => *p == *q,
            _ => false,
        },
        _ => false,
    }
}

impl Primitive {
    /// The accessor of the attribute with semantic `key`, if there is one.
    pub fn attribute(&self, key: &Checked<Semantic>) -> (r: Option<u32>)
        ensures
            match r {
                Some(i) => exists|j: int|
                    0 <= j < self.attributes@.len() && (#[trigger] self.attributes@[j]).0@ == key@
                        && self.attributes@[j].1 == i,
                None => forall|j: int|
                    0 <= j < self.attributes@.len() ==> (#[trigger] self.attributes@[j]).0@
                        != key@,
            },
    {
        let mut j: usize = 0;
        while j < self.attributes.len()
            invariant
                j <= self.attributes@.len(),
                forall|i: int| 0 <= i < j ==> (#[trigger] self.attributes@[i]).0@ != key@,
            decreases self.attributes@.len() - j,
        {
            if same_semantic(&self.attributes[j].0, key) {
                return Some(self.attributes[j].1);
            }
            j = j + 1;
        }
        None
    }
}

/// Sets the accessor of `key`, replacing an entry of the same semantic.
fn insert_attribute(
    es: &mut Vec<(Checked<Semantic>, u32)>,
    key: Checked<Semantic>,
    index: u32,
    Ghost(m): Ghost<Map<Checked<SemanticModel>, u32>>,
)
    requires
        entries_agree(old(es)@, m),
    ensures
        entries_agree(final(es)@, m.insert(key@, index)),
{
    let ghost k = key@;
    let mut j: usize = 0;
    while j < es.len()
        invariant
            j <= es@.len(),
            es@ == old(es)@,
            entries_agree(es@, m),
            k == key@,
            forall|i: int| 0 <= i < j ==> (#[trigger] es@[i]).0@ != k,
        decreases es@.len() - j,
    {
        if same_semantic(&es[j].0, &key) {
            let ghost before = es@;
            es.set(j, (key, index));
            let ghost m2 = m.insert(k, index);
            assert forall|c: Checked<SemanticModel>| #[trigger] m2.contains_key(c) implies exists|i: int|
                0 <= i < es@.len() && (#[trigger] es@[i]).0@ == c by {
                if c == k {
                    assert(es@[j as int].0@ == c);
                } else {
                    let i = choose|i: int| 0 <= i < before.len() && (#[trigger] before[i]).0@ == c;
                    assert(es@[i].0@ == c);
                }
            }
            return;
        }
        j = j + 1;
    }
    es.push((key, index));
    let ghost m2 = m.insert(k, index);
    assert forall|c: Checked<SemanticModel>| #[trigger] m2.contains_key(c) implies exists|i: int|
        0 <= i < es@.len() && (#[trigger] es@[i]).0@ == c by {
        if c == k {
            assert(es@[es@.len() - 1].0@ == c);
        } else {
            let i = choose|i: int| 0 <= i < old(es)@.len() && (#[trigger] old(es)@[i]).0@ == c;
            assert(es@[i].0@ == c);
        }
    }
}

fn decode_attributes(f: Option<Value>, allow_extras: bool) -> (r: Result<
    Vec<(Checked<Semantic>, u32)>,
    StructuralError,
>)
    ensures
        match (r, attributes_field(f, allow_extras)) {
            (Ok(es), Ok(m)) => entries_agree(es@, m),
            (Err(e), Err(m)) => e@ == m,
            _ => false,
        },
{
    let members = match f {
        None => {
            return Err(StructuralError::here(ErrorKind::Missing));
        },
        Some(Value::Object(ms)) => ms,
        _ => {
            return Err(StructuralError::here(ErrorKind::WrongType));
        },
    };
    let ghost all = members@;
    let n = members.len();
    let mut out: Vec<(Checked<Semantic>, u32)> = Vec::new();
    let mut i: usize = 0;
    assert(all.subrange(0, n as int) =~= all);
    while i < n
        invariant
            n == all.len(),
            members@ == all,
            f is Some && f->Some_0 is Object && f->Some_0->Object_0@ == all,
            i <= n,
            entries_agree(out@, attributes_map(all.subrange(0, i as int), allow_extras)),
            attributes_error(all) == attributes_error(all.subrange(i as int, n as int)),
        decreases n - i,
    {
        let ghost tail = all.subrange(i as int, n as int);
        assert(tail.drop_first() =~= all.subrange(i + 1, n as int));
        assert(tail[0] == all[i as int]);
        let ghost head = all.subrange(0, i + 1);
        assert(head.drop_last() =~= all.subrange(0, i as int));
        assert(head.last() == all[i as int]);
        let (name, value) = &members[i];
        assert(*name == all[i as int].0 && *value == all[i as int].1);
        let index = match crate::value::decode_index(value) {
            Ok(x) => x,
            Err(e) => {
                assert(attributes_error(tail) == Some(error_at_key(name@, e@)));
                return Err(e.at_key(name.as_str()));
            },
        };
        let key = Semantic::checked(name.as_str(), allow_extras);
        insert_attribute(&mut out, key, index, Ghost(attributes_map(all.subrange(0, i as int), allow_extras)));
        i = i + 1;
    }
    assert(all.subrange(0, n as int) =~= all);
    Ok(out)
}

/// The first structural error of a primitive, checking its members in the
/// order attributes, extensions, indices, material, mode, targets.
pub open spec fn primitive_error(v: Value, allow_extras: bool) -> Option<ErrorModel> {
    match v {
        Value::Object(ms) => {
            let a = attributes_field(field(ms@, "attributes"@), allow_extras);
            let ind = optional_index(field(ms@, "indices"@));
            let mat = optional_index(field(ms@, "material"@));
            let mode = mode_field(field(ms@, "mode"@));
            let tg = targets_field(field(ms@, "targets"@));
            if a is Err {
                Some(error_at_key("attributes"@, a->Err_0))
            } else if !extensions_ok(field(ms@, "extensions"@)) {
                Some(error_at_key("extensions"@, error_here(ErrorKind::WrongType)))
            } else if ind is Err {
                Some(error_at_key("indices"@, ind->Err_0))
            } else if mat is Err {
                Some(error_at_key("material"@, mat->Err_0))
            } else if mode is Err {
                Some(error_at_key("mode"@, mode->Err_0))
            } else if tg is Err {
                Some(error_at_key("targets"@, tg->Err_0))
            } else {
                None
            }
        },
        _ => Some(error_here(ErrorKind::WrongType)),
    }
}

/// Whether `p` is the primitive that `v` describes.
pub open spec fn primitive_matches(v: Value, allow_extras: bool, p: Primitive) -> bool {
    match v {
        Value::Object(ms) => {
            &&& entries_agree(
                p.attributes@,
                attributes_field(field(ms@, "attributes"@), allow_extras)->Ok_0,
            )
            &&& p.extras == extras_of(field(ms@, "extras"@))
            &&& p.indices == optional_index(field(ms@, "indices"@))->Ok_0
            &&& p.material == optional_index(field(ms@, "material"@))->Ok_0
            &&& p.mode == mode_field(field(ms@, "mode"@))->Ok_0
            &&& targets_match(p.targets, targets_field(field(ms@, "targets"@))->Ok_0)
        },
        _ => false,
    }
}

/// The outcome of decoding `v` as a primitive is the one that its
/// specification gives.
pub open spec fn primitive_decoded(v: Value, allow_extras: bool, r: Result<Primitive, StructuralError>) -> bool {
    match r {
        Ok(p) => primitive_error(v, allow_extras) is None && primitive_matches(v, allow_extras, p),
        Err(e) => primitive_error(v, allow_extras) == Some(e@),
    }
}

impl Primitive {
    /// Decodes a primitive. Unrecognized attribute names and mode codes give
    /// `Invalid` markers, never errors; every attribute is kept.
    pub fn decode(v: Value, allow_extras: bool) -> (r: Result<Primitive, StructuralError>)
        ensures
            primitive_decoded(v, allow_extras, r),
    {
        let members = match v {
            Value::Object(ms) => ms,
            _ => {
                return Err(StructuralError::here(ErrorKind::WrongType));
            },
        };
        let names: Vec<&str> = vec![
            "attributes",
            "extensions",
            "extras",
            "indices",
            "material",
            "mode",
            "targets",
        ];
        proof {
            reveal_strlit("attributes");
            reveal_strlit("extensions");
            reveal_strlit("extras");
            reveal_strlit("indices");
            reveal_strlit("material");
            reveal_strlit("mode");
            reveal_strlit("targets");
        }
        assert(distinct_names(names@)) by {
            assert forall|i: int, j: int| 0 <= i < j < names@.len() implies names@[i]@
                != names@[j]@ by {
                assert(names@[i]@.len() != names@[j]@.len() || names@[i]@[0] != names@[j]@[0]);
            }
        }
        let mut fields = take_fields(members, &names);
        let targets = fields.pop().unwrap();
        let mode = fields.pop().unwrap();
        let material = fields.pop().unwrap();
        let indices = fields.pop().unwrap();
        let extras = fields.pop().unwrap();
        let extensions = fields.pop().unwrap();
        let attributes = fields.pop().unwrap();
        let attributes = match decode_attributes(attributes, allow_extras) {
            Ok(a) => a,
            Err(e) => {
                return Err(e.at_key("attributes"));
            },
        };
        if !check_extensions(&extensions) {
            return Err(StructuralError::here(ErrorKind::WrongType).at_key("extensions"));
        }
        let indices = match decode_optional_index(indices) {
            Ok(x) => x,
            Err(e) => {
                return Err(e.at_key("indices"));
            },
        };
        let material = match decode_optional_index(material) {
            Ok(x) => x,
            Err(e) => {
                return Err(e.at_key("material"));
            },
        };
        let mode = match decode_mode(&mode) {
            Ok(x) => x,
            Err(e) => {
                return Err(e.at_key("mode"));
            },
        };
        let targets = match decode_targets(targets) {
            Ok(x) => x,
            Err(e) => {
                return Err(e.at_key("targets"));
            },
        };
        Ok(
            Primitive {
                attributes,
                extensions: PrimitiveExtensions::new(),
                extras: decode_extras(extras),
                indices,
                material,
                mode,
                targets,
            },
        )
    }
}

/// The name member of a mesh: absent or null, or a string.
pub open spec fn name_field(f: Option<Value>) -> Result<Option<Seq<char>>, ErrorModel> {
    match f {
        None => Ok(None),
        Some(Value::Null) => Ok(None),
        Some(Value::String(s)) => Ok(Some(s@)),
        _ => Err(error_here(ErrorKind::WrongType)),
    }
}

/// Whether a decoded name is the one that the specification gives.
pub open spec fn name_matches(n: Option<String>, s: Option<Seq<char>>) -> bool {
    match (n, s) {
        (Some(a), Some(b)) => a@ == b,
        (None, None) => true,
        _ => false,
    }
}

fn decode_name(f: Option<Value>) -> (r: Result<Option<String>, StructuralError>)
    ensures
        match (r, name_field(f)) {
            (Ok(a), Ok(b)) => name_matches(a, b),
            (Err(e), Err(m)) => e@ == m,
            _ => false,
        },
{
    match f {
        None => Ok(None),
        Some(Value::Null) => Ok(None),
        Some(Value::String(s)) => Ok(Some(s)),
        _ => Err(StructuralError::here(ErrorKind::WrongType)),
    }
}

/// The first element of `items` that is not a number, as an error at its
/// position counted from `base`.
pub open spec fn weights_error(items: Seq<Value>, base: nat) -> Option<ErrorModel>
    decreases items.len(),
{
    if items.len() == 0 {
        None
    } else if items[0] is Number {
        weights_error(items.drop_first(), base + 1)
    } else {
        Some(error_at_index(base, error_here(ErrorKind::WrongType)))
    }
}

/// The weights member of a mesh: absent or null, or an array of numbers.
pub open spec fn weights_field(f: Option<Value>) -> Result<Option<Seq<Number>>, ErrorModel> {
    match f {
        None => Ok(None),
        Some(Value::Null) => Ok(None),
        Some(Value::Array(items)) => match weights_error(items@, 0) {
            Some(e) => Err(e),
            None => Ok(Some(Seq::new(items@.len(), |i: int| items@[i]->Number_0))),
        },
        _ => Err(error_here(ErrorKind::WrongType)),
    }
}

/// Whether decoded weights are the ones that the specification gives.
pub open spec fn weights_match(w: Option<Vec<Number>>, s: Option<Seq<Number>>) -> bool {
    match (w, s) {
        (Some(v), Some(t)) => v@ == t,
        (None, None) => true,
        _ => false,
    }
}

fn decode_weights(f: Option<Value>) -> (r: Result<Option<Vec<Number>>, StructuralError>)
    ensures
        match (r, weights_field(f)) {
            (Ok(a), Ok(b)) => weights_match(a, b),
            (Err(e), Err(m)) => e@ == m,
            _ => false,
        },
{
    let items = match f {
        None => {
            return Ok(None);
        },
        Some(Value::Null) => {
            return Ok(None);
        },
        Some(Value::Array(items)) => items,
        _ => {
            return Err(StructuralError::here(ErrorKind::WrongType));
        },
    };
    let ghost all = items@;
    let n = items.len();
    let mut out: Vec<Number> = Vec::new();
    let mut i: usize = 0;
    assert(all.subrange(0, n as int) =~= all);
    while i < n
        invariant
            n == all.len(),
            items@ == all,
            f is Some && f->Some_0 is Array && f->Some_0->Array_0@ == all,
            i <= n,
            out@.len() == i,
            forall|j: int| 0 <= j < i ==> all[j] is Number && out@[j] == all[j]->Number_0,
            weights_error(all, 0) == weights_error(all.subrange(i as int, n as int), i as nat),
        decreases n - i,
    {
        let ghost tail = all.subrange(i as int, n as int);
        assert(tail.drop_first() =~= all.subrange(i + 1, n as int));
        assert(tail[0] == all[i as int]);
        match &items[i] {
            Value::Number(x) => {
                out.push(*x);
            },
            _ => {
                return Err(StructuralError::here(ErrorKind::WrongType).at_index(i));
            },
        }
        i = i + 1;
    }
    assert(out@ =~= Seq::new(all.len(), |i: int| all[i]->Number_0));
    Ok(Some(out))
}

/// The first primitive of `items` that does not decode, as an error at its
/// position counted from `base`.
pub open spec fn primitives_error(items: Seq<Value>, base: nat, allow_extras: bool) -> Option<
    ErrorModel,
>
    decreases items.len(),
{
    if items.len() == 0 {
        None
    } else {
        match primitive_error(items[0], allow_extras) {
            Some(e) => Some(error_at_index(base, e)),
            None => primitives_error(items.drop_first(), base + 1, allow_extras),
        }
    }
}

/// The error of the required primitives member of a mesh, if any.
pub open spec fn primitives_field_error(f: Option<Value>, allow_extras: bool) -> Option<ErrorModel> {
    match f {
        None => Some(error_here(ErrorKind::Missing)),
        Some(Value::Array(items)) => primitives_error(items@, 0, allow_extras),
        _ => Some(error_here(ErrorKind::WrongType)),
    }
}

/// Whether `ps` are the primitives that the array member `f` describes.
pub open spec fn primitives_match(f: Option<Value>, allow_extras: bool, ps: Seq<Primitive>) -> bool {
    match f {
        Some(Value::Array(items)) => {
            &&& ps.len() == items@.len()
            &&& forall|i: int|
                0 <= i < ps.len() ==> primitive_matches(items@[i], allow_extras, #[trigger] ps[i])
        },
        _ => false,
    }
}

fn decode_primitives(f: Option<Value>, allow_extras: bool) -> (r: Result<
    Vec<Primitive>,
    StructuralError,
>)
    ensures
        match r {
            Ok(ps) => primitives_field_error(f, allow_extras) is None && primitives_match(
                f,
                allow_extras,
                ps@,
            ),
            Err(e) => primitives_field_error(f, allow_extras) == Some(e@),
        },
{
    let items = match f {
        None => {
            return Err(StructuralError::here(ErrorKind::Missing));
        },
        Some(Value::Array(items)) => items,
        _ => {
            return Err(StructuralError::here(ErrorKind::WrongType));
        },
    };
    let ghost all = items@;
    let n = items.len();
    let mut rest = reversed(items);
    let mut out: Vec<Primitive> = Vec::new();
    let mut i: usize = 0;
    assert(all.subrange(0, n as int) =~= all);
    while i < n
        invariant
            n == all.len(),
            f is Some && f->Some_0 is Array && f->Some_0->Array_0@ == all,
            i <= n,
            rest@.len() == n - i,
            forall|j: int| 0 <= j < rest@.len() ==> rest@[j] == all[n - 1 - j],
            out@.len() == i,
            forall|j: int| 0 <= j < i ==> primitive_matches(all[j], allow_extras, #[trigger] out@[j]),
            primitives_error(all, 0, allow_extras) == primitives_error(
                all.subrange(i as int, n as int),
                i as nat,
                allow_extras,
            ),
        decreases n - i,
    {
        let ghost tail = all.subrange(i as int, n as int);
        assert(tail.drop_first() =~= all.subrange(i + 1, n as int));
        assert(tail[0] == all[i as int]);
        let item = rest.pop().unwrap();
        assert(item == all[i as int]);
        match Primitive::decode(item, allow_extras) {
            Ok(p) => {
                out.push(p);
            },
            Err(e) => {
                assert(primitives_error(tail, i as nat, allow_extras) == Some(
                    error_at_index(i as nat, e@),
                ));
                return Err(e.at_index(i));
            },
        }
        i = i + 1;
    }
    assert(all.subrange(n as int, n as int).len() == 0);
    Ok(out)
}

/// The first structural error of a mesh, checking its members in the order
/// extensions, name, primitives, weights.
pub open spec fn mesh_error(v: Value, allow_extras: bool) -> Option<ErrorModel> {
    match v {
        Value::Object(ms) => {
            let nm = name_field(field(ms@, "name"@));
            let pr = primitives_field_error(field(ms@, "primitives"@), allow_extras);
            let w = weights_field(field(ms@, "weights"@));
            if !extensions_ok(field(ms@, "extensions"@)) {
                Some(error_at_key("extensions"@, error_here(ErrorKind::WrongType)))
            } else if nm is Err {
                Some(error_at_key("name"@, nm->Err_0))
            } else if pr is Some {
                Some(error_at_key("primitives"@, pr->Some_0))
            } else if w is Err {
                Some(error_at_key("weights"@, w->Err_0))
            } else {
                None
            }
        },
        _ => Some(error_here(ErrorKind::WrongType)),
    }
}

/// Whether `m` is the mesh that `v` describes.
pub open spec fn mesh_matches(v: Value, allow_extras: bool, m: Mesh) -> bool {
    match v {
        Value::Object(ms) => {
            &&& m.extras == extras_of(field(ms@, "extras"@))
            &&& name_matches(m.name, name_field(field(ms@, "name"@))->Ok_0)
            &&& primitives_match(field(ms@, "primitives"@), allow_extras, m.primitives@)
            &&& weights_match(m.weights, weights_field(field(ms@, "weights"@))->Ok_0)
        },
        _ => false,
    }
}

/// The outcome of decoding `v` as a mesh is the one that its specification
/// gives.
pub open spec fn mesh_decoded(v: Value, allow_extras: bool, r: Result<Mesh, StructuralError>) -> bool {
    match r {
        Ok(m) => mesh_error(v, allow_extras) is None && mesh_matches(v, allow_extras, m),
        Err(e) => mesh_error(v, allow_extras) == Some(e@),
    }
}

impl Mesh {
    /// Decodes a mesh. Structural problems end the decoding with an error at
    /// the offending member; semantic ones stay as `Invalid` markers inside
    /// the result.
    pub fn decode(v: Value, allow_extras: bool) -> (r: Result<Mesh, StructuralError>)
        ensures
            mesh_decoded(v, allow_extras, r),
    {
        let members = match v {
            Value::Object(ms) => ms,
            _ => {
                return Err(StructuralError::here(ErrorKind::WrongType));
            },
        };
        let names: Vec<&str> = vec!["extensions", "extras", "name", "primitives", "weights"];
        proof {
            reveal_strlit("extensions");
            reveal_strlit("extras");
            reveal_strlit("name");
            reveal_strlit("primitives");
            reveal_strlit("weights");
        }
        assert(distinct_names(names@)) by {
            assert forall|i: int, j: int| 0 <= i < j < names@.len() implies names@[i]@
                != names@[j]@ by {
                assert(names@[i]@.len() != names@[j]@.len() || names@[i]@[0] != names@[j]@[0]);
            }
        }
        let mut fields = take_fields(members, &names);
        let weights = fields.pop().unwrap();
        let primitives = fields.pop().unwrap();
        let name = fields.pop().unwrap();
        let extras = fields.pop().unwrap();
        let extensions = fields.pop().unwrap();
        if !check_extensions(&extensions) {
            return Err(StructuralError::here(ErrorKind::WrongType).at_key("extensions"));
        }
        let name = match decode_name(name) {
            Ok(x) => x,
            Err(e) => {
                return Err(e.at_key("name"));
            },
        };
        let primitives = match decode_primitives(primitives, allow_extras) {
            Ok(x) => x,
            Err(e) => {
                return Err(e.at_key("primitives"));
            },
        };
        let weights = match decode_weights(weights) {
            Ok(x) => x,
            Err(e) => {
                return Err(e.at_key("weights"));
            },
        };
        Ok(
            Mesh {
                extensions: MeshExtensions::new(),
                extras: decode_extras(extras),
                name,
                primitives,
                weights,
            },
        )
    }
}

/// A primitive without a mode member decodes to the triangles mode.
pub proof fn lemma_absent_mode_is_triangles(v: Value, allow_extras: bool, p: Primitive)
    requires
        v is Object,
        field(v->Object_0@, "mode"@) is None,
        primitive_matches(v, allow_extras, p),
    ensures
        p.mode == Checked::Valid(Mode::Triangles),
{
}

/// The attribute names never cause a structural error: the attributes object
/// decodes exactly when every value is an accessor index, and every name is
/// kept as a key of the map, recognized or not.
pub proof fn lemma_attributes_kept(ms: Seq<(String, Value)>, allow_extras: bool)
    ensures
        attributes_error(ms) is None <==> forall|i: int|
            0 <= i < ms.len() ==> index_of((#[trigger] ms[i]).1) is Some,
        forall|i: int|
            0 <= i < ms.len() ==> attributes_map(ms, allow_extras).contains_key(
                semantic_of_name((#[trigger] ms[i]).0@, allow_extras),
            ),
    decreases ms.len(),
{
    if ms.len() > 0 {
        let rest = ms.drop_first();
        let init = ms.drop_last();
        lemma_attributes_kept(rest, allow_extras);
        lemma_attributes_kept(init, allow_extras);
        assert forall|i: int| 0 <= i < ms.len() implies attributes_map(
            ms,
            allow_extras,
        ).contains_key(semantic_of_name((#[trigger] ms[i]).0@, allow_extras)) by {
            if i < ms.len() - 1 {
                assert(init[i] == ms[i]);
            }
        }
        if attributes_error(ms) is None {
            assert forall|i: int| 0 <= i < ms.len() implies index_of(
                (#[trigger] ms[i]).1,
            ) is Some by {
                if i > 0 {
                    assert(rest[i - 1] == ms[i]);
                }
            }
        }
        if forall|i: int| 0 <= i < ms.len() ==> index_of((#[trigger] ms[i]).1) is Some {
            assert(index_of(ms[0].1) is Some);
            assert forall|i: int| 0 <= i < rest.len() implies index_of(
                (#[trigger] rest[i]).1,
            ) is Some by {
                assert(rest[i] == ms[i + 1]);
            }
        }
    }
}

/// Extension data accepts an object with members of any name.
pub proof fn lemma_extensions_accept_unknown(ms: Vec<(String, Value)>)
    ensures
        extensions_ok(Some(Value::Object(ms))),
{
}

/// A mesh object without a primitives member, whose extensions and name are
/// well formed, fails with a missing-member error at `primitives`.
pub proof fn lemma_missing_primitives(v: Value, allow_extras: bool)
    requires
        v is Object,
        field(v->Object_0@, "primitives"@) is None,
        extensions_ok(field(v->Object_0@, "extensions"@)),
        name_field(field(v->Object_0@, "name"@)) is Ok,
    ensures
        mesh_error(v, allow_extras) == Some(
            error_at_key("primitives"@, error_here(ErrorKind::Missing)),
        ),
{
}

} // verus!

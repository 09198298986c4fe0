use vstd::prelude::*;

use crate::mesh::str_eq;

verus! {

/// A number of the value tree, as the enclosing reader found it.
#[derive(Clone, Copy, Debug, PartialEq, Eq, Structural)]
pub enum Number {
    /// An integer of zero or more.
    PosInt(u64),
    /// An integer below zero.
    NegInt(i64),
    /// A number with a fraction or an exponent, as the bits of an IEEE 754
    /// double.
    Float(u64),
}

/// A generic structured value: the input of the decoders.
#[derive(Debug)]
pub enum Value {
    /// The null value.
    Null,
    /// A boolean.
    Bool(bool),
    /// A number.
    Number(Number),
    /// A string.
    String(String),
    /// An array of values, in order.
    Array(Vec<Value>),
    /// The members of an object, in the order in which they were written.
    Object(Vec<(String, Value)>),
}

/// One step of a path into the value tree.
#[derive(Clone, Debug, PartialEq, Eq)]
pub enum PathSegment {
    /// The member of an object with this name.
    Key(String),
    /// The element of an array at this position.
    Index(usize),
}

/// What a `PathSegment` stands for.
pub enum PathModel {
    Key(Seq<char>),
    Index(nat),
}

impl View for PathSegment {
    type V = PathModel;

    open spec fn view(&self) -> PathModel {
        match self {
            PathSegment::Key(k) => PathModel::Key(k@),
            PathSegment::Index(i) => PathModel::Index(*i as nat),
        }
    }
}

/// Why the shape of the input did not match.
#[derive(Clone, Copy, Debug, PartialEq, Eq, Structural)]
pub enum ErrorKind {
    /// A required member is absent.
    Missing,
    /// A value has the wrong type.
    WrongType,
}

/// A structural decoding error: where in the input the shape did not match,
/// and how.
#[derive(Clone, Debug, PartialEq, Eq)]
pub struct StructuralError {
    /// The path from the decoded value to the offending member.
    pub path: Vec<PathSegment>,
    /// What was wrong there.
    pub kind: ErrorKind,
}

/// What a `StructuralError` stands for.
pub struct ErrorModel {
    pub path: Seq<PathModel>,
    pub kind: ErrorKind,
}

impl View for StructuralError {
    type V = ErrorModel;

    open spec fn view(&self) -> ErrorModel {
        ErrorModel { path: self.path@.map_values(|p: PathSegment| p@), kind: self.kind }
    }
}

/// An error at the value itself.
pub open spec fn error_here(kind: ErrorKind) -> ErrorModel {
    ErrorModel { path: Seq::empty(), kind }
}

/// An error at the member `key` of an object.
pub open spec fn error_at_key(key: Seq<char>, e: ErrorModel) -> ErrorModel {
    ErrorModel { path: seq![PathModel::Key(key)] + e.path, kind: e.kind }
}

/// An error at the element `i` of an array.
pub open spec fn error_at_index(i: nat, e: ErrorModel) -> ErrorModel {
    ErrorModel { path: seq![PathModel::Index(i)] + e.path, kind: e.kind }
}

impl StructuralError {
    /// An error at the value itself.
    pub fn here(kind: ErrorKind) -> (r: StructuralError)
        ensures
            r@ == error_here(kind),
    {
        let r = StructuralError { path: Vec::new(), kind };
        assert(r@.path =~= Seq::<PathModel>::empty());
        r
    }

    /// Moves the error one step down: it now lies at the member `key`.
    pub fn at_key(self, key: &str) -> (r: StructuralError)
        ensures
            r@ == error_at_key(key@, self@),
    {
        let mut path = self.path;
        path.insert(0, PathSegment::Key(String::from_str(key)));
        let r = StructuralError { path, kind: self.kind };
        assert(r@.path =~= error_at_key(key@, self@).path);
        r
    }

    /// Moves the error one step down: it now lies at the element `i`.
    pub fn at_index(self, i: usize) -> (r: StructuralError)
        ensures
            r@ == error_at_index(i as nat, self@),
    {
        let mut path = self.path;
        path.insert(0, PathSegment::Index(i));
        let r = StructuralError { path, kind: self.kind };
        assert(r@.path =~= error_at_index(i as nat, self@).path);
        r
    }
}

/// The value of the member named `key`; of several members of that name,
/// the last one written.
pub open spec fn field(members: Seq<(String, Value)>, key: Seq<char>) -> Option<Value>
    decreases members.len(),
{
    if members.len() == 0 {
        None
    } else {
        match field(members.drop_first(), key) {
            Some(v) => Some(v),
            None => if members[0].0@ == key {
                Some(members[0].1)
            } else {
                None
            },
        }
    }
}

/// Whether no two of the names are the same.
pub open spec fn distinct_names(names: Seq<&str>) -> bool {
    forall|i: int, j: int| 0 <= i < j < names.len() ==> names[i]@ != names[j]@
}

/// Takes the members named by `names` out of an object, each as `field` finds
/// it. Members of other names are dropped.
pub fn take_fields(members: Vec<(String, Value)>, names: &Vec<&str>) -> (r: Vec<Option<Value>>)
    requires
        distinct_names(names@),
    ensures
        r@.len() == names@.len(),
        forall|j: int| 0 <= j < names@.len() ==> r@[j] == field(members@, names@[j]@),
{
    let ghost all = members@;
    let mut rest = members;
    let mut found: Vec<Option<Value>> = Vec::new();
    let mut j: usize = 0;
    while j < names.len()
        invariant
            j <= names@.len(),
            found@.len() == j,
            forall|k: int| 0 <= k < j ==> found@[k] is None,
        decreases names@.len() - j,
    {
        found.push(None);
        j = j + 1;
    }
    while rest.len() > 0
        invariant
            rest@.len() <= all.len(),
            rest@ == all.subrange(0, rest@.len() as int),
            found@.len() == names@.len(),
            distinct_names(names@),
            forall|k: int|
                0 <= k < names@.len() ==> found@[k] == field(
                    all.subrange(rest@.len() as int, all.len() as int),
                    #[trigger] names@[k]@,
                ),
        decreases rest@.len(),
    {
        let ghost n = rest@.len() as int;
        let ghost suffix = all.subrange(n - 1, all.len() as int);
        assert(suffix.drop_first() =~= all.subrange(n, all.len() as int));
        assert(suffix[0] == all[n - 1]);
        let (key, value) = rest.pop().unwrap();
        let mut j: usize = 0;
        let mut hit: Option<usize> = None;
        while j < names.len()
            invariant
                j <= names@.len(),
                found@.len() == names@.len(),
                hit matches Some(h) ==> h < names@.len() && names@[h as int]@ == key@,
                hit is None ==> forall|k: int| 0 <= k < j ==> names@[k]@ != key@,
            decreases names@.len() - j,
        {
            if hit.is_none() && str_eq(key.as_str(), names[j]) {
                hit = Some(j);
            }
            j = j + 1;
        }
        match hit {
            Some(h) => {
                if found[h].is_none() {
                    found.set(h, Some(value));
                }
            },
            None => {},
        }
    }
    assert(all.subrange(0, all.len() as int) =~= all);
    found
}

/// The accessor index that `v` holds, if it holds one.
pub open spec fn index_of(v: Value) -> Option<u32> {
    match v {
        Value::Number(Number::PosInt(n)) => if n <= u32::MAX {
            Some(n as u32)
        } else {
            None
        },
        _ => None,
    }
}

/// Reads an accessor or material index.
pub fn decode_index(v: &Value) -> (r: Result<u32, StructuralError>)
    ensures
        match r {
            Ok(n) => index_of(*v) == Some(n),
            Err(e) => index_of(*v) is None && e@ == error_here(ErrorKind::WrongType),
        },
{
    match v {
        Value::Number(Number::PosInt(n)) => {
            if *n <= 0xFFFF_FFFF {
                return Ok(*n as u32);
            }
        },
        _ => {},
    }
    Err(StructuralError::here(ErrorKind::WrongType))
}

/// An optional index member: absent or null gives `None`.
pub open spec fn optional_index(f: Option<Value>) -> Result<Option<u32>, ErrorModel> {
    match f {
        None => Ok(None),
        Some(Value::Null) => Ok(None),
        Some(v) => match index_of(v) {
            Some(n) => Ok(Some(n)),
            None => Err(error_here(ErrorKind::WrongType)),
        },
    }
}

/// Reads an optional index member.
pub fn decode_optional_index(f: Option<Value>) -> (r: Result<Option<u32>, StructuralError>)
    ensures
        match (r, optional_index(f)) {
            (Ok(a), Ok(b)) => a == b,
            (Err(e), Err(m)) => e@ == m,
            _ => false,
        },
{
    match f {
        None => Ok(None),
        Some(Value::Null) => Ok(None),
        Some(v) => match decode_index(&v) {
            Ok(n) => Ok(Some(n)),
            Err(e) => Err(e),
        },
    }
}

} // verus!

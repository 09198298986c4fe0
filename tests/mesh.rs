use gltf_mesh::mesh::{Mesh, Mode, MorphTargets, Primitive, Semantic};
use gltf_mesh::validation::Checked;
use gltf_mesh::value::{ErrorKind, Number, PathSegment, StructuralError, Value};

fn uint(n: u64) -> Value {
    Value::Number(Number::PosInt(n))
}

fn text(s: &str) -> Value {
    Value::String(s.to_string())
}

fn obj(members: Vec<(&str, Value)>) -> Value {
    Value::Object(members.into_iter().map(|(k, v)| (k.to_string(), v)).collect())
}

fn key(k: &str) -> PathSegment {
    PathSegment::Key(k.to_string())
}

fn primitive_with(members: Vec<(&str, Value)>) -> Primitive {
    Primitive::decode(obj(members), false).unwrap()
}

#[test]
fn mode_codes_in_order() {
    let modes = [
        Mode::Points,
        Mode::Lines,
        Mode::LineLoop,
        Mode::LineStrip,
        Mode::Triangles,
        Mode::TriangleStrip,
        Mode::TriangleFan,
    ];
    for (code, mode) in modes.iter().enumerate() {
        assert_eq!(Mode::checked(code as i128), Checked::Valid(*mode));
        assert_eq!(mode.code() as usize, code);
    }
}

#[test]
fn mode_codes_outside_range_are_invalid() {
    for code in [7i128, 8, -1, 100, 4294967296, i64::MIN as i128] {
        assert_eq!(Mode::checked(code), Checked::Invalid);
    }
}

#[test]
fn mode_default_is_triangles() {
    assert_eq!(Mode::default(), Mode::Triangles);
}

#[test]
fn absent_mode_decodes_to_triangles() {
    let p = primitive_with(vec![("attributes", obj(vec![("POSITION", uint(0))]))]);
    assert_eq!(p.mode, Checked::Valid(Mode::Triangles));
}

#[test]
fn mode_member_decodes() {
    let p = primitive_with(vec![("attributes", obj(vec![])), ("mode", uint(1))]);
    assert_eq!(p.mode, Checked::Valid(Mode::Lines));
    let p = primitive_with(vec![("attributes", obj(vec![])), ("mode", uint(9))]);
    assert_eq!(p.mode, Checked::Invalid);
    let p = primitive_with(vec![
        ("attributes", obj(vec![])),
        ("mode", Value::Number(Number::NegInt(-3))),
    ]);
    assert_eq!(p.mode, Checked::Invalid);
}

#[test]
fn mode_of_wrong_type_is_structural() {
    let r = Primitive::decode(obj(vec![("attributes", obj(vec![])), ("mode", text("4"))]), false);
    let e = r.unwrap_err();
    assert_eq!(e.path, vec![key("mode")]);
    assert_eq!(e.kind, ErrorKind::WrongType);
    let r = Primitive::decode(
        obj(vec![("attributes", obj(vec![])), ("mode", Value::Number(Number::Float(0)))]),
        false,
    );
    assert_eq!(r.unwrap_err().path, vec![key("mode")]);
}

#[test]
fn semantic_indexed_names() {
    assert_eq!(Semantic::checked("COLOR_3", false), Checked::Valid(Semantic::Colors(3)));
    assert_eq!(Semantic::checked("COLOR_abc", false), Checked::Invalid);
    assert_eq!(Semantic::checked("COLOR_-1", false), Checked::Invalid);
    assert_eq!(Semantic::checked("COLOR_", false), Checked::Invalid);
    assert_eq!(Semantic::checked("TEXCOORD_2", false), Checked::Valid(Semantic::TexCoords(2)));
    assert_eq!(Semantic::checked("JOINTS_1", false), Checked::Valid(Semantic::Joints(1)));
    assert_eq!(Semantic::checked("WEIGHTS_0", false), Checked::Valid(Semantic::Weights(0)));
}

#[test]
fn semantic_index_edges() {
    assert_eq!(
        Semantic::checked("COLOR_4294967295", false),
        Checked::Valid(Semantic::Colors(4294967295))
    );
    assert_eq!(Semantic::checked("COLOR_4294967296", false), Checked::Invalid);
    assert_eq!(Semantic::checked("COLOR_+1", false), Checked::Invalid);
    assert_eq!(Semantic::checked("COLOR_ 1", false), Checked::Invalid);
    assert_eq!(Semantic::checked("COLOR_1 ", false), Checked::Invalid);
    assert_eq!(Semantic::checked("COLOR_007", false), Checked::Valid(Semantic::Colors(7)));
    assert_eq!(Semantic::checked("color_0", false), Checked::Invalid);
}

#[test]
fn semantic_fixed_names() {
    assert_eq!(Semantic::checked("POSITION", false), Checked::Valid(Semantic::Positions));
    assert_eq!(Semantic::checked("NORMAL", false), Checked::Valid(Semantic::Normals));
    assert_eq!(Semantic::checked("TANGENT", false), Checked::Valid(Semantic::Tangents));
    assert_eq!(Semantic::checked("POSITIONS", false), Checked::Invalid);
}

#[test]
fn semantic_extra_names() {
    assert_eq!(Semantic::checked("_TEMP", false), Checked::Invalid);
    assert_eq!(
        Semantic::checked("_TEMP", true),
        Checked::Valid(Semantic::Extras("TEMP".to_string()))
    );
    assert_eq!(Semantic::checked("_", true), Checked::Valid(Semantic::Extras(String::new())));
    assert_eq!(Semantic::checked("POSITION", true), Checked::Valid(Semantic::Positions));
    assert_eq!(Semantic::Extras("TEMP".to_string()).to_string(), "_TEMP");
}

#[test]
fn semantic_round_trip() {
    for s in ["POSITION", "NORMAL", "TANGENT", "COLOR_0", "TEXCOORD_2", "JOINTS_1", "WEIGHTS_0"] {
        let decoded = Semantic::checked(s, false);
        assert!(decoded.is_valid());
        assert_eq!(decoded.to_string(), s);
    }
    assert_eq!(Semantic::TexCoords(1234567890).to_string(), "TEXCOORD_1234567890");
}

#[test]
fn unknown_semantic_is_invalid() {
    let decoded = Semantic::checked("FOOBAR", false);
    assert_eq!(decoded, Checked::Invalid);
    assert!(!decoded.is_valid());
    assert_eq!(decoded.to_string(), "<invalid semantic name>");
}

#[test]
fn checked_from_option() {
    assert_eq!(Checked::from_option(Some(3u32)), Checked::Valid(3));
    assert_eq!(Checked::<u32>::from_option(None), Checked::Invalid);
}

#[test]
fn attributes_keep_unrecognized_names() {
    let p = primitive_with(vec![(
        "attributes",
        obj(vec![("POSITION", uint(0)), ("FOOBAR", uint(1))]),
    )]);
    assert_eq!(p.attributes.len(), 2);
    assert_eq!(p.attribute(&Checked::Valid(Semantic::Positions)), Some(0));
    assert_eq!(p.attribute(&Checked::Invalid), Some(1));
}

#[test]
fn duplicate_attribute_last_wins() {
    let p = primitive_with(vec![(
        "attributes",
        obj(vec![("COLOR_0", uint(1)), ("NORMAL", uint(2)), ("COLOR_00", uint(3))]),
    )]);
    assert_eq!(p.attributes.len(), 2);
    assert_eq!(p.attribute(&Checked::Valid(Semantic::Colors(0))), Some(3));
    assert_eq!(p.attribute(&Checked::Valid(Semantic::Normals)), Some(2));
}

#[test]
fn attribute_value_of_wrong_type() {
    let r = Primitive::decode(
        obj(vec![("attributes", obj(vec![("POSITION", uint(0)), ("NORMAL", text("x"))]))]),
        false,
    );
    let e = r.unwrap_err();
    assert_eq!(e.path, vec![key("attributes"), key("NORMAL")]);
    assert_eq!(e.kind, ErrorKind::WrongType);
    let r = Primitive::decode(
        obj(vec![("attributes", obj(vec![("POSITION", uint(4294967296))]))]),
        false,
    );
    assert_eq!(r.unwrap_err().path, vec![key("attributes"), key("POSITION")]);
}

#[test]
fn missing_attributes() {
    let e = Primitive::decode(obj(vec![("mode", uint(4))]), false).unwrap_err();
    assert_eq!(e, StructuralError { path: vec![key("attributes")], kind: ErrorKind::Missing });
}

#[test]
fn unknown_extension_members_are_ignored() {
    let p = primitive_with(vec![
        ("attributes", obj(vec![])),
        ("extensions", obj(vec![("KHR_unknown", obj(vec![("deep", uint(1))]))])),
    ]);
    assert_eq!(p.mode, Checked::Valid(Mode::Triangles));
    let m = Mesh::decode(
        obj(vec![
            ("extensions", obj(vec![("VENDOR_thing", Value::Bool(true))])),
            ("primitives", Value::Array(vec![])),
        ]),
        false,
    )
    .unwrap();
    assert!(m.primitives.is_empty());
}

#[test]
fn extensions_of_wrong_type() {
    let e = Primitive::decode(
        obj(vec![("attributes", obj(vec![])), ("extensions", text("x"))]),
        false,
    )
    .unwrap_err();
    assert_eq!(e.path, vec![key("extensions")]);
    assert_eq!(e.kind, ErrorKind::WrongType);
}

#[test]
fn mesh_missing_primitives() {
    let e = Mesh::decode(obj(vec![("name", text("box"))]), false).unwrap_err();
    assert_eq!(e.path, vec![key("primitives")]);
    assert_eq!(e.kind, ErrorKind::Missing);
}

#[test]
fn mesh_not_an_object() {
    let e = Mesh::decode(Value::Array(vec![]), false).unwrap_err();
    assert!(e.path.is_empty());
    assert_eq!(e.kind, ErrorKind::WrongType);
}

#[test]
fn mesh_full_decode() {
    let prim = obj(vec![
        ("attributes", obj(vec![("POSITION", uint(0)), ("TEXCOORD_0", uint(1))])),
        ("indices", uint(2)),
        ("material", uint(3)),
        ("mode", uint(0)),
        ("extras", text("note")),
        (
            "targets",
            Value::Array(vec![obj(vec![("POSITION", uint(4)), ("NORMAL", Value::Null)])]),
        ),
    ]);
    let m = Mesh::decode(
        obj(vec![
            ("name", text("box")),
            ("primitives", Value::Array(vec![prim])),
            (
                "weights",
                Value::Array(vec![Value::Number(Number::Float(0)), uint(1)]),
            ),
        ]),
        false,
    )
    .unwrap();
    assert_eq!(m.name, Some("box".to_string()));
    assert!(m.extras.is_none());
    assert_eq!(m.weights, Some(vec![Number::Float(0), Number::PosInt(1)]));
    assert_eq!(m.primitives.len(), 1);
    let p = &m.primitives[0];
    assert_eq!(p.indices, Some(2));
    assert_eq!(p.material, Some(3));
    assert_eq!(p.mode, Checked::Valid(Mode::Points));
    assert!(matches!(&p.extras, Some(Value::String(s)) if s == "note"));
    assert_eq!(p.attribute(&Checked::Valid(Semantic::TexCoords(0))), Some(1));
    assert_eq!(
        p.targets,
        Some(vec![MorphTargets { positions: Some(4), normals: None, tangents: None }])
    );
}

#[test]
fn nested_error_paths() {
    let bad_target = obj(vec![("TANGENT", text("x"))]);
    let prim = obj(vec![
        ("attributes", obj(vec![])),
        ("targets", Value::Array(vec![obj(vec![]), bad_target])),
    ]);
    let e = Mesh::decode(
        obj(vec![("primitives", Value::Array(vec![obj(vec![("attributes", obj(vec![]))]), prim]))]),
        false,
    )
    .unwrap_err();
    assert_eq!(
        e.path,
        vec![
            key("primitives"),
            PathSegment::Index(1),
            key("targets"),
            PathSegment::Index(1),
            key("TANGENT"),
        ]
    );
    assert_eq!(e.kind, ErrorKind::WrongType);
}

#[test]
fn weights_and_name_of_wrong_type() {
    let e = Mesh::decode(
        obj(vec![
            ("primitives", Value::Array(vec![])),
            ("weights", Value::Array(vec![uint(1), Value::Bool(false)])),
        ]),
        false,
    )
    .unwrap_err();
    assert_eq!(e.path, vec![key("weights"), PathSegment::Index(1)]);
    let e = Mesh::decode(obj(vec![("name", uint(1)), ("primitives", Value::Array(vec![]))]), false)
        .unwrap_err();
    assert_eq!(e.path, vec![key("name")]);
}

#[test]
fn repeated_member_last_wins() {
    let m = Mesh::decode(
        obj(vec![
            ("name", text("first")),
            ("primitives", Value::Array(vec![])),
            ("name", text("second")),
        ]),
        false,
    )
    .unwrap();
    assert_eq!(m.name, Some("second".to_string()));
}

#[test]
fn extra_attribute_names_follow_the_flag() {
    let members = || obj(vec![("attributes", obj(vec![("_TEMP", uint(5))]))]);
    let p = Primitive::decode(members(), true).unwrap();
    assert_eq!(p.attribute(&Checked::Valid(Semantic::Extras("TEMP".to_string()))), Some(5));
    let p = Primitive::decode(members(), false).unwrap();
    assert_eq!(p.attribute(&Checked::Invalid), Some(5));
}

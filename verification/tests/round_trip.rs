use configurator::json::{Json, JsonNumber};
use configurator::node::data_path::DataPathType;
use configurator::node::{Node, NodeContainer};
use configurator::number::{Float, NumberValue, NumberValueLight};
use configurator::page::{Action, ChangeMsg, Page, PageMsg};
use configurator::samples::{
    Complex, EnumComplex, Rec, TestBool, TestEnumComplex, TestEnumSimple, TestHashMap,
    TestNumber, TestOption, TestOptionComplex, TestString, TestTuple, TestVec, TestVeryComplex,
};
use configurator::schema::{
    ArrayValidation, InstanceType, InstanceTypes, Items, Metadata, ObjectValidation, RootSchema,
    Schema, SchemaObject, SubschemaValidation,
};
use configurator::value::{Dict, Empty, Num, Value};

fn with_default(mut s: SchemaObject, default: Json) -> SchemaObject {
    s.metadata = Some(Box::new(Metadata { title: None, description: None, default: Some(default) }));
    s
}

fn typed(t: InstanceType) -> SchemaObject {
    let mut s = SchemaObject::new();
    s.instance_type = Some(InstanceTypes::Single(t));
    s
}

fn int32() -> SchemaObject {
    let mut s = typed(InstanceType::Integer);
    s.format = Some("int32".to_string());
    s
}

fn reference(name: &str) -> SchemaObject {
    let mut s = SchemaObject::new();
    s.reference = Some(format!("#/definitions/{}", name));
    s
}

fn all_of_ref(name: &str) -> SchemaObject {
    let mut s = SchemaObject::new();
    s.subschemas = Some(Box::new(SubschemaValidation {
        all_of: Some(vec![Schema::Object(reference(name))]),
        any_of: None,
        one_of: None,
        not: None,
    }));
    s
}

fn object_of(properties: Vec<(&str, SchemaObject)>) -> SchemaObject {
    let mut s = typed(InstanceType::Object);
    s.object = Some(Box::new(ObjectValidation {
        properties: properties
            .into_iter()
            .map(|(k, v)| (k.to_string(), Schema::Object(v)))
            .collect(),
        additional_properties: None,
    }));
    s
}

fn map_of(item: SchemaObject) -> SchemaObject {
    let mut s = typed(InstanceType::Object);
    s.object = Some(Box::new(ObjectValidation {
        properties: vec![],
        additional_properties: Some(Box::new(Schema::Object(item))),
    }));
    s
}

fn list_of(item: SchemaObject) -> SchemaObject {
    let mut s = typed(InstanceType::Array);
    s.array = Some(Box::new(ArrayValidation {
        items: Some(Items::Single(Box::new(Schema::Object(item)))),
        max_items: None,
        min_items: None,
    }));
    s
}

fn tuple_of(items: Vec<SchemaObject>) -> SchemaObject {
    let n = items.len() as u32;
    let mut s = typed(InstanceType::Array);
    s.array = Some(Box::new(ArrayValidation {
        items: Some(Items::Vec(items.into_iter().map(Schema::Object).collect())),
        max_items: Some(n),
        min_items: Some(n),
    }));
    s
}

fn optional(item: SchemaObject) -> SchemaObject {
    let mut s = SchemaObject::new();
    s.subschemas = Some(Box::new(SubschemaValidation {
        all_of: None,
        any_of: Some(vec![Schema::Object(item), Schema::Object(typed(InstanceType::Null))]),
        one_of: None,
        not: None,
    }));
    s
}

fn variant_of(name: &str, inner: SchemaObject) -> Schema {
    let mut s = object_of(vec![(name, inner)]);
    if let Some(o) = &mut s.object {
        o.additional_properties = Some(Box::new(Schema::Bool(false)));
    }
    Schema::Object(s)
}

fn text(s: &str) -> Json {
    Json::String(s.to_string())
}

fn number(n: u64) -> Json {
    Json::Number(JsonNumber::PosInt(n))
}

fn complex_json(x: &str, y: u64) -> Json {
    Json::Object(vec![("x".to_string(), text(x)), ("y".to_string(), number(y))])
}

fn complex_definition() -> (String, Schema) {
    (
        "Complex".to_string(),
        Schema::Object(object_of(vec![
            ("x", with_default(typed(InstanceType::String), text("default of complex mgl"))),
            ("y", with_default(int32(), number(10))),
        ])),
    )
}

fn enum_simple_definition() -> (String, Schema) {
    let mut s = typed(InstanceType::String);
    s.enum_values = Some(vec![text("A"), text("B"), text("C")]);
    ("EnumSimple".to_string(), Schema::Object(s))
}

fn enum_complex_definition() -> (String, Schema) {
    let mut a = typed(InstanceType::String);
    a.enum_values = Some(vec![text("A")]);
    let mut s = SchemaObject::new();
    s.subschemas = Some(Box::new(SubschemaValidation {
        all_of: None,
        any_of: None,
        one_of: Some(vec![
            Schema::Object(a),
            variant_of("B", int32()),
            variant_of("C", reference("Complex")),
            variant_of("D", object_of(vec![("a", int32()), ("b", reference("Complex"))])),
        ]),
        not: None,
    }));
    ("EnumComplex".to_string(), Schema::Object(s))
}

fn document(title: &str, x: SchemaObject, definitions: Vec<(String, Schema)>) -> RootSchema {
    let mut schema = object_of(vec![("x", x)]);
    schema.metadata = Some(Box::new(Metadata {
        title: Some(title.to_string()),
        description: None,
        default: None,
    }));
    RootSchema { schema, definitions }
}

fn enum_complex_default_json() -> Json {
    Json::Object(vec![("C".to_string(), complex_json("hello", 1))])
}

fn very_complex_document() -> RootSchema {
    let v_default = Json::Array(vec![
        Json::Array(vec![
            text("A"),
            Json::Object(vec![(
                "D".to_string(),
                Json::Object(vec![("a".to_string(), number(5)), ("b".to_string(), complex_json("bis", 123))]),
            )]),
        ]),
        Json::Object(vec![("lol".to_string(), enum_complex_default_json())]),
    ]);
    let v = with_default(
        tuple_of(vec![list_of(reference("EnumComplex")), map_of(reference("EnumComplex"))]),
        v_default,
    );
    let x = with_default(
        map_of(reference("Complex")),
        Json::Object(vec![("hello".to_string(), complex_json("default of complex mgl", 10))]),
    );
    let y = with_default(all_of_ref("EnumComplex"), enum_complex_default_json());
    let mut schema = object_of(vec![("v", v), ("x", x), ("y", y)]);
    schema.metadata = Some(Box::new(Metadata {
        title: Some("TestVeryComplex".to_string()),
        description: None,
        default: None,
    }));
    RootSchema { schema, definitions: vec![complex_definition(), enum_complex_definition()] }
}

/// Compiles the schema, binds the value, and holds what the tree gives
/// against the value.
fn test_schema(schema: RootSchema, config: Value, is_default_complete: bool) {
    let mut tree = NodeContainer::from_json_schema(&schema).unwrap();
    let data = match config.clone() {
        Value::Dict(d) => d,
        _ => panic!("a configuration is a dictionary"),
    };
    tree.apply_figment(Some(data)).unwrap();
    let value_from_node = tree.to_value().unwrap();
    let value_from_node = if is_default_complete {
        value_from_node.expect("no value found but is_default_complete is true")
    } else {
        assert!(value_from_node.is_none());
        return;
    };
    assert!(value_from_node.same(&config), "{:?} != {:?}", value_from_node, config);
}

fn bool_document() -> RootSchema {
    document("TestBool", with_default(typed(InstanceType::Boolean), Json::Bool(false)), vec![])
}

#[test]
fn tests_test_bool() {
    test_schema(bool_document(), TestBool::default().to_value(), true);
}

#[test]
fn ser_test_bool_ron() {
    let mut tree = NodeContainer::from_json_schema(&bool_document()).unwrap();
    let config = TestBool::default();
    let data = match config.to_value() {
        Value::Dict(d) => d,
        _ => unreachable!(),
    };
    tree.apply_figment(Some(data)).unwrap();
    let written = tree.to_written_value().unwrap();
    assert_eq!(format!("{:?}", written), format!("{:?}", config.to_value()));
}

#[test]
fn tests_test_string() {
    test_schema(
        document("TestString", with_default(typed(InstanceType::String), text("")), vec![]),
        TestString::default().to_value(),
        true,
    );
}

#[test]
fn test_number() {
    test_schema(
        document("TestNumber", with_default(int32(), number(0)), vec![]),
        TestNumber::default().to_value(),
        true,
    );
}

#[test]
fn test_float() {
    let mut x = typed(InstanceType::Number);
    x.format = Some("float".to_string());
    let x = with_default(x, Json::Number(JsonNumber::Float(Float::parse("0").unwrap())));
    let mut d = Dict::new();
    d.insert("x".to_string(), Value::Num(Num::F32(Float::parse("0").unwrap())));
    test_schema(document("TestFloat", x, vec![]), Value::Dict(d), true);
}

#[test]
fn test_enum_simple() {
    test_schema(
        document(
            "TestEnumSimple",
            with_default(all_of_ref("EnumSimple"), text("A")),
            vec![enum_simple_definition()],
        ),
        TestEnumSimple::default().to_value(),
        true,
    );
}

#[test]
fn test_enum_complex() {
    test_schema(
        document(
            "TestEnumComplex",
            with_default(all_of_ref("EnumComplex"), enum_complex_default_json()),
            vec![complex_definition(), enum_complex_definition()],
        ),
        TestEnumComplex::default().to_value(),
        true,
    );
}

#[test]
fn test_option() {
    let mut x = SchemaObject::new();
    x.instance_type = Some(InstanceTypes::Vec(vec![InstanceType::String, InstanceType::Null]));
    test_schema(
        document("TestOption", with_default(x, Json::Null), vec![]),
        TestOption::default().to_value(),
        true,
    );
}

#[test]
fn test_option_complex() {
    test_schema(
        document(
            "TestOptionComplex",
            with_default(optional(reference("Complex")), Json::Null),
            vec![complex_definition()],
        ),
        TestOptionComplex::default().to_value(),
        true,
    );
}

#[test]
fn test_tuple() {
    let x = with_default(
        tuple_of(vec![optional(reference("Complex")), int32(), typed(InstanceType::String)]),
        Json::Array(vec![Json::Null, number(0), text("")]),
    );
    test_schema(
        document("TestTuple", x, vec![complex_definition()]),
        TestTuple::default().to_value(),
        true,
    );
}

#[test]
fn test_vec() {
    test_schema(
        document(
            "TestVec",
            with_default(list_of(reference("Complex")), Json::Array(vec![])),
            vec![complex_definition()],
        ),
        TestVec::default().to_value(),
        true,
    );
}

#[test]
fn test_hash_map() {
    test_schema(
        document(
            "TestHashMap",
            with_default(map_of(reference("Complex")), Json::Object(vec![])),
            vec![complex_definition()],
        ),
        TestHashMap::default().to_value(),
        true,
    );
}

#[test]
fn test_very_complex() {
    test_schema(very_complex_document(), TestVeryComplex::default().to_value(), true);
}

#[test]
fn vec_and_map_with_entries_round_trip() {
    let config = TestVec {
        x: vec![Complex::default(), Complex { x: "second".to_string(), y: -7 }],
    };
    test_schema(
        document("TestVec", list_of(reference("Complex")), vec![complex_definition()]),
        config.to_value(),
        true,
    );
    let config = TestHashMap {
        x: vec![
            ("zeta".to_string(), Complex::default()),
            ("alpha".to_string(), Complex { x: "a".to_string(), y: 1 }),
        ],
    };
    test_schema(
        document("TestHashMap", map_of(reference("Complex")), vec![complex_definition()]),
        config.to_value(),
        true,
    );
}

#[test]
fn option_with_a_value_round_trips() {
    let mut x = SchemaObject::new();
    x.instance_type = Some(InstanceTypes::Vec(vec![InstanceType::String, InstanceType::Null]));
    test_schema(
        document("TestOption", x, vec![]),
        TestOption { x: Some("set".to_string()) }.to_value(),
        true,
    );
    test_schema(
        document("TestOptionComplex", optional(reference("Complex")), vec![complex_definition()]),
        TestOptionComplex { x: Some(Complex::default()) }.to_value(),
        true,
    );
}

#[test]
fn every_variant_of_a_choice_round_trips() {
    for x in [
        EnumComplex::A,
        EnumComplex::B(3),
        EnumComplex::C(Complex::default()),
        EnumComplex::D { a: -1, b: Complex::default() },
    ] {
        test_schema(
            document(
                "TestEnumComplex",
                all_of_ref("EnumComplex"),
                vec![complex_definition(), enum_complex_definition()],
            ),
            TestEnumComplex { x }.to_value(),
            true,
        );
    }
}

#[test]
fn a_schema_that_refers_to_itself_is_refused() {
    let rec = object_of(vec![
        ("x", with_default(typed(InstanceType::String), text(""))),
        ("y", optional(reference("Rec"))),
    ]);
    let schema = RootSchema {
        schema: all_of_ref("Rec"),
        definitions: vec![("Rec".to_string(), Schema::Object(rec))],
    };
    let r = NodeContainer::from_json_schema(&schema);
    assert!(matches!(
        r,
        Err(configurator::node::from_json_schema::SchemaError::ReferenceTooDeep)
    ));
    let y = Rec::default().to_value();
    match y {
        Value::Dict(d) => assert_eq!(d.len(), 2),
        _ => panic!(),
    }
}

// The configuration of the second test page: nested records, an option
// of an option, and a choice among bare names.

fn hella_schema() -> SchemaObject {
    let mut otros = typed(InstanceType::Integer);
    otros.format = Some("uint16".to_string());
    let mut opt = SchemaObject::new();
    opt.instance_type = Some(InstanceTypes::Vec(vec![InstanceType::String, InstanceType::Null]));
    object_of(vec![
        ("active", with_default(typed(InstanceType::Boolean), Json::Bool(false))),
        ("hella", with_default(typed(InstanceType::String), text("bonjour"))),
        ("opt", with_default(opt, Json::Null)),
        ("otros", with_default(otros, number(0))),
    ])
}

fn hella_json() -> Json {
    Json::Object(vec![
        ("active".to_string(), Json::Bool(false)),
        ("hella".to_string(), text("bonjour")),
        ("opt".to_string(), Json::Null),
        ("otros".to_string(), number(0)),
    ])
}

fn testing2_document() -> RootSchema {
    let mut otros = typed(InstanceType::Integer);
    otros.format = Some("uint16".to_string());
    let mut opt = SchemaObject::new();
    opt.instance_type = Some(InstanceTypes::Vec(vec![InstanceType::String, InstanceType::Null]));
    let sub_config = object_of(vec![
        ("active", with_default(typed(InstanceType::Boolean), Json::Bool(false))),
        ("hella", with_default(all_of_ref("Hella"), hella_json())),
        ("opt", with_default(opt, Json::Null)),
        ("otros", with_default(otros, number(0))),
    ]);
    let mut choice = typed(InstanceType::String);
    choice.enum_values = Some(vec![text("A"), text("B")]);
    let sub_default = Json::Object(vec![
        ("active".to_string(), Json::Bool(false)),
        ("hella".to_string(), hella_json()),
        ("opt".to_string(), Json::Null),
        ("otros".to_string(), number(0)),
    ]);
    let mut schema = object_of(vec![
        ("choice", with_default(all_of_ref("Choice"), text("A"))),
        ("sub", with_default(all_of_ref("SubConfig"), sub_default)),
    ]);
    schema.metadata = Some(Box::new(Metadata {
        title: Some("Config".to_string()),
        description: Some("Config description".to_string()),
        default: None,
    }));
    RootSchema {
        schema,
        definitions: vec![
            ("Choice".to_string(), Schema::Object(choice)),
            ("Hella".to_string(), Schema::Object(hella_schema())),
            ("SubConfig".to_string(), Schema::Object(sub_config)),
        ],
    }
}

fn hella_value() -> Value {
    let mut d = Dict::new();
    d.insert("active".to_string(), Value::Bool(false));
    d.insert("hella".to_string(), Value::String("bonjour".to_string()));
    d.insert("opt".to_string(), Value::Empty(Empty::Nothing));
    d.insert("otros".to_string(), Value::Num(Num::U16(0)));
    Value::Dict(d)
}

fn testing2_value() -> Value {
    let mut sub = Dict::new();
    sub.insert("active".to_string(), Value::Bool(false));
    sub.insert("hella".to_string(), hella_value());
    sub.insert("opt".to_string(), Value::Empty(Empty::Nothing));
    sub.insert("otros".to_string(), Value::Num(Num::U16(0)));
    let mut d = Dict::new();
    d.insert("sub".to_string(), Value::Dict(sub));
    d.insert("choice".to_string(), Value::String("A".to_string()));
    Value::Dict(d)
}

#[test]
fn testing2_gen_schema() {
    let tree = NodeContainer::from_json_schema(&testing2_document()).unwrap();
    assert_eq!(tree.title.as_deref(), Some("Config"));
    assert_eq!(tree.desc.as_deref(), Some("Config description"));
    match &tree.node {
        Node::Object(o) => {
            assert_eq!(o.len(), 2);
            assert_eq!(o.key_at(0), "choice");
            assert_eq!(o.key_at(1), "sub");
            assert!(matches!(o.node_at(0).node, Node::Enum(_)));
            assert!(matches!(o.node_at(1).node, Node::Object(_)));
        }
        _ => panic!("the root is an object"),
    }
    assert!(!tree.is_valid());
}

#[test]
fn testing2_print_default_figment() {
    test_schema(testing2_document(), testing2_value(), true);
}

#[test]
fn testing2_print_json() {
    // Binding nothing applies the defaults of the schema, unmodified.
    let mut tree = NodeContainer::from_json_schema(&testing2_document()).unwrap();
    tree.apply_figment(None).unwrap();
    assert!(tree.is_valid());
    assert!(tree.to_value().unwrap().is_none());
    assert!(tree.to_written_value().is_none());
}

#[test]
fn testing2_print_ron() {
    // A partial value: what is absent takes its default and is not written.
    let mut tree = NodeContainer::from_json_schema(&testing2_document()).unwrap();
    let mut d = Dict::new();
    d.insert("choice".to_string(), Value::String("B".to_string()));
    tree.apply_figment(Some(d)).unwrap();
    assert!(tree.is_valid());
    let mut expected = Dict::new();
    expected.insert("choice".to_string(), Value::String("B".to_string()));
    assert!(tree.to_written_value().unwrap().same(&Value::Dict(expected)));
}

#[test]
fn testing2_print_schema() {
    let mut page = Page::new(NodeContainer::from_json_schema(&testing2_document()).unwrap());
    page.tree.apply_figment(None).unwrap();
    let path = vec![
        DataPathType::Name("sub".to_string()),
        DataPathType::Name("otros".to_string()),
    ];
    let u = page
        .update(PageMsg::ChangeMsg(path.clone(), ChangeMsg::ChangeNumber("12".to_string())))
        .unwrap();
    assert!(matches!(u.action, Action::Nothing));
    let mut sub = Dict::new();
    sub.insert("otros".to_string(), Value::Num(Num::U16(12)));
    let mut expected = Dict::new();
    expected.insert("sub".to_string(), Value::Dict(sub));
    assert!(u.write.unwrap().same(&Value::Dict(expected)));
    match &page.tree.get_at(&path).unwrap().node {
        Node::Number(n) => {
            assert!(matches!(n.value, Some(NumberValue::U16(12))));
            assert_eq!(n.kind, NumberValueLight::U16);
            assert_eq!(n.value_string, "12");
        }
        _ => panic!(),
    }
}

// A record in a variant, next to a boolean.

fn nested_variant_document() -> RootSchema {
    let b = object_of(vec![("k", typed(InstanceType::String))]);
    let mut e = SchemaObject::new();
    e.subschemas = Some(Box::new(SubschemaValidation {
        all_of: None,
        any_of: None,
        one_of: Some(vec![variant_of("F", reference("B"))]),
        not: None,
    }));
    let mut schema = object_of(vec![
        ("bool", typed(InstanceType::Boolean)),
        ("e", reference("E")),
    ]);
    schema.metadata =
        Some(Box::new(Metadata { title: Some("A".to_string()), description: None, default: None }));
    RootSchema {
        schema,
        definitions: vec![
            ("B".to_string(), Schema::Object(b)),
            ("E".to_string(), Schema::Object(e)),
        ],
    }
}

#[test]
fn test() {
    let mut node = NodeContainer::from_json_schema(&nested_variant_document()).unwrap();
    let mut k = Dict::new();
    k.insert("k".to_string(), Value::String("kaka".to_string()));
    let mut f = Dict::new();
    f.insert("F".to_string(), Value::Dict(k));
    let mut d = Dict::new();
    d.insert("e".to_string(), Value::Dict(f));
    d.insert("bool".to_string(), Value::Bool(false));
    node.apply_figment(Some(d.clone())).unwrap();
    assert!(node.is_valid());
    assert!(node.to_value().unwrap().unwrap().same(&Value::Dict(d)));
}

#[test]
fn apply_retreive_value_test_string() {
    let schema = {
        let mut schema = object_of(vec![("a", typed(InstanceType::Boolean))]);
        schema.metadata = Some(Box::new(Metadata {
            title: Some("Config1".to_string()),
            description: None,
            default: None,
        }));
        RootSchema { schema, definitions: vec![] }
    };
    let mut tree = NodeContainer::from_json_schema(&schema).unwrap();
    let mut d = Dict::new();
    d.insert("a".to_string(), Value::Bool(false));
    tree.apply_figment(Some(d.clone())).unwrap();
    let value_from_node = tree.to_value().unwrap().unwrap();
    assert!(value_from_node.same(&Value::Dict(d)));
}

#[test]
fn node_generation_test_bool() {
    let schema = {
        let mut schema = object_of(vec![("bool", typed(InstanceType::Boolean))]);
        schema.metadata = Some(Box::new(Metadata {
            title: Some("TestBool".to_string()),
            description: None,
            default: None,
        }));
        RootSchema { schema, definitions: vec![] }
    };
    let tree = NodeContainer::from_json_schema(&schema).unwrap();
    match &tree.node {
        Node::Object(o) => assert!(matches!(o.get("bool").unwrap().node, Node::Bool(_))),
        _ => panic!(),
    }
}

#[test]
fn node_generation_test_string() {
    let schema = {
        let mut schema = object_of(vec![("string", typed(InstanceType::String))]);
        schema.metadata = Some(Box::new(Metadata {
            title: Some("TestString".to_string()),
            description: None,
            default: None,
        }));
        RootSchema { schema, definitions: vec![] }
    };
    let tree = NodeContainer::from_json_schema(&schema).unwrap();
    match &tree.node {
        Node::Object(o) => assert!(matches!(o.get("string").unwrap().node, Node::String(_))),
        _ => panic!(),
    }
}

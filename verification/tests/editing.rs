use configurator::format::ConfigFormat;
use configurator::json::{
    json_value_eq_figment_value, json_value_to_figment_value, json_values_eq_figment_value, Json,
    JsonNumber,
};
use configurator::node::apply::ApplyError;
use configurator::node::data_path::{DataPath, DataPathType};
use configurator::node::from_json_schema::{schema_object_to_node, SchemaError};
use configurator::node::provider::ValueError;
use configurator::node::{
    Node, NodeArray, NodeArrayTemplate, NodeBool, NodeContainer, NodeEnum, NodeNumber,
    NodeObject, NodeString, NodeValue,
};
use configurator::number::{
    convert_number, parse_number, Float, NumberValue, NumberValueLight,
};
use configurator::page::{Action, ChangeMsg, Dialog, EditError, Page, PageMsg};
use configurator::schema::{
    ArrayValidation, InstanceType, InstanceTypes, Items, Metadata, ObjectValidation, RootSchema,
    Schema, SchemaObject, SubschemaValidation,
};
use configurator::value::{Dict, Empty, Num, Value};

fn typed(t: InstanceType) -> SchemaObject {
    let mut s = SchemaObject::new();
    s.instance_type = Some(InstanceTypes::Single(t));
    s
}

fn formatted(t: InstanceType, format: &str) -> SchemaObject {
    let mut s = typed(t);
    s.format = Some(format.to_string());
    s
}

fn object_of(properties: Vec<(&str, SchemaObject)>) -> SchemaObject {
    let mut s = typed(InstanceType::Object);
    s.object = Some(Box::new(ObjectValidation {
        properties: properties
            .into_iter()
            .map(|(k, v)| (k.to_string(), Schema::Object(v)))
            .collect(),
        additional_properties: None,
    }));
    s
}

fn map_of(item: SchemaObject) -> SchemaObject {
    let mut s = typed(InstanceType::Object);
    s.object = Some(Box::new(ObjectValidation {
        properties: vec![],
        additional_properties: Some(Box::new(Schema::Object(item))),
    }));
    s
}

fn list_of(item: SchemaObject) -> SchemaObject {
    let mut s = typed(InstanceType::Array);
    s.array = Some(Box::new(ArrayValidation {
        items: Some(Items::Single(Box::new(Schema::Object(item)))),
        max_items: None,
        min_items: None,
    }));
    s
}

fn compiled(schema: SchemaObject) -> NodeContainer {
    NodeContainer::from_json_schema(&RootSchema { schema, definitions: vec![] }).unwrap()
}

fn dict(entries: Vec<(&str, Value)>) -> Dict {
    let mut d = Dict::new();
    for (k, v) in entries {
        d.insert(k.to_string(), v);
    }
    d
}

fn text(s: &str) -> Value {
    Value::String(s.to_string())
}

fn name(s: &str) -> DataPathType {
    DataPathType::Name(s.to_string())
}

// A boolean without a default.

#[test]
fn boolean_without_default() {
    let mut tree = compiled(object_of(vec![("bool", typed(InstanceType::Boolean))]));
    tree.apply_figment(None).unwrap();
    assert!(!tree.is_valid());
    assert!(tree.to_value().unwrap().is_none());
    assert!(tree.to_written_value().is_none());
    tree.apply_value(Value::Dict(Dict::new()), false).unwrap();
    assert!(!tree.is_valid());
    assert!(tree.to_written_value().is_none());

    let given = dict(vec![("bool", Value::Bool(true))]);
    tree.apply_figment(Some(given.clone())).unwrap();
    assert!(tree.is_valid());
    assert!(tree.to_written_value().unwrap().same(&Value::Dict(given)));
}

// A map of numbers.

fn int32_map() -> NodeContainer {
    let mut tree = compiled(map_of(formatted(InstanceType::Integer, "int32")));
    let given = dict(vec![("a", Value::Num(Num::U64(1))), ("b", Value::Num(Num::U64(2)))]);
    tree.apply_figment(Some(given)).unwrap();
    tree
}

#[test]
fn map_of_numbers_takes_new_keys_once() {
    let mut page = Page::new(int32_map());
    match &page.tree.node {
        Node::Object(o) => {
            assert_eq!(o.len(), 2);
            for (i, key, value) in [(0, "a", 1), (1, "b", 2)] {
                assert_eq!(o.key_at(i), key);
                let child = o.node_at(i);
                assert!(child.removable);
                match &child.node {
                    Node::Number(n) => {
                        assert!(matches!(n.value, Some(NumberValue::I32(v)) if v == value));
                        assert_eq!(n.value_string, value.to_string());
                    }
                    _ => panic!("the child is a number"),
                }
            }
        }
        _ => panic!("the root is an object"),
    }

    let u = page.change(&vec![], &ChangeMsg::AddNewNodeToObject("c".to_string())).unwrap();
    assert!(matches!(u.action, Action::RemoveDialog));
    match &page.tree.node {
        Node::Object(o) => {
            assert_eq!(o.len(), 3);
            assert_eq!(o.key_at(2), "c");
            let c = o.node_at(2);
            assert!(c.removable);
            assert!(c.modified);
            assert!(matches!(&c.node, Node::Number(n) if n.value.is_none()));
            assert!(o.node_at(0).modified && o.node_at(1).modified);
        }
        _ => panic!(),
    }
    // The new number has no value yet: nothing is written.
    assert!(u.write.is_none());

    let before = format!("{:?}", page.tree);
    let u = page.change(&vec![], &ChangeMsg::AddNewNodeToObject("a".to_string())).unwrap();
    assert!(matches!(u.action, Action::Nothing));
    assert!(u.write.is_none());
    assert_eq!(format!("{:?}", page.tree), before);
}

// A list of strings.

#[test]
fn removing_the_first_item_of_a_list() {
    let mut tree = compiled(list_of(typed(InstanceType::String)));
    tree.apply_value(Value::Array(vec![text("x"), text("y")]), false).unwrap();
    let mut page = Page::new(tree);
    let u = page.change(&vec![], &ChangeMsg::Remove(DataPathType::Indice(0))).unwrap();
    match &page.tree.node {
        Node::Array(a) => {
            let values = a.values.as_ref().unwrap();
            assert_eq!(values.len(), 1);
            assert!(values[0].modified);
            assert!(matches!(&values[0].node, Node::String(s) if s.value.as_deref() == Some("y")));
        }
        _ => panic!(),
    }
    assert!(u.write.unwrap().same(&Value::Array(vec![text("y")])));
    assert!(matches!(
        page.change(&vec![], &ChangeMsg::Remove(DataPathType::Indice(7))),
        Err(EditError::OutOfRange)
    ));
    assert!(matches!(
        page.change(&vec![], &ChangeMsg::Remove(name("x"))),
        Err(EditError::WrongStep)
    ));
}

// Binding twice.

#[test]
fn binding_the_same_value_twice_changes_nothing() {
    let mut tree = int32_map();
    let once = format!("{:?}", tree);
    let given = dict(vec![("a", Value::Num(Num::U64(1))), ("b", Value::Num(Num::U64(2)))]);
    tree.apply_figment(Some(given)).unwrap();
    assert_eq!(format!("{:?}", tree), once);
    // Another value leaves no child of the first one behind.
    tree.apply_figment(Some(dict(vec![("z", Value::Num(Num::I8(-3)))]))).unwrap();
    match &tree.node {
        Node::Object(o) => {
            assert_eq!(o.len(), 1);
            assert_eq!(o.key_at(0), "z");
            assert!(matches!(&o.node_at(0).node, Node::Number(n)
                if matches!(n.value, Some(NumberValue::I32(-3)))));
        }
        _ => panic!(),
    }
}

// Setting a node back to its default.

#[test]
fn a_complete_default_makes_the_node_valid() {
    let mut x = formatted(InstanceType::Integer, "uint8");
    x.metadata = Some(Box::new(Metadata {
        title: None,
        description: None,
        default: Some(Json::Number(JsonNumber::PosInt(7))),
    }));
    let mut page = Page::new(compiled(object_of(vec![("x", x)])));
    let path = vec![name("x")];
    page.change(&path, &ChangeMsg::ChangeNumber("300".to_string())).unwrap();
    assert!(!page.tree.is_valid());
    match &page.tree.get_at(&path).unwrap().node {
        Node::Number(n) => {
            assert!(n.value.is_none());
            assert_eq!(n.value_string, "300");
        }
        _ => panic!(),
    }
    let u = page.change(&path, &ChangeMsg::ApplyDefault).unwrap();
    assert!(page.tree.is_valid());
    let x = page.tree.get_at(&path).unwrap();
    assert!(!x.modified);
    assert!(page.tree.modified);
    assert!(matches!(&x.node, Node::Number(n) if matches!(n.value, Some(NumberValue::U8(7)))));
    // The node itself is not marked: only the empty root is written.
    assert!(u.write.unwrap().same(&Value::Dict(Dict::new())));
    let root: Vec<DataPathType> = vec![];
    assert!(matches!(page.change(&root, &ChangeMsg::ApplyDefault), Err(EditError::NoDefault)));
}

// Switching the variant of an enum.

fn two_records() -> NodeContainer {
    let mut s = SchemaObject::new();
    s.subschemas = Some(Box::new(SubschemaValidation {
        all_of: None,
        any_of: None,
        one_of: Some(vec![
            Schema::Object(object_of(vec![("left", typed(InstanceType::String))])),
            Schema::Object(object_of(vec![("right", typed(InstanceType::Boolean))])),
        ]),
        not: None,
    }));
    compiled(s)
}

#[test]
fn switching_a_variant_and_back_keeps_what_was_entered() {
    let mut page = Page::new(two_records());
    let root: Vec<DataPathType> = vec![];
    page.change(&root, &ChangeMsg::ChangeEnum(0)).unwrap();
    let left = vec![DataPathType::Indice(0), name("left")];
    page.change(&left, &ChangeMsg::ChangeString("kept".to_string())).unwrap();
    page.change(&root, &ChangeMsg::ChangeEnum(1)).unwrap();
    assert!(!page.tree.is_valid());
    let u = page.change(&root, &ChangeMsg::ChangeEnum(0)).unwrap();
    match &page.tree.get_at(&left).unwrap().node {
        Node::String(s) => assert_eq!(s.value.as_deref(), Some("kept")),
        _ => panic!(),
    }
    assert!(matches!(&page.tree.node, Node::Enum(e) if e.value == Some(0)));
    assert!(u.write.unwrap().same(&Value::Dict(dict(vec![("left", text("kept"))]))));
    assert!(matches!(page.change(&root, &ChangeMsg::ChangeEnum(2)), Err(EditError::OutOfRange)));
    assert!(matches!(
        page.change(&root, &ChangeMsg::ChangeBool(true)),
        Err(EditError::WrongNode)
    ));
}

// The breadcrumb after a removal.

#[test]
fn removing_a_key_cuts_the_breadcrumb_that_passes_it() {
    let mut tree = compiled(map_of(object_of(vec![("inner", typed(InstanceType::Boolean))])));
    let entry = || Value::Dict(dict(vec![("inner", Value::Bool(true))]));
    tree.apply_figment(Some(dict(vec![("a", entry()), ("b", entry())]))).unwrap();
    let mut page = Page::new(tree);
    page.update(PageMsg::OpenDataPath(name("a"))).unwrap();
    page.update(PageMsg::OpenDataPath(name("inner"))).unwrap();
    assert_eq!(page.data_path.pos, Some(1));
    assert_eq!(page.data_path.current().len(), 2);

    // A key that the breadcrumb does not pass.
    page.update(PageMsg::ChangeMsg(vec![], ChangeMsg::Remove(name("b")))).unwrap();
    assert_eq!(page.data_path.vec, vec![name("a"), name("inner")]);
    assert_eq!(page.data_path.pos, Some(1));

    // The key that it passes: what is left leads to the parent.
    page.update(PageMsg::ChangeMsg(vec![], ChangeMsg::Remove(name("a")))).unwrap();
    assert!(page.data_path.vec.is_empty());
    assert_eq!(page.data_path.pos, None);
}

#[test]
fn the_cursor_is_clamped_to_what_is_left() {
    let mut tree = compiled(object_of(vec![(
        "outer",
        map_of(object_of(vec![("inner", typed(InstanceType::Boolean))])),
    )]));
    let entry = Value::Dict(dict(vec![("inner", Value::Bool(true))]));
    tree.apply_figment(Some(dict(vec![("outer", Value::Dict(dict(vec![("k", entry)])))])))
        .unwrap();
    let mut path = DataPath::new();
    path.open(name("outer"));
    path.open(name("k"));
    path.open(name("inner"));
    assert_eq!(path.pos, Some(2));
    assert_eq!(path.get_current(), Some(&name("inner")));
    path.change_to(Some(0));
    path.open(name("k"));
    // Going down by the step that is there keeps what lies below.
    assert_eq!(path.vec.len(), 3);
    path.change_to(Some(2));
    let mut page = Page { tree, data_path: path };
    page.change(&vec![name("outer")], &ChangeMsg::Remove(name("k"))).unwrap();
    assert_eq!(page.data_path.vec, vec![name("outer")]);
    assert_eq!(page.data_path.pos, Some(0));

    let mut other = DataPath::new();
    other.open(name("outer"));
    other.open(name("x"));
    other.change_to(Some(0));
    other.open(name("y"));
    assert_eq!(other.vec, vec![name("outer"), name("y")]);
    assert_eq!(other.get_at(5), None);
    other.sanitize_path(&page.tree);
    assert_eq!(other.vec, vec![name("outer")]);
    assert_eq!(other.pos, Some(0));
}

// Renaming.

#[test]
fn renaming_a_key_keeps_its_place_and_its_value() {
    let mut page = Page::new(int32_map());
    let u = page
        .change(&vec![], &ChangeMsg::RenameKey { prev: "a".to_string(), new: "n".to_string() })
        .unwrap();
    assert!(matches!(u.action, Action::RemoveDialog));
    match &page.tree.node {
        Node::Object(o) => {
            assert_eq!(o.len(), 2);
            assert_eq!(o.key_at(0), "n");
            assert_eq!(o.key_at(1), "b");
            assert!(matches!(&o.node_at(0).node, Node::Number(n)
                if matches!(n.value, Some(NumberValue::I32(1)))));
            assert!(o.get("a").is_none());
            assert_eq!(o.index_of("b"), Some(1));
            assert!(o.contains_key("n"));
        }
        _ => panic!(),
    }
    let u = page
        .change(&vec![], &ChangeMsg::RenameKey { prev: "n".to_string(), new: "b".to_string() })
        .unwrap();
    assert!(matches!(u.action, Action::Nothing));
    assert!(matches!(
        page.change(&vec![], &ChangeMsg::RenameKey { prev: "q".to_string(), new: "r".to_string() }),
        Err(EditError::MissingKey)
    ));
    assert!(matches!(
        page.change(&vec![name("nowhere")], &ChangeMsg::AddNewNodeToArray),
        Err(EditError::PathNotFound)
    ));
}

#[test]
fn removing_a_key_moves_the_later_children_forward() {
    let mut tree = compiled(map_of(typed(InstanceType::String)));
    tree.apply_figment(Some(dict(vec![("a", text("1")), ("b", text("2")), ("c", text("3"))])))
        .unwrap();
    let mut page = Page::new(tree);
    let u = page.change(&vec![], &ChangeMsg::Remove(name("a"))).unwrap();
    match &page.tree.node {
        Node::Object(o) => {
            assert_eq!(o.len(), 2);
            assert_eq!(o.key_at(0), "b");
            assert_eq!(o.key_at(1), "c");
        }
        _ => panic!(),
    }
    assert!(u.write.unwrap().same(&Value::Dict(dict(vec![("b", text("2")), ("c", text("3"))]))));
}

// Adding to an array and to an object without a template.

#[test]
fn adding_an_item_to_a_list() {
    let mut tree = compiled(list_of(typed(InstanceType::Boolean)));
    tree.apply_value(Value::Array(vec![Value::Bool(true)]), false).unwrap();
    let mut page = Page::new(tree);
    let u = page.change(&vec![], &ChangeMsg::AddNewNodeToArray).unwrap();
    assert!(u.write.is_none());
    match &page.tree.node {
        Node::Array(a) => {
            let values = a.values.as_ref().unwrap();
            assert_eq!(values.len(), 2);
            assert!(values[0].modified && values[1].modified && values[1].removable);
            assert!(matches!(&values[1].node, Node::Bool(b) if b.value.is_none()));
            assert!(a.try_template(None).is_some());
        }
        _ => panic!(),
    }
    let u = page
        .change(&vec![DataPathType::Indice(1)], &ChangeMsg::ChangeBool(false))
        .unwrap();
    assert!(u.write.unwrap().same(&Value::Array(vec![Value::Bool(true), Value::Bool(false)])));

    let mut fixed = Page::new(compiled(object_of(vec![("x", typed(InstanceType::Boolean))])));
    assert!(matches!(
        fixed.change(&vec![], &ChangeMsg::AddNewNodeToObject("y".to_string())),
        Err(EditError::NoTemplate)
    ));
}

#[test]
fn a_default_that_does_not_fit_is_reported() {
    let mut x = typed(InstanceType::Boolean);
    x.metadata = Some(Box::new(Metadata {
        title: None,
        description: None,
        default: Some(Json::String("no".to_string())),
    }));
    let mut page = Page::new(compiled(object_of(vec![("x", x)])));
    assert!(matches!(
        page.change(&vec![name("x")], &ChangeMsg::ApplyDefault),
        Err(EditError::Bind(ApplyError::NoCompatibleNode))
    ));
}

// Messages that ask for a dialog or move the breadcrumb.

#[test]
fn messages_of_the_view() {
    let mut page = Page::new(int32_map());
    let u = page.update(PageMsg::DialogAddNewNodeToObject(vec![name("a")])).unwrap();
    match u.action {
        Action::CreateDialog(Dialog::AddNewNodeToObject { name: n, data_path }) => {
            assert_eq!(n, "");
            assert_eq!(data_path, vec![name("a")]);
        }
        _ => panic!(),
    }
    let u = page.update(PageMsg::DialogRenameKey(vec![], "a".to_string())).unwrap();
    match u.action {
        Action::CreateDialog(Dialog::RenameKey { previous, name: n, data_path }) => {
            assert_eq!(previous, "a");
            assert_eq!(n, "a");
            assert!(data_path.is_empty());
        }
        _ => panic!(),
    }
    page.update(PageMsg::OpenDataPath(name("a"))).unwrap();
    assert_eq!(page.data_path.pos, Some(0));
    page.update(PageMsg::SelectDataPath(None)).unwrap();
    assert_eq!(page.data_path.pos, None);
    assert_eq!(page.data_path.vec.len(), 1);
    assert!(matches!(page.update(PageMsg::Nothing).unwrap().action, Action::Nothing));
    assert_eq!(name("a").to_text(), "a");
    assert_eq!(DataPathType::Indice(12).to_text(), "12");
    assert!(name("a").same(&name("a")) && !name("a").same(&DataPathType::Indice(0)));
}

// Numbers.

#[test]
fn numbers_are_parsed_for_their_kind() {
    let ok = |kind, text: &str| parse_number(kind, text).ok();
    assert!(matches!(ok(NumberValueLight::U8, "255"), Some(NumberValue::U8(255))));
    assert!(ok(NumberValueLight::U8, "256").is_none());
    assert!(ok(NumberValueLight::U8, "-1").is_none());
    assert!(ok(NumberValueLight::U8, "-0").is_none());
    assert!(matches!(ok(NumberValueLight::U8, "+7"), Some(NumberValue::U8(7))));
    assert!(matches!(ok(NumberValueLight::U8, "007"), Some(NumberValue::U8(7))));
    assert!(ok(NumberValueLight::U8, "").is_none());
    assert!(ok(NumberValueLight::U8, "1 ").is_none());
    assert!(ok(NumberValueLight::U8, "1_0").is_none());
    assert!(matches!(ok(NumberValueLight::I8, "-128"), Some(NumberValue::I8(-128))));
    assert!(ok(NumberValueLight::I8, "-129").is_none());
    assert!(ok(NumberValueLight::I8, "128").is_none());
    assert!(matches!(ok(NumberValueLight::I16, "-32768"), Some(NumberValue::I16(-32768))));
    assert!(matches!(ok(NumberValueLight::U16, "65535"), Some(NumberValue::U16(65535))));
    assert!(matches!(ok(NumberValueLight::I32, "-0"), Some(NumberValue::I32(0))));
    assert!(matches!(
        ok(NumberValueLight::U32, "4294967295"),
        Some(NumberValue::U32(4294967295))
    ));
    assert!(ok(NumberValueLight::U32, "4294967296").is_none());
    assert!(matches!(
        ok(NumberValueLight::I64, "-9223372036854775808"),
        Some(NumberValue::I64(i64::MIN))
    ));
    assert!(matches!(
        ok(NumberValueLight::U64, "18446744073709551615"),
        Some(NumberValue::U64(u64::MAX))
    ));
    assert!(matches!(
        ok(NumberValueLight::U128, "340282366920938463463374607431768211455"),
        Some(NumberValue::U128(u128::MAX))
    ));
    assert!(ok(NumberValueLight::U128, "340282366920938463463374607431768211456").is_none());
    assert!(matches!(
        ok(NumberValueLight::I128, "-170141183460469231731687303715884105728"),
        Some(NumberValue::I128(i128::MIN))
    ));
    assert!(ok(NumberValueLight::I128, "170141183460469231731687303715884105728").is_none());
    assert!(matches!(ok(NumberValueLight::USize, "12"), Some(NumberValue::USize(12))));
    assert!(matches!(ok(NumberValueLight::ISize, "-12"), Some(NumberValue::ISize(-12))));
    let e = parse_number(NumberValueLight::I16, "x").unwrap_err();
    assert_eq!(e.kind, NumberValueLight::I16);
}

#[test]
fn texts_that_write_a_float() {
    for good in [
        "0", "1.5", "-1.5", "+.5", "5.", "1e5", "1E-5", "1.e+5", ".5e0", "inf", "-INF",
        "Infinity", "+infinity", "nan", "NaN", "007.100",
    ] {
        let f = Float::parse(good).unwrap_or_else(|| panic!("{good}"));
        assert_eq!(f.text(), good);
        assert!(good.parse::<f64>().is_ok());
    }
    for bad in ["", ".", "+", "e5", "1e", "1e+", "1.5.2", "1 ", " 1", "in", "infinit", "nane", "0x10", "1_0", "--1"] {
        assert!(Float::parse(bad).is_none(), "{bad}");
        assert!(bad.parse::<f64>().is_err());
    }
    assert!(matches!(
        parse_number(NumberValueLight::F64, "2.5"),
        Ok(NumberValue::F64(f)) if f.text() == "2.5"
    ));
    assert!(parse_number(NumberValueLight::F32, "two").is_err());
}

#[test]
fn numbers_are_converted_to_the_kind_of_the_node() {
    let to = |kind, n: Num| convert_number(kind, &n).ok();
    assert!(matches!(to(NumberValueLight::I32, Num::U64(5)), Some(NumberValue::I32(5))));
    assert!(to(NumberValueLight::U8, Num::I32(-5)).is_none());
    assert!(to(NumberValueLight::U8, Num::U16(256)).is_none());
    assert!(matches!(to(NumberValueLight::I8, Num::I128(-128)), Some(NumberValue::I8(-128))));
    assert!(matches!(
        to(NumberValueLight::U128, Num::U128(u128::MAX)),
        Some(NumberValue::U128(u128::MAX))
    ));
    assert!(to(NumberValueLight::I128, Num::U128(u128::MAX)).is_none());
    // An integer becomes a float by its decimal text.
    assert!(matches!(
        to(NumberValueLight::F64, Num::I64(-42)),
        Some(NumberValue::F64(f)) if f.text() == "-42"
    ));
    assert!(matches!(
        to(NumberValueLight::F32, Num::U128(u128::MAX)),
        Some(NumberValue::F32(f)) if f.text() == "340282366920938463463374607431768211455"
    ));
    // A float becomes an integer where its text writes one.
    assert!(matches!(
        to(NumberValueLight::I32, Num::F64(Float::parse("3").unwrap())),
        Some(NumberValue::I32(3))
    ));
    assert!(to(NumberValueLight::I32, Num::F64(Float::parse("3.5").unwrap())).is_none());
    assert_eq!(NumberValue::I64(-12).to_text(), "-12");
    assert_eq!(NumberValue::U8(0).to_text(), "0");
    assert_eq!(NumberValue::U128(u128::MAX).to_text(), u128::MAX.to_string());
    assert_eq!(NumberValue::I128(i128::MIN).to_text(), i128::MIN.to_string());
    assert_eq!(NumberValue::I16(5).kind(), NumberValueLight::I16);
    assert!(NumberValue::U32(9).into_num().same(&Num::U32(9)));
    assert!(!Num::U32(9).same(&Num::U64(9)));
    assert_eq!(Num::I8(-1).to_u128_lossy(), None);
    assert_eq!(Num::I8(1).to_u128_lossy(), Some(1));
    assert_eq!(Num::F32(Float::parse("1").unwrap()).to_u128_lossy(), None);
}

#[test]
fn format_words_name_the_kinds() {
    for (word, kind) in [
        ("uint8", NumberValueLight::U8),
        ("uint16", NumberValueLight::U16),
        ("uint32", NumberValueLight::U32),
        ("uint64", NumberValueLight::U64),
        ("uint128", NumberValueLight::U128),
        ("usize", NumberValueLight::USize),
        ("int8", NumberValueLight::I8),
        ("int16", NumberValueLight::I16),
        ("int32", NumberValueLight::I32),
        ("int64", NumberValueLight::I64),
        ("int128", NumberValueLight::I128),
        ("isize", NumberValueLight::ISize),
        ("float", NumberValueLight::F32),
        ("float64", NumberValueLight::F64),
    ] {
        assert_eq!(NumberValue::kind_from_str(word), Some(kind));
    }
    assert_eq!(NumberValue::kind_from_str("double"), None);
    assert_eq!(NumberValue::kind_from_str("uint8 "), None);
    // A number without a format is a 64-bit float, an integer a 128-bit one.
    let tree = compiled(object_of(vec![
        ("f", typed(InstanceType::Number)),
        ("i", typed(InstanceType::Integer)),
        ("u", formatted(InstanceType::Integer, "unheard")),
    ]));
    match &tree.node {
        Node::Object(o) => {
            let kind = |k: &str| match &o.get(k).unwrap().node {
                Node::Number(n) => n.kind,
                _ => panic!(),
            };
            assert_eq!(kind("f"), NumberValueLight::F64);
            assert_eq!(kind("i"), NumberValueLight::I128);
            assert_eq!(kind("u"), NumberValueLight::I128);
        }
        _ => panic!(),
    }
}

#[test]
fn formats_of_a_configuration() {
    assert_eq!(ConfigFormat::try_from("json").ok(), Some(ConfigFormat::Json));
    assert_eq!(ConfigFormat::try_from("cosmic_ron").ok(), Some(ConfigFormat::CosmicRon));
    assert_eq!(ConfigFormat::try_from("toml").unwrap_err().word, "toml");
    assert_eq!(ConfigFormat::Json.to_text(), "json");
    assert_eq!(ConfigFormat::CosmicRon.to_text(), "cosmic_ron");
}

// Dictionaries.

#[test]
fn a_dictionary_keeps_its_keys_in_order() {
    let d = dict(vec![
        ("b", Value::Bool(true)),
        ("a", Value::Bool(false)),
        ("ab", text("x")),
        ("", text("empty")),
        ("B", text("upper")),
        ("é", text("accent")),
        ("a", text("again")),
    ]);
    let keys: Vec<&str> = (0..d.len()).map(|i| d.key_at(i).as_str()).collect();
    assert_eq!(keys, vec!["", "B", "a", "ab", "b", "é"]);
    assert!(d.get("a").unwrap().same(&text("again")));
    assert!(d.get("c").is_none());
    assert_eq!(d.index_of("ab"), Some(3));
    assert!(d.value_at(1).same(&text("upper")));
    assert!(Value::Dict(d.clone()).same(&Value::Dict(d)));
    assert!(!Value::Empty(Empty::Unit).same(&Value::Empty(Empty::Nothing)));
    assert!(Value::Char('c').same(&Value::Char('c')));
    assert!(!Value::Array(vec![text("a")]).same(&Value::Array(vec![])));
}

// Literals.

#[test]
fn literals_and_values() {
    let j = Json::Object(vec![
        ("n".to_string(), Json::Number(JsonNumber::NegInt(-3))),
        ("p".to_string(), Json::Number(JsonNumber::PosInt(3))),
        ("f".to_string(), Json::Number(JsonNumber::Float(Float::parse("0.5").unwrap()))),
        ("l".to_string(), Json::Array(vec![Json::Null, Json::Bool(true)])),
        ("n".to_string(), Json::String("later".to_string())),
    ]);
    let expected = Value::Dict(dict(vec![
        ("f", Value::Num(Num::F64(Float::parse("0.5").unwrap()))),
        ("l", Value::Array(vec![Value::Empty(Empty::Nothing), Value::Bool(true)])),
        ("n", text("later")),
        ("p", Value::Num(Num::U64(3))),
    ]));
    assert!(json_value_to_figment_value(&j).same(&expected));
    assert!(json_value_to_figment_value(&Json::Number(JsonNumber::NegInt(-3)))
        .same(&Value::Num(Num::I64(-3))));

    let eq = |j: &Json, v: &Value| json_value_eq_figment_value(j, v);
    assert!(eq(&Json::Null, &Value::Empty(Empty::Unit)));
    assert!(eq(&Json::Bool(true), &Value::Bool(true)));
    assert!(!eq(&Json::Bool(true), &Value::Bool(false)));
    assert!(eq(&Json::String("a".into()), &text("a")));
    assert!(!eq(&Json::String("a".into()), &text("b")));
    assert!(eq(&Json::Number(JsonNumber::PosInt(5)), &Value::Num(Num::I8(5))));
    assert!(!eq(&Json::Number(JsonNumber::PosInt(5)), &Value::Num(Num::I8(6))));
    // A negative number reads as nothing on the one side, as itself on the other.
    assert!(!eq(&Json::Number(JsonNumber::NegInt(-1)), &Value::Num(Num::I8(-1))));
    assert!(eq(&Json::Number(JsonNumber::NegInt(-1)), &Value::Num(Num::U128(u128::MAX))));
    assert!(!eq(&Json::Number(JsonNumber::PosInt(u64::MAX)), &Value::Num(Num::U64(u64::MAX))));
    // Arrays are never equal.
    assert!(!eq(&Json::Array(vec![]), &Value::Array(vec![])));
    let o = Json::Object(vec![("k".to_string(), Json::Bool(true))]);
    assert!(eq(&o, &Value::Dict(dict(vec![("k", Value::Bool(true))]))));
    assert!(!eq(&o, &Value::Dict(dict(vec![("k", Value::Bool(false))]))));
    assert!(!eq(&o, &Value::Dict(dict(vec![("j", Value::Bool(true))]))));
    assert!(!eq(&o, &Value::Dict(dict(vec![("k", Value::Bool(true)), ("j", Value::Bool(true))]))));
    assert!(json_values_eq_figment_value(&vec![Json::Null, Json::Bool(true)], &Value::Bool(true)));
    assert!(!json_values_eq_figment_value(&vec![Json::Null], &Value::Bool(true)));
    assert!(!json_values_eq_figment_value(&vec![], &Value::Bool(true)));
    assert_eq!(Json::String("s".into()).as_str(), Some("s"));
    assert_eq!(Json::Null.as_str(), None);
    assert_eq!(JsonNumber::PosInt(u64::MAX).as_i64(), None);
    assert_eq!(JsonNumber::PosInt(7).as_i64(), Some(7));
}

// Binding failures.

#[test]
fn values_that_no_node_takes() {
    let mut tree = compiled(object_of(vec![("x", typed(InstanceType::Boolean))]));
    let before = format!("{:?}", tree);
    let r = tree.apply_figment(Some(dict(vec![("x", text("no"))])));
    assert_eq!(r, Err(ApplyError::NoCompatibleNode));
    assert_eq!(format!("{:?}", tree), before);
    assert_eq!(tree.apply_value(Value::Bool(true), true), Err(ApplyError::NoCompatibleNode));

    let mut choice = two_records();
    assert_eq!(
        choice.apply_value(Value::Dict(dict(vec![("none", text("x"))])), true),
        Err(ApplyError::NoCompatibleVariant)
    );
    assert_eq!(choice.apply_value(text("none"), true), Err(ApplyError::NoCompatibleVariant));
    assert_eq!(
        choice.apply_value(Value::Empty(Empty::Nothing), true),
        Err(ApplyError::NoCompatibleVariant)
    );
    choice.apply_value(Value::Dict(dict(vec![("right", Value::Bool(true))])), true).unwrap();
    assert!(matches!(&choice.node, Node::Enum(e) if e.value == Some(1)));
    assert!(matches!(&choice.node, Node::Enum(e) if e.unwrap_value().0 == 1));

    let mut number = compiled(formatted(InstanceType::Integer, "uint8"));
    assert_eq!(
        number.apply_value(Value::Num(Num::I32(-1)), true),
        Err(ApplyError::NoCompatibleNode)
    );
    // An array of anything takes no item.
    let mut any = compiled(typed(InstanceType::Array));
    assert_eq!(
        any.apply_value(Value::Array(vec![text("x")]), true),
        Err(ApplyError::NoCompatibleNode)
    );
    any.apply_value(Value::Array(vec![]), true).unwrap();
    assert!(any.is_valid());
}

#[test]
fn a_tuple_takes_no_more_items_than_it_has_shapes() {
    let mut s = typed(InstanceType::Array);
    s.array = Some(Box::new(ArrayValidation {
        items: Some(Items::Vec(vec![
            Schema::Object(typed(InstanceType::Boolean)),
            Schema::Object(typed(InstanceType::String)),
        ])),
        max_items: Some(2),
        min_items: Some(2),
    }));
    let mut tree = compiled(s);
    assert_eq!(
        tree.apply_value(Value::Array(vec![Value::Bool(true), text("a"), text("b")]), true),
        Err(ApplyError::NoCompatibleNode)
    );
    tree.apply_value(Value::Array(vec![Value::Bool(true), text("a")]), true).unwrap();
    match &tree.node {
        Node::Array(a) => {
            assert_eq!((a.min, a.max), (Some(2), Some(2)));
            assert!(matches!(a.template, NodeArrayTemplate::FirstN(_)));
            assert!(a.try_template(Some(1)).is_some());
            assert!(a.try_template(None).is_none());
            assert!(matches!(a.template(Some(0)).node, Node::Bool(_)));
            // The items of a tuple are not removable.
            assert!(!a.values.as_ref().unwrap()[0].removable);
        }
        _ => panic!(),
    }
    let mut page = Page::new(tree);
    assert!(matches!(
        page.change(&vec![], &ChangeMsg::AddNewNodeToArray),
        Err(EditError::NoTemplate)
    ));
}

// What a tree gives.

#[test]
fn only_what_is_modified_is_written() {
    let mut tree = compiled(object_of(vec![
        ("a", typed(InstanceType::Boolean)),
        ("b", typed(InstanceType::Null)),
    ]));
    tree.apply_figment(Some(dict(vec![("a", Value::Bool(true))]))).unwrap();
    assert!(tree.to_value().unwrap().unwrap().same(&Value::Dict(dict(vec![("a", Value::Bool(true))]))));
    tree.set_modified(&[name("b")]);
    assert!(tree
        .to_value()
        .unwrap()
        .unwrap()
        .same(&Value::Dict(dict(vec![("a", Value::Bool(true)), ("b", Value::Empty(Empty::Nothing))]))));
    tree.remove_value_rec();
    assert!(!tree.modified);
    assert!(tree.to_value().unwrap().is_none());
    assert!(!tree.is_valid());
}

#[test]
fn a_constant_is_always_written() {
    let mut pinned = typed(InstanceType::String);
    pinned.enum_values = Some(vec![Json::String("only".to_string())]);
    let mut tree = compiled(object_of(vec![("kind", pinned), ("x", typed(InstanceType::Boolean))]));
    match &tree.node {
        Node::Object(o) => {
            let kind = o.get("kind").unwrap();
            assert!(matches!(kind.node, Node::Value(_)));
            assert_eq!(kind.name().as_deref(), Some("only"));
            assert_eq!(o.get("x").unwrap().name(), None);
        }
        _ => panic!(),
    }
    tree.apply_figment(Some(dict(vec![("x", Value::Bool(false))]))).unwrap();
    assert!(tree
        .to_written_value()
        .unwrap()
        .same(&Value::Dict(dict(vec![("kind", text("only")), ("x", Value::Bool(false))]))));
    // A string leaves the constant as it is.
    tree.apply_figment(Some(dict(vec![("kind", text("other")), ("x", Value::Bool(false))])))
        .unwrap();
    assert!(tree
        .to_written_value()
        .unwrap()
        .same(&Value::Dict(dict(vec![("kind", text("only")), ("x", Value::Bool(false))]))));
    assert_eq!(NodeContainer::from_node(Node::Null).name().as_deref(), Some("Null"));
    assert_eq!(NodeContainer::from_node(Node::Any).name().as_deref(), Some("Any"));
}

#[test]
fn trees_that_have_no_value_to_give() {
    let mut any = NodeContainer::from_node(Node::Any);
    assert!(any.is_valid());
    assert!(any.to_value().unwrap().is_none());
    any.set_modified(&[]);
    assert_eq!(any.to_value().err(), Some(ValueError::Wildcard));

    let mut item = NodeContainer::from_node(Node::Bool(NodeBool { value: Some(true) }));
    item.modified = false;
    let mut array = NodeArray::new_any();
    array.values = Some(vec![item]);
    let mut tree = NodeContainer::from_node(Node::Array(array));
    tree.modified = true;
    assert!(tree.is_valid());
    assert_eq!(tree.to_value().err(), Some(ValueError::ItemWithoutValue));
    assert!(tree.to_written_value().is_none());

    // A choice that points past its variants is neither valid nor written.
    let mut choice = NodeContainer::from_node(Node::Enum(NodeEnum::new(vec![])));
    choice.modified = true;
    if let Node::Enum(e) = &mut choice.node {
        e.value = Some(3);
    }
    assert!(!choice.is_valid());
    assert!(choice.to_value().unwrap().is_none());
}

// Compiling.

#[test]
fn schemas_that_cannot_be_compiled() {
    let several = {
        let mut s = SchemaObject::new();
        s.subschemas = Some(Box::new(SubschemaValidation {
            all_of: Some(vec![
                Schema::Object(typed(InstanceType::Boolean)),
                Schema::Object(typed(InstanceType::String)),
            ]),
            any_of: None,
            one_of: None,
            not: None,
        }));
        s
    };
    assert_eq!(
        schema_object_to_node(&vec![], &several, 4).err(),
        Some(SchemaError::UnsupportedAllOf)
    );
    let mut none = SchemaObject::new();
    none.subschemas = Some(Box::new(SubschemaValidation {
        all_of: Some(vec![]),
        any_of: None,
        one_of: None,
        not: None,
    }));
    assert_eq!(schema_object_to_node(&vec![], &none, 4).err(), Some(SchemaError::UnsupportedAllOf));

    let mut missing = SchemaObject::new();
    missing.reference = Some("#/definitions/Gone".to_string());
    assert_eq!(
        schema_object_to_node(&vec![], &missing, 4).err(),
        Some(SchemaError::MissingDefinition)
    );
    let mut elsewhere = SchemaObject::new();
    elsewhere.reference = Some("other.json#/definitions/Gone".to_string());
    assert!(matches!(
        schema_object_to_node(&vec![], &elsewhere, 4).unwrap().node,
        Node::Any
    ));

    let defs = vec![("B".to_string(), Schema::Object(typed(InstanceType::Boolean)))];
    let mut to_b = SchemaObject::new();
    to_b.reference = Some("#/definitions/B".to_string());
    assert_eq!(
        schema_object_to_node(&defs, &to_b, 0).err(),
        Some(SchemaError::ReferenceTooDeep)
    );
    assert!(matches!(schema_object_to_node(&defs, &to_b, 1).unwrap().node, Node::Bool(_)));

    // An enum without variants takes nothing more.
    let mut empty = SchemaObject::new();
    empty.instance_type = Some(InstanceTypes::Vec(vec![]));
    empty.enum_values = Some(vec![Json::Null]);
    assert_eq!(schema_object_to_node(&vec![], &empty, 4).err(), Some(SchemaError::Unmergeable));
}

#[test]
fn parts_of_a_schema_are_merged() {
    // A later part replaces an earlier one.
    let mut s = typed(InstanceType::String);
    s.enum_values = Some(vec![Json::String("a".into()), Json::String("b".into())]);
    let tree = compiled(s);
    assert!(matches!(&tree.node, Node::Enum(e) if e.nodes.len() == 2 && e.value.is_none()));

    let string = NodeContainer::from_node(Node::String(NodeString::new()));
    let boolean = NodeContainer::from_node(Node::Bool(NodeBool::new()));
    let any = NodeContainer::from_node(Node::Any);
    assert!(matches!(string.merge(&boolean).unwrap().node, Node::Bool(_)));
    assert!(matches!(string.merge(&any).unwrap().node, Node::String(_)));
    assert!(matches!(any.merge(&string).unwrap().node, Node::String(_)));
    let choice = NodeContainer::from_node(Node::Enum(NodeEnum::new(vec![
        NodeContainer::from_node(Node::Enum(NodeEnum::new(vec![]))),
        NodeContainer::from_node(Node::Number(NodeNumber::new(NumberValueLight::U8))),
    ])));
    // The first variant that takes the part gets it.
    match choice.merge(&boolean).unwrap().node {
        Node::Enum(e) => {
            assert!(matches!(e.nodes[0].node, Node::Enum(_)));
            assert!(matches!(e.nodes[1].node, Node::Bool(_)));
        }
        _ => panic!(),
    }
    let value = NodeContainer::from_node(Node::Value(NodeValue::new(Json::Null)));
    assert!(matches!(boolean.merge(&value).unwrap().node, Node::Value(_)));
}

#[test]
fn metadata_is_attached_to_the_node() {
    let mut s = SchemaObject::new();
    s.reference = Some("#/definitions/B".to_string());
    s.metadata = Some(Box::new(Metadata {
        title: Some("Title".to_string()),
        description: Some("About".to_string()),
        default: Some(Json::Bool(true)),
    }));
    let defs = vec![("B".to_string(), Schema::Object(typed(InstanceType::Boolean)))];
    let tree = schema_object_to_node(&defs, &s, 4).unwrap();
    assert_eq!(tree.title.as_deref(), Some("Title"));
    assert_eq!(tree.desc.as_deref(), Some("About"));
    assert!(tree.default.as_ref().unwrap().same(&Value::Bool(true)));
    assert!(!tree.modified && !tree.removable);
    let bare = tree.metadata(&None);
    assert!(bare.title.is_none() && bare.desc.is_none() && bare.default.is_none());
}

// Objects.

#[test]
fn children_of_an_object() {
    let child = |b: bool| NodeContainer::from_node(Node::Bool(NodeBool { value: Some(b) }));
    let o = NodeObject::new(
        vec![
            ("a".to_string(), child(true)),
            ("b".to_string(), child(true)),
            ("a".to_string(), child(false)),
        ],
        Some(child(false)),
    );
    assert_eq!(o.len(), 2);
    assert_eq!(o.key_at(0), "a");
    assert!(matches!(&o.node_at(0).node, Node::Bool(b) if b.value == Some(false)));
    let t = o.template().unwrap();
    assert!(t.removable);
    assert!(!o.template_ref().unwrap().removable);
    let o = o.swap_removed("a");
    assert_eq!(o.len(), 1);
    assert_eq!(o.key_at(0), "b");
    let o = o.with_entry("c".to_string(), child(true)).with_entry("d".to_string(), child(true));
    let o = o.swap_removed("b");
    assert_eq!((o.key_at(0).as_str(), o.key_at(1).as_str()), ("d", "c"));
    let o = o.shift_removed("d").shift_removed("zz");
    assert_eq!(o.len(), 1);
    let o = o.with_node_at(0, child(false)).with_all_modified().with_template(None);
    assert!(o.node_at(0).modified);
    assert!(o.template().is_none());
    let copy = o.clone();
    assert_eq!(copy.len(), 1);
    assert_eq!(copy.index_of("c"), Some(0));
    assert_eq!(NodeObject::empty(None).len(), 0);
}

#[test]
fn paths_into_the_tree() {
    let mut tree = two_records();
    tree.apply_value(Value::Dict(dict(vec![("left", text("l"))])), true).unwrap();
    // A path may lead into a variant that is not chosen; a breadcrumb may not.
    let into_other = [DataPathType::Indice(1), name("right")];
    assert!(tree.get_at(&into_other).is_some());
    let mut crumb = DataPath { vec: into_other.to_vec(), pos: Some(1) };
    crumb.sanitize_path(&tree);
    assert!(crumb.vec.is_empty());
    assert_eq!(crumb.pos, None);
    assert!(tree.get_at(&[name("left")]).is_none());
    assert!(tree.get_at(&[DataPathType::Indice(2)]).is_none());
    let replaced = tree
        .replaced_at(
            &[DataPathType::Indice(1), name("right")],
            NodeContainer::from_node(Node::Null),
        )
        .unwrap();
    assert!(matches!(replaced.get_at(&into_other).unwrap().node, Node::Null));
    assert!(tree.replaced_at(&[name("x")], NodeContainer::from_node(Node::Null)).is_none());
    let mut marked = NodeContainer::from_node(tree.node.clone());
    marked.set_modified(&into_other);
    assert!(marked.modified);
    assert!(marked.get_at(&into_other).unwrap().modified);
    assert!(!tree.get_at(&into_other).unwrap().modified);
    assert!(!marked.get_at(&[DataPathType::Indice(0), name("left")]).unwrap().removable);
}

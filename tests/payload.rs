use bevy_spicy_data::compiler::compile;
use bevy_spicy_data::payload::read_payload;
use bevy_spicy_data::registry::{ConfigValue, FieldValue};
use bevy_spicy_data::schema::{ScalarKind, SchemaEntry, SchemaNode};

fn field(key: &str, value: ConfigValue) -> FieldValue {
    FieldValue { key: key.to_string(), value }
}

fn schema() -> SchemaNode {
    SchemaNode::Table(vec![
        SchemaEntry {
            key: "display".to_string(),
            node: SchemaNode::Table(vec![SchemaEntry {
                key: "title".to_string(),
                node: SchemaNode::Scalar(ScalarKind::Text),
            }]),
        },
        SchemaEntry { key: "limit".to_string(), node: SchemaNode::Scalar(ScalarKind::Integer) },
    ])
}

#[test]
fn payload_is_read_in_schema_order() {
    let root = compile(&schema()).unwrap();
    let payload = ConfigValue::Record(vec![
        field("limit", ConfigValue::Integer(5)),
        field("extra", ConfigValue::Boolean(false)),
        field("display", ConfigValue::Record(vec![field("title", ConfigValue::Text("Hi".to_string()))])),
    ]);
    let out = read_payload(&payload, &root).unwrap();
    assert_eq!(
        out,
        ConfigValue::Record(vec![
            field("display", ConfigValue::Record(vec![field("title", ConfigValue::Text("Hi".to_string()))])),
            field("limit", ConfigValue::Integer(5)),
        ])
    );
}

#[test]
fn missing_field_fails_the_load() {
    let root = compile(&schema()).unwrap();
    let payload = ConfigValue::Record(vec![field("limit", ConfigValue::Integer(5))]);
    assert!(read_payload(&payload, &root).is_err());
}

#[test]
fn wrong_kind_fails_the_load() {
    let root = compile(&schema()).unwrap();
    let payload = ConfigValue::Record(vec![
        field("display", ConfigValue::Record(vec![field("title", ConfigValue::Integer(3))])),
        field("limit", ConfigValue::Integer(5)),
    ]);
    let err = read_payload(&payload, &root).unwrap_err();
    assert!(err.message.ends_with("title"));
}

#[test]
fn scalar_payload_for_root_fails() {
    let root = compile(&schema()).unwrap();
    assert!(read_payload(&ConfigValue::Integer(1), &root).is_err());
}

#[test]
fn reading_a_read_payload_again_gives_the_same_value() {
    let root = compile(&schema()).unwrap();
    let payload = ConfigValue::Record(vec![
        field("limit", ConfigValue::Integer(u64::MAX)),
        field("display", ConfigValue::Record(vec![field("title", ConfigValue::Text("Hi".to_string()))])),
        field("unused", ConfigValue::FloatBits(1.5f64.to_bits())),
    ]);
    let once = read_payload(&payload, &root).unwrap();
    let twice = read_payload(&once, &root).unwrap();
    assert_eq!(once, twice);
}

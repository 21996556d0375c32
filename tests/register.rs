use bevy_spicy_data::registry::{register_root, reload, ConfigValue, FieldValue, LoadContext, LoadError};

fn field(key: &str, value: ConfigValue) -> FieldValue {
    FieldValue { key: key.to_string(), value }
}

fn text(s: &str) -> ConfigValue {
    ConfigValue::Text(s.to_string())
}

fn addresses(ctx: &LoadContext) -> Vec<String> {
    ctx.labels.iter().map(|l| l.address.clone()).collect()
}

fn display_root(title: &str, limit: u64) -> ConfigValue {
    ConfigValue::Record(vec![
        field("display", ConfigValue::Record(vec![field("title", text(title))])),
        field("limit", ConfigValue::Integer(limit)),
    ])
}

#[test]
fn nested_leaf_registers_under_dotted_path() {
    let root = ConfigValue::Record(vec![field(
        "a",
        ConfigValue::Record(vec![field("b", text("x")), field("c", ConfigValue::Integer(1))]),
    )]);
    let ctx = register_root(&root);
    assert_eq!(addresses(&ctx), vec!["a".to_string(), "a.b".to_string(), "a.c".to_string()]);
    assert_eq!(ctx.labels[2].value, ConfigValue::Integer(1));
    assert_eq!(ctx.default_asset, Some(root));
}

#[test]
fn display_root_registers_every_node() {
    let root = display_root("Hi", 5);
    let ctx = register_root(&root);
    assert_eq!(
        addresses(&ctx),
        vec!["display".to_string(), "display.title".to_string(), "limit".to_string()]
    );
    assert_eq!(ctx.labels[1].value, text("Hi"));
    assert_eq!(ctx.labels[2].value, ConfigValue::Integer(5));
    assert_eq!(
        ctx.labels[0].value,
        ConfigValue::Record(vec![field("title", text("Hi"))])
    );
    assert_eq!(ctx.default_asset, Some(display_root("Hi", 5)));
}

#[test]
fn scalar_kinds_register_their_values() {
    let root = ConfigValue::Record(vec![
        field("ratio", ConfigValue::FloatBits(0.5f64.to_bits())),
        field("on", ConfigValue::Boolean(true)),
        field("when", ConfigValue::Datetime("1979-05-27".to_string())),
    ]);
    let ctx = register_root(&root);
    assert_eq!(addresses(&ctx), vec!["ratio".to_string(), "on".to_string(), "when".to_string()]);
    assert_eq!(ctx.labels[0].value, ConfigValue::FloatBits(0.5f64.to_bits()));
    assert_eq!(ctx.labels[1].value, ConfigValue::Boolean(true));
    assert_eq!(ctx.labels[2].value, ConfigValue::Datetime("1979-05-27".to_string()));
}

#[test]
fn empty_root_registers_only_the_default() {
    let ctx = register_root(&ConfigValue::Record(vec![]));
    assert!(ctx.labels.is_empty());
    assert_eq!(ctx.default_asset, Some(ConfigValue::Record(vec![])));
}

#[test]
fn failed_reload_keeps_previous_tree() {
    let mut store = register_root(&display_root("Hi", 5));
    let before = register_root(&display_root("Hi", 5));
    let r = reload(&mut store, Err(LoadError { message: "bad payload".to_string() }));
    assert_eq!(r, Err(LoadError { message: "bad payload".to_string() }));
    assert_eq!(store, before);
}

#[test]
fn successful_reload_replaces_every_label() {
    let mut store = register_root(&display_root("Hi", 5));
    let r = reload(&mut store, Ok(display_root("Bye", 7)));
    assert_eq!(r, Ok(()));
    assert_eq!(store, register_root(&display_root("Bye", 7)));
    assert_eq!(store.labels[1].value, text("Bye"));
    assert_eq!(store.labels[2].value, ConfigValue::Integer(7));
}

#[test]
fn reload_into_empty_store() {
    let mut store = LoadContext { default_asset: None, labels: vec![] };
    reload(&mut store, Ok(display_root("Hi", 5))).unwrap();
    assert_eq!(store.default_asset, Some(display_root("Hi", 5)));
    assert_eq!(store.labels.len(), 3);
}

use config::accessor::accessor_from_str;
use config::config::{Config, ConfigBuilderError, ConfigError, ConfigSource};
use config::element::{
    json_as_config_element, toml_into_config_element, AsConfigElement, ConfigElement,
    IntoConfigElement,
};
use config::formats::json::{JsonNode, JsonNumber};
use config::formats::toml_format::TomlNode;
use config::object::{ConfigObject, ConfigObjectAccessError, ConfigSourceDescription};
use config::value::Table;

/// The sources these tests build configurations from.
enum TestSource {
    /// Hands out the element it was made with.
    Element(fn() -> ConfigElement),
    /// Hands out the element of a JSON document.
    Json(fn() -> JsonNode),
    /// Hands out the element of a TOML document.
    Toml(fn() -> TomlNode),
    /// Always fails.
    Failing,
}

impl ConfigSource for TestSource {
    type Error = String;

    fn loads(&self, r: Result<ConfigObject, String>) -> bool {
        match self {
            TestSource::Failing => r.is_err(),
            _ => r.is_ok(),
        }
    }

    fn load(&self) -> Result<ConfigObject, String> {
        let element = match self {
            TestSource::Element(f) => f(),
            TestSource::Json(f) => json_as_config_element(&f()),
            TestSource::Toml(f) => toml_into_config_element(&f()),
            TestSource::Failing => return Err("unreachable host".to_string()),
        };
        Ok(ConfigObject::new(element, ConfigSourceDescription::Unknown))
    }
}

fn s(x: &str) -> String {
    x.to_string()
}

fn json_object(members: Vec<(&str, &str)>) -> JsonNode {
    JsonNode::Object(
        members.into_iter().map(|(k, v)| (s(k), JsonNode::String(s(v)))).collect(),
    )
}

/// `{ "key": "value" }`
fn json_key_value() -> JsonNode {
    json_object(vec![("key", "value")])
}

/// `{ "key1": "value1" }`
fn json_one() -> JsonNode {
    json_object(vec![("key1", "value1")])
}

/// `{ "key1": "value2", "key2": "value3" }`
fn json_two() -> JsonNode {
    json_object(vec![("key1", "value2"), ("key2", "value3")])
}

/// `key1 = "value2"` and `key2 = "value3"`
fn toml_two() -> TomlNode {
    TomlNode::Table(vec![
        (s("key1"), TomlNode::String(s("value2"))),
        (s("key2"), TomlNode::String(s("value3"))),
    ])
}

fn expect_str(c: &Config, key: &str, expected: &str) {
    let r = c.get(key);
    assert!(r.is_ok());
    let r = r.unwrap();
    assert!(r.is_some());
    match r.unwrap() {
        ConfigElement::Str(s) => assert_eq!(s, expected),
        _ => panic!(),
    }
}

#[test]
fn config_test_compile_loading() {
    let _c = Config::builder().load(TestSource::Element(|| ConfigElement::Null)).build().unwrap();
}

#[test]
fn mod_test_compile_loading() {
    let _c = Config::builder().load(TestSource::Element(|| ConfigElement::Null)).build().unwrap();
}

#[test]
fn config_test_load_json() {
    let _c = Config::builder().load(TestSource::Json(json_key_value)).build().unwrap();
}

#[test]
fn mod_test_load_json() {
    let _c = Config::builder().load(TestSource::Json(json_key_value)).build().unwrap();
}

#[test]
fn test_load_json_get_value() {
    let c = Config::builder().load(TestSource::Json(json_key_value)).build().unwrap();
    let r = c.get("key");
    assert!(r.is_ok());
    let r = r.unwrap();
    assert!(r.is_some());
    let r = r.unwrap();
    match r {
        ConfigElement::Str(s) => assert_eq!(s, "value"),
        _ => panic!(),
    }
}

#[test]
fn test_layered_json_config() {
    let c = Config::builder()
        .load(TestSource::Json(json_one))
        .load(TestSource::Json(json_two))
        .build()
        .unwrap();
    expect_str(&c, "key1", "value1");
    expect_str(&c, "key2", "value3");
}

#[test]
fn test_layered_json_toml_config() {
    let c = Config::builder()
        .load(TestSource::Json(json_one))
        .load(TestSource::Toml(toml_two))
        .build()
        .unwrap();
    expect_str(&c, "key1", "value1");
    expect_str(&c, "key2", "value3");
}

#[test]
fn deser_json_1() {
    let e = json_key_value().as_config_element().unwrap();
    match e {
        ConfigElement::Mapping(map) => {
            assert_eq!(*map.get("key").unwrap(), ConfigElement::Str("value".to_string()));
        }
        _ => panic!("Not a map"),
    }
}

#[test]
fn deser_toml_1() {
    let doc = TomlNode::Table(vec![(s("key"), TomlNode::String(s("value")))]);
    let e = doc.into_config_element().unwrap();
    match e {
        ConfigElement::Mapping(map) => {
            assert_eq!(*map.get("key").unwrap(), ConfigElement::Str("value".to_string()));
        }
        _ => panic!("Not a map"),
    }
}

#[test]
fn overwrite_beats_layer_and_layer_beats_default() {
    let c = Config::builder()
        .load_default(TestSource::Json(|| json_object(vec![("a", "default"), ("b", "default"), ("c", "default")])))
        .load(TestSource::Json(|| json_object(vec![("a", "layer"), ("b", "layer")])))
        .load_overwrite(TestSource::Json(|| json_object(vec![("a", "overwrite")])))
        .build()
        .unwrap();
    expect_str(&c, "a", "overwrite");
    expect_str(&c, "b", "layer");
    expect_str(&c, "c", "default");
    assert!(c.get("d").unwrap().is_none());
}

#[test]
fn failing_source_is_wrapped() {
    let b = Config::builder().load(TestSource::Failing);
    match b.build() {
        Err(ConfigBuilderError::Wrapped(e)) => assert_eq!(e, "unreachable host"),
        Ok(_) => panic!("a failing source must not load"),
    }
    assert!(Config::builder().load_default(TestSource::Failing).build().is_err());
    assert!(Config::builder().load_overwrite(TestSource::Failing).build().is_err());
    let mixed = Config::builder()
        .load(TestSource::Json(json_one))
        .load_default(TestSource::Failing);
    assert!(mixed.build().is_err());
}

#[test]
fn builder_builds_again_and_reads_key_on_bool_as_error() {
    let b = Config::builder().load(TestSource::Element(|| ConfigElement::Bool(true)));
    let c = b.build().unwrap();
    match c.get_with_accessor(accessor_from_str("x")) {
        Err(ConfigError::ConfigObjectAccessError(ConfigObjectAccessError::AccessWithKeyOnBool(k))) => {
            assert_eq!(k, "x")
        }
        _ => panic!("a key on a boolean is an access error"),
    }
    let again = b.build().unwrap();
    assert!(again.get("x").is_err());
}

#[test]
fn nested_path_reads_through_maps_and_lists() {
    let mut inner: Table<ConfigElement> = Table::new();
    inner.insert(s("port"), ConfigElement::U16(8080));
    let list = ConfigElement::List(vec![ConfigElement::I64(1), ConfigElement::Mapping(inner)]);
    let mut root: Table<ConfigElement> = Table::new();
    root.insert(s("servers"), list);
    let o = ConfigObject::new(ConfigElement::Mapping(root), ConfigSourceDescription::Custom(s("test")));
    assert_eq!(o.get(&accessor_from_str("servers.1.port")).unwrap(), Some(&ConfigElement::U16(8080)));
    assert_eq!(o.get(&accessor_from_str("servers.0")).unwrap(), Some(&ConfigElement::I64(1)));
    assert_eq!(o.get(&accessor_from_str("servers.2")).unwrap(), None);
    assert_eq!(o.get(&accessor_from_str("missing.x")).unwrap(), None);
    match o.get(&accessor_from_str("servers.0.x")) {
        Err(ConfigObjectAccessError::AccessWithKeyOnI64(k)) => assert_eq!(k, "x"),
        _ => panic!(),
    }
    match o.get(&accessor_from_str("servers.1.port.3")) {
        Err(ConfigObjectAccessError::AccessWithIndexOnU16(n)) => assert_eq!(n, 3),
        _ => panic!(),
    }
    match o.get(&accessor_from_str("0")) {
        Err(ConfigObjectAccessError::AccessWithIndexOnMap(n)) => assert_eq!(n, 0),
        _ => panic!(),
    }
}

#[test]
fn access_error_texts() {
    assert_eq!(ConfigObjectAccessError::NoAccessor.to_text(), "Tried to access with no accessor");
    assert_eq!(ConfigObjectAccessError::AccessWithKeyOnStr(s("a")).to_text(), "Accessed String with key 'a'");
    assert_eq!(ConfigObjectAccessError::AccessWithIndexOnStr(4).to_text(), "Accessed usize with index '4'");
    assert_eq!(ConfigObjectAccessError::AccessWithIndexOnMap(12).to_text(), "Accessed Map with index '12'");
    assert_eq!(ConfigObjectAccessError::AccessWithKeyOnList(s("k")).to_text(), "Accessed List with key 'k'");
    assert_eq!(
        ConfigError::ConfigObjectAccessError(ConfigObjectAccessError::NoAccessor).to_text(),
        "Config object access error"
    );
}

#[test]
fn json_numbers_choose_i64_then_u64_then_float() {
    let n = |i: Option<i64>, u: Option<u64>, f: Option<&str>| {
        JsonNode::Number(JsonNumber { as_i64: i, as_u64: u, as_f64: f.map(s) })
    };
    assert_eq!(json_as_config_element(&n(Some(-3), None, Some("-3.0"))), ConfigElement::I64(-3));
    assert_eq!(
        json_as_config_element(&n(None, Some(18446744073709551615), Some("18446744073709552000.0"))),
        ConfigElement::U64(18446744073709551615)
    );
    assert_eq!(json_as_config_element(&n(None, None, Some("1.5"))), ConfigElement::F64(s("1.5")));
    assert_eq!(json_as_config_element(&JsonNode::Null), ConfigElement::Null);
}

#[test]
fn later_json_member_replaces_earlier_one() {
    let doc = JsonNode::Object(vec![
        (s("a"), JsonNode::Bool(true)),
        (s("a"), JsonNode::Bool(false)),
    ]);
    match json_as_config_element(&doc) {
        ConfigElement::Mapping(m) => {
            assert_eq!(m.len(), 1);
            assert_eq!(m.get("a"), Some(&ConfigElement::Bool(false)));
        }
        _ => panic!(),
    }
}

#[test]
fn reading_after_insert_sees_the_inserted_element() {
    let mut t: Table<ConfigElement> = Table::new();
    t.insert(s("a"), ConfigElement::I8(1));
    let mut inner: Table<ConfigElement> = Table::new();
    inner.insert(s("x"), ConfigElement::Bool(true));
    t.insert(s("b"), ConfigElement::Mapping(inner));
    t.insert(s("a"), ConfigElement::I8(2));
    let e = ConfigElement::Mapping(t);
    assert_eq!(e.get(&accessor_from_str("a")).unwrap(), Some(&ConfigElement::I8(2)));
    assert_eq!(e.get(&accessor_from_str("b.x")).unwrap(), Some(&ConfigElement::Bool(true)));
    assert_eq!(e.get(&accessor_from_str("b.y")).unwrap(), None);
}

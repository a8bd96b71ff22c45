use config::accessor::{accessor_from_str, AccessType, ParsableAccessor};
use config::error::{ConfigError, Unexpected};
use config::value::{find_entry, Table, ConfigValue, ValueKind};

fn s(x: &str) -> String {
    x.to_string()
}

#[test]
fn table_insert_then_get_reads_the_inserted_value() {
    let mut t: Table<i32> = Table::new();
    assert_eq!(t.insert(s("a"), 1), None);
    assert_eq!(t.insert(s("b"), 2), None);
    assert_eq!(t.get("a"), Some(&1));
    assert_eq!(t.get("b"), Some(&2));
    assert_eq!(t.get("c"), None);
    assert!(t.contains_key("a"));
    assert!(!t.contains_key("c"));
    assert_eq!(t.len(), 2);
}

#[test]
fn table_insert_replaces_in_place_and_returns_the_old_value() {
    let mut t: Table<i32> = Table::new();
    t.insert(s("a"), 1);
    t.insert(s("b"), 2);
    assert_eq!(t.insert(s("a"), 10), Some(1));
    assert_eq!(t.len(), 2);
    assert_eq!(t.position("a"), Some(0));
    assert_eq!(t.position("b"), Some(1));
    assert_eq!(t.get("a"), Some(&10));
}

#[test]
fn table_remove_moves_the_last_entry_into_the_gap() {
    let mut t: Table<i32> = Table::new();
    t.insert(s("a"), 1);
    t.insert(s("b"), 2);
    t.insert(s("c"), 3);
    assert_eq!(t.remove("a"), Some(1));
    assert_eq!(t.remove("a"), None);
    assert_eq!(t.position("c"), Some(0));
    assert_eq!(t.position("b"), Some(1));
    assert_eq!(t.get("a"), None);
}

#[test]
fn table_extend_inserts_in_order() {
    let mut t: Table<i32> = Table::new();
    t.insert(s("a"), 1);
    let mut u: Table<i32> = Table::new();
    u.insert(s("b"), 2);
    u.insert(s("a"), 3);
    t.extend(u);
    assert_eq!(t.len(), 2);
    assert_eq!(t.get("a"), Some(&3));
    assert_eq!(t.position("a"), Some(0));
    assert_eq!(t.get("b"), Some(&2));
}

#[test]
fn find_entry_finds_the_first_match() {
    let v = vec![(s("x"), 1), (s("y"), 2), (s("x"), 3)];
    assert_eq!(find_entry(&v, "x"), Some(0));
    assert_eq!(find_entry(&v, "y"), Some(1));
    assert_eq!(find_entry(&v, "z"), None);
}

#[test]
fn value_new_keeps_origin_and_kind() {
    let uri = s("settings.toml");
    let v = ConfigValue::new(Some(&uri), ValueKind::I64(3));
    assert_eq!(v.origin, Some(s("settings.toml")));
    assert_eq!(v.kind, ValueKind::I64(3));
    assert_eq!(ConfigValue::new(None, ValueKind::Nil).origin, None);
}

#[test]
fn accessor_reads_numbers_as_indices_and_the_rest_as_keys() {
    let a = accessor_from_str("servers.0.host");
    assert_eq!(a.len(), 3);
    assert_eq!(a.head(), Some(&AccessType::Key(s("servers"))));
    assert_eq!(*a.step(1), AccessType::Index(0));
    assert_eq!(*a.step(2), AccessType::Key(s("host")));
    let rest = a.pop();
    assert_eq!(rest.len(), 2);
    assert_eq!(rest.head(), Some(&AccessType::Index(0)));
}

#[test]
fn accessor_keeps_empty_pieces_and_signs() {
    let a = accessor_from_str("a..-1.+2");
    assert_eq!(a.len(), 4);
    assert_eq!(*a.step(0), AccessType::Key(s("a")));
    assert_eq!(*a.step(1), AccessType::Key(s("")));
    assert_eq!(*a.step(2), AccessType::Key(s("-1")));
    assert_eq!(*a.step(3), AccessType::Index(2));
    let e = accessor_from_str("");
    assert_eq!(e.len(), 1);
    assert_eq!(e.head(), Some(&AccessType::Key(s(""))));
}

#[test]
fn accessor_index_too_large_for_usize_is_a_key() {
    let a = accessor_from_str("18446744073709551616");
    assert_eq!(*a.step(0), AccessType::Key(s("18446744073709551616")));
    let b = accessor_from_str("18446744073709551615");
    assert_eq!(*b.step(0), AccessType::Index(18446744073709551615));
}

#[test]
fn parsable_accessor_for_str_and_string_agree() {
    let from_str = ParsableAccessor::parse(&"a.1").ok().unwrap();
    let from_string = ParsableAccessor::parse(&s("a.1")).ok().unwrap();
    assert_eq!(from_str, from_string);
    assert_eq!(from_str, accessor_from_str("a.1"));
}

#[test]
fn unexpected_texts() {
    assert_eq!(Unexpected::Bool(true).to_text(), "boolean `true`");
    assert_eq!(Unexpected::I64(-12).to_text(), "64-bit integer `-12`");
    assert_eq!(Unexpected::I128(-170141183460469231731687303715884105728).to_text(),
        "128-bit integer `-170141183460469231731687303715884105728`");
    assert_eq!(Unexpected::U64(7).to_text(), "64-bit unsigned integer `7`");
    assert_eq!(Unexpected::U128(0).to_text(), "128-bit unsigned integer `0`");
    assert_eq!(Unexpected::Float(s("2.5")).to_text(), "floating point `2.5`");
    assert_eq!(Unexpected::Str(s("a\"b")).to_text(), "string \"a\\\"b\"");
    assert_eq!(Unexpected::Unit.to_text(), "unit value");
    assert_eq!(Unexpected::Sequence.to_text(), "sequence");
    assert_eq!(Unexpected::Mapping.to_text(), "map");
}

#[test]
fn config_error_texts() {
    assert_eq!(ConfigError::Frozen.to_text(), "configuration is frozen");
    assert_eq!(ConfigError::NotFound(s("a.b")).to_text(), "configuration property \"a.b\" not found");
    assert_eq!(ConfigError::Message(s("boom")).to_text(), "boom");
    assert_eq!(ConfigError::Foreign(s("io")).to_text(), "io");
    assert_eq!(
        ConfigError::FileParse { uri: Some(s("f.json")), cause: s("bad") }.to_text(),
        "bad in f.json"
    );
    assert_eq!(ConfigError::FileParse { uri: None, cause: s("bad") }.to_text(), "bad");
    let e = ConfigError::Type {
        origin: Some(s("env")),
        unexpected: Unexpected::Str(s("x")),
        expected: "an integer",
        key: Some(s("port")),
    };
    assert_eq!(e.to_text(), "invalid type: string \"x\", expected an integer for key `port` in env");
    assert_eq!(
        ConfigError::PathParse(nom::error::ErrorKind::Tag).to_text(),
        nom::error::ErrorKind::Tag.description()
    );
}

#[test]
fn custom_error_carries_the_message() {
    match ConfigError::custom("oops") {
        ConfigError::Message(m) => assert_eq!(m, "oops"),
        _ => panic!(),
    }
}

fn type_error(key: Option<&str>) -> ConfigError {
    ConfigError::Type {
        origin: None,
        unexpected: Unexpected::Bool(false),
        expected: "a string",
        key: key.map(s),
    }
}

fn key_of(e: ConfigError) -> Option<String> {
    match e {
        ConfigError::Type { key, .. } => key,
        ConfigError::NotFound(k) => Some(k),
        _ => None,
    }
}

#[test]
fn prepending_builds_the_key_path() {
    assert_eq!(key_of(type_error(None).prepend_key("a")), Some(s("a")));
    assert_eq!(key_of(type_error(Some("b")).prepend_key("a")), Some(s("a.b")));
    assert_eq!(key_of(type_error(Some("[0]")).prepend_key("a")), Some(s("a[0]")));
    assert_eq!(key_of(type_error(Some("b")).prepend_index(3)), Some(s("[3]b")));
    assert_eq!(key_of(type_error(None).prepend_index(12)), Some(s("[12]")));
    assert_eq!(key_of(ConfigError::NotFound(s("b")).prepend_key("a")), Some(s("a.b")));
    assert_eq!(key_of(ConfigError::NotFound(s("")).prepend_key("a")), Some(s("a")));
    match ConfigError::Frozen.prepend_key("a") {
        ConfigError::Frozen => {}
        _ => panic!(),
    }
}

#[test]
fn extend_with_key_sets_the_key_of_type_errors_only() {
    assert_eq!(key_of(type_error(Some("old")).extend_with_key("new")), Some(s("new")));
    match ConfigError::Message(s("m")).extend_with_key("k") {
        ConfigError::Message(m) => assert_eq!(m, "m"),
        _ => panic!(),
    }
}

#[test]
fn invalid_root_expects_a_map() {
    let uri = s("x.json");
    let e = ConfigError::invalid_root(Some(&uri), Unexpected::Sequence);
    assert_eq!(e.to_text(), "invalid type: sequence, expected a map in x.json");
    let t = ConfigError::invalid_type(None, Unexpected::U64(300), "an unsigned 8 bit integer");
    assert_eq!(t.to_text(), "invalid type: 64-bit unsigned integer `300`, expected an unsigned 8 bit integer");
}

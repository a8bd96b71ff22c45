use config::de::{
    to_i16, to_i32, to_i8, to_u16, to_u32, to_u8, EnumAccess, MapAccess, MapVisitor, SeqAccess,
    StrDeserializer,
};
use config::error::{ConfigError, Unexpected};
use config::value::{Table, ConfigValue, ValueKind};

fn s(x: &str) -> String {
    x.to_string()
}

fn v(kind: ValueKind) -> ConfigValue {
    ConfigValue::new(None, kind)
}

fn expected_of(e: ConfigError) -> (Unexpected, &'static str) {
    match e {
        ConfigError::Type { unexpected, expected, key: None, origin: None } => (unexpected, expected),
        other => panic!("not a narrowing error: {:?}", other),
    }
}

#[test]
fn signed_narrowing() {
    assert_eq!(to_i8(-128).ok(), Some(-128));
    assert_eq!(to_i8(127).ok(), Some(127));
    assert_eq!(expected_of(to_i8(128).unwrap_err()), (Unexpected::I64(128), "an signed 8 bit integer"));
    assert_eq!(to_i16(-32768).ok(), Some(-32768));
    assert_eq!(expected_of(to_i16(-32769).unwrap_err()), (Unexpected::I64(-32769), "an signed 16 bit integer"));
    assert_eq!(to_i32(2147483647).ok(), Some(2147483647));
    assert_eq!(expected_of(to_i32(2147483648).unwrap_err()), (Unexpected::I64(2147483648), "an signed 32 bit integer"));
}

#[test]
fn unsigned_narrowing() {
    assert_eq!(to_u8(255).ok(), Some(255));
    assert_eq!(expected_of(to_u8(256).unwrap_err()), (Unexpected::U64(256), "an unsigned 8 bit integer"));
    assert_eq!(to_u16(65535).ok(), Some(65535));
    assert_eq!(expected_of(to_u16(65536).unwrap_err()), (Unexpected::U64(65536), "an unsigned 16 bit integer"));
    assert_eq!(to_u32(4294967295).ok(), Some(4294967295));
    assert_eq!(expected_of(to_u32(4294967296).unwrap_err()), (Unexpected::U64(4294967296), "an unsigned 32 bit integer"));
}

fn variants() -> Vec<String> {
    vec![s("Red"), s("Green"), s("blue")]
}

fn message(r: Result<StrDeserializer, ConfigError>) -> String {
    match r {
        Err(ConfigError::Message(m)) => m,
        other => panic!("expected a message, got {:?}", other.is_ok()),
    }
}

#[test]
fn enum_variant_by_string_ignores_case() {
    let e = EnumAccess::new(v(ValueKind::String(s("GREEN"))), "Color", variants());
    assert_eq!(e.variant().ok().unwrap(), StrDeserializer(s("Green")));
    let e = EnumAccess::new(v(ValueKind::String(s("Blue"))), "Color", variants());
    assert_eq!(e.variant().ok().unwrap(), StrDeserializer(s("blue")));
    let e = EnumAccess::new(v(ValueKind::String(s("purple"))), "Color", variants());
    assert_eq!(message(e.variant()), "enum Color does not have variant constructor purple");
}

#[test]
fn enum_variant_by_single_key_table() {
    let mut t = Table::new();
    t.insert(s("red"), v(ValueKind::I64(1)));
    let e = EnumAccess::new(v(ValueKind::Table(t)), "Color", variants());
    assert_eq!(e.variant().ok().unwrap(), StrDeserializer(s("Red")));

    let mut t = Table::new();
    t.insert(s("red"), v(ValueKind::Nil));
    t.insert(s("blue"), v(ValueKind::Nil));
    let e = EnumAccess::new(v(ValueKind::Table(t)), "Color", variants());
    assert_eq!(
        message(e.variant()),
        "value of enum Color should be represented by either string or table with exactly one key"
    );
    let e = EnumAccess::new(v(ValueKind::I64(3)), "Color", variants());
    assert_eq!(
        message(e.variant()),
        "value of enum Color should be represented by either string or table with exactly one key"
    );
}

#[test]
fn enum_variant_deserializer_picks_the_first_match() {
    let e = EnumAccess::new(v(ValueKind::Nil), "E", vec![s("a"), s("A")]);
    assert_eq!(e.variant_deserializer("A").ok().unwrap(), StrDeserializer(s("a")));
    let mut t = Table::new();
    t.insert(s("x"), v(ValueKind::Nil));
    assert_eq!(message(e.table_deserializer(&t)), "enum E does not have variant constructor x");
}

#[test]
fn seq_access_hands_out_elements_with_indices() {
    let mut a = SeqAccess::new(vec![v(ValueKind::I64(1)), v(ValueKind::Boolean(true))]);
    assert_eq!(a.size_hint(), Some(2));
    let (i, x) = a.next_element().unwrap();
    assert_eq!((i, x.kind), (0, ValueKind::I64(1)));
    assert_eq!(a.size_hint(), Some(1));
    let (i, x) = a.next_element().unwrap();
    assert_eq!((i, x.kind), (1, ValueKind::Boolean(true)));
    assert!(a.next_element().is_none());
    assert_eq!(a.size_hint(), Some(0));
}

#[test]
fn map_access_hands_out_keys_then_values_in_order() {
    let mut t = Table::new();
    t.insert(s("a"), v(ValueKind::I64(1)));
    t.insert(s("b"), v(ValueKind::I64(2)));
    let mut m = MapAccess::new(t);
    assert_eq!(m.next_key(), Some(&s("a")));
    let (k, x) = m.next_value();
    assert_eq!((k, x.kind), (s("a"), ValueKind::I64(1)));
    assert_eq!(m.next_key(), Some(&s("b")));
    let (k, x) = m.next_value();
    assert_eq!((k, x.kind), (s("b"), ValueKind::I64(2)));
    assert_eq!(m.next_key(), None);
}

#[test]
fn map_visitor_reads_the_first_entry_left() {
    let mut t = Table::new();
    t.insert(s("k1"), v(ValueKind::U64(1)));
    t.insert(s("k2"), v(ValueKind::U64(2)));
    let mut m = MapVisitor::new(t);
    assert_eq!(m.visit_key(), Some(&s("k1")));
    assert_eq!(m.visit_value().kind, ValueKind::U64(1));
    assert_eq!(m.visit_key(), Some(&s("k2")));
    assert_eq!(m.visit_value().kind, ValueKind::U64(2));
    assert_eq!(m.visit_key(), None);
}

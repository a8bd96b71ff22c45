use config::error::{ConfigError, Unexpected};
use config::format::{extract_root_table, FormatError};
use config::formats::dhall::{self, DhallNode};
use config::formats::gura_format::{self, GuraNode};
use config::formats::hocon_format::{self, HoconNode};
use config::formats::ini::{self, IniDoc};
use config::formats::json::{self, JsonNode, JsonNumber};
use config::formats::json5::{self, Val};
use config::formats::jsonc::{self, JsoncNode};
use config::formats::ron_format::{self, RonNode, RonNumber};
use config::formats::toml_format::{self, TomlNode};
use config::formats::toml_namespace;
use config::formats::yaml::{self, YamlNode};
use config::value::{Table, ConfigValue, ValueKind};

fn s(x: &str) -> String {
    x.to_string()
}

fn kind_at<'a>(t: &'a Table<ConfigValue>, k: &str) -> &'a ValueKind {
    &t.get(k).unwrap().kind
}

fn root_error_text(e: FormatError) -> String {
    match e {
        FormatError::Root(e) => e.to_text(),
        other => panic!("expected a root error, got {:?}", other),
    }
}

#[test]
fn json_document_converts_member_by_member() {
    let uri = s("app.json");
    let doc = JsonNode::Object(vec![
        (s("name"), JsonNode::String(s("svc"))),
        (s("port"), JsonNode::Number(JsonNumber { as_i64: Some(80), as_u64: Some(80), as_f64: Some(s("80.0")) })),
        (s("big"), JsonNode::Number(JsonNumber { as_i64: None, as_u64: Some(u64::MAX), as_f64: Some(s("18446744073709552000.0")) })),
        (s("ratio"), JsonNode::Number(JsonNumber { as_i64: None, as_u64: None, as_f64: Some(s("0.5")) })),
        (s("debug"), JsonNode::Bool(true)),
        (s("none"), JsonNode::Null),
        (s("list"), JsonNode::Array(vec![JsonNode::Bool(false)])),
    ]);
    let t = json::parse_tree(Some(&uri), &doc).unwrap();
    assert_eq!(t.len(), 7);
    assert_eq!(*kind_at(&t, "name"), ValueKind::String(s("svc")));
    assert_eq!(*kind_at(&t, "port"), ValueKind::I64(80));
    assert_eq!(*kind_at(&t, "big"), ValueKind::U64(u64::MAX));
    assert_eq!(*kind_at(&t, "ratio"), ValueKind::Float(s("0.5")));
    assert_eq!(*kind_at(&t, "debug"), ValueKind::Boolean(true));
    assert_eq!(*kind_at(&t, "none"), ValueKind::Nil);
    match kind_at(&t, "list") {
        ValueKind::Array(a) => {
            assert_eq!(a.len(), 1);
            assert_eq!(a[0].kind, ValueKind::Boolean(false));
            assert_eq!(a[0].origin, Some(s("app.json")));
        }
        _ => panic!(),
    }
    assert_eq!(t.get("name").unwrap().origin, Some(s("app.json")));
}

#[test]
fn json_root_that_is_not_an_object_is_an_error() {
    let uri = s("x.json");
    let e = json::parse_tree(Some(&uri), &JsonNode::Array(vec![])).unwrap_err();
    assert_eq!(root_error_text(e), "invalid type: sequence, expected a map in x.json");
    let e = json::parse_tree(None, &JsonNode::String(s("hi"))).unwrap_err();
    assert_eq!(root_error_text(e), "invalid type: string \"hi\", expected a map");
    let e = json::parse_tree(None, &JsonNode::Null).unwrap_err();
    assert_eq!(root_error_text(e), "invalid type: unit value, expected a map");
}

#[test]
fn extract_root_table_reports_each_kind() {
    let e = extract_root_table(None, ConfigValue::new(None, ValueKind::Boolean(true))).unwrap_err();
    assert_eq!(root_error_text(e), "invalid type: boolean `true`, expected a map");
    let e = extract_root_table(None, ConfigValue::new(None, ValueKind::U128(5))).unwrap_err();
    assert_eq!(root_error_text(e), "invalid type: 128-bit unsigned integer `5`, expected a map");
    let mut t = Table::new();
    t.insert(s("k"), ConfigValue::new(None, ValueKind::Nil));
    let r = extract_root_table(None, ConfigValue::new(None, ValueKind::Table(t))).unwrap();
    assert_eq!(r.len(), 1);
}

#[test]
fn toml_document_keeps_datetimes_as_strings() {
    let doc = TomlNode::Table(vec![
        (s("when"), TomlNode::Datetime(s("1979-05-27T07:32:00Z"))),
        (s("pi"), TomlNode::Float(s("3.14"))),
        (s("n"), TomlNode::Integer(-4)),
    ]);
    let t = toml_format::parse_tree(None, &doc).unwrap();
    assert_eq!(*kind_at(&t, "when"), ValueKind::String(s("1979-05-27T07:32:00Z")));
    assert_eq!(*kind_at(&t, "pi"), ValueKind::Float(s("3.14")));
    assert_eq!(*kind_at(&t, "n"), ValueKind::I64(-4));
    let e = toml_format::parse_tree(None, &TomlNode::Integer(1)).unwrap_err();
    assert_eq!(root_error_text(e), "invalid type: 64-bit integer `1`, expected a map");
}

#[test]
fn toml_namespace_keeps_only_the_named_table() {
    let ns = s("server");
    let doc = TomlNode::Table(vec![
        (s("top"), TomlNode::Integer(1)),
        (s("server"), TomlNode::Table(vec![(s("port"), TomlNode::Integer(8080))])),
    ]);
    let v = toml_namespace::parse_tree(None, doc, Some(&ns));
    match v.kind {
        ValueKind::Table(t) => {
            assert_eq!(t.len(), 1);
            assert_eq!(*kind_at(&t, "port"), ValueKind::I64(8080));
        }
        _ => panic!(),
    }
    let missing = s("client");
    let doc = TomlNode::Table(vec![(s("top"), TomlNode::Integer(1))]);
    match toml_namespace::parse_tree(None, doc, Some(&missing)).kind {
        ValueKind::Table(t) => assert_eq!(t.len(), 0),
        _ => panic!(),
    }
    let doc = TomlNode::Table(vec![(s("server"), TomlNode::Integer(1))]);
    match toml_namespace::parse_tree(None, doc, Some(&ns)).kind {
        ValueKind::Table(t) => assert_eq!(t.len(), 0),
        _ => panic!(),
    }
    let doc = TomlNode::Table(vec![(s("top"), TomlNode::Integer(1))]);
    match toml_namespace::parse_tree(None, doc, None).kind {
        ValueKind::Table(t) => assert_eq!(*kind_at(&t, "top"), ValueKind::I64(1)),
        _ => panic!(),
    }
}

#[test]
fn yaml_documents_zero_one_or_many() {
    assert_eq!(yaml::parse_tree(None, &vec![]).unwrap().len(), 0);
    let doc = YamlNode::Hash(vec![
        (YamlNode::String(s("a")), YamlNode::Integer(1)),
        (YamlNode::Integer(7), YamlNode::Real(s("2.5"))),
        (YamlNode::String(s("c")), YamlNode::Null),
    ]);
    let t = yaml::parse_tree(None, &vec![doc]).unwrap();
    assert_eq!(*kind_at(&t, "a"), ValueKind::I64(1));
    assert_eq!(*kind_at(&t, "7"), ValueKind::Float(s("2.5")));
    assert_eq!(*kind_at(&t, "c"), ValueKind::Nil);
    match yaml::parse_tree(None, &vec![YamlNode::Null, YamlNode::Null]) {
        Err(e) => {
            assert!(matches!(e, FormatError::MultipleDocuments(2)));
            assert_eq!(e.to_text(), "Got 2 YAML documents, expected 1");
        }
        Ok(_) => panic!(),
    }
}

#[test]
fn yaml_real_that_is_not_a_float_is_an_error() {
    let doc = YamlNode::Hash(vec![(YamlNode::String(s("x")), YamlNode::Real(s("1.2.3")))]);
    match yaml::parse_tree(None, &vec![doc]) {
        Err(e) => {
            assert!(matches!(&e, FormatError::FloatParsing(t) if t == "1.2.3"));
            assert_eq!(e.to_text(), "Parsing 1.2.3 as floating point number failed");
        }
        Ok(_) => panic!(),
    }
    let ok = yaml::from_yaml_value(None, &YamlNode::Real(s("-1e5"))).unwrap();
    assert_eq!(ok.kind, ValueKind::Float(s("-1e5")));
    let inf = yaml::from_yaml_value(None, &YamlNode::Real(s("inf"))).unwrap();
    assert_eq!(inf.kind, ValueKind::Float(s("inf")));
    assert!(yaml::from_yaml_value(None, &YamlNode::Real(s(".e1"))).is_err());
}

#[test]
fn json5_document_converts() {
    let doc = Val::Object(vec![
        (s("a"), Val::Integer(3)),
        (s("b"), Val::Float(s("1.25"))),
        (s("c"), Val::Array(vec![Val::Null, Val::Boolean(true)])),
    ]);
    let t = json5::parse_tree(None, &doc).unwrap();
    assert_eq!(*kind_at(&t, "a"), ValueKind::I64(3));
    assert_eq!(*kind_at(&t, "b"), ValueKind::Float(s("1.25")));
    match kind_at(&t, "c") {
        ValueKind::Array(a) => assert_eq!(a[0].kind, ValueKind::Nil),
        _ => panic!(),
    }
    let e = json5::parse_tree(None, &Val::Float(s("2.0"))).unwrap_err();
    assert_eq!(root_error_text(e), "invalid type: floating point `2.0`, expected a map");
}

#[test]
fn jsonc_numbers_read_as_i64_else_float() {
    let doc = JsoncNode::Object(vec![
        (s("i"), JsoncNode::Number(s("-42"))),
        (s("f"), JsoncNode::Number(s("4.5e1"))),
        (s("huge"), JsoncNode::Number(s("99999999999999999999"))),
    ]);
    let t = jsonc::parse_tree(None, Some(&doc)).unwrap();
    assert_eq!(*kind_at(&t, "i"), ValueKind::I64(-42));
    assert_eq!(*kind_at(&t, "f"), ValueKind::Float(s("4.5e1")));
    assert_eq!(*kind_at(&t, "huge"), ValueKind::Float(s("99999999999999999999")));
    let e = jsonc::parse_tree(None, None).unwrap_err();
    assert_eq!(root_error_text(e), "invalid type: unit value, expected a map");
    let e = jsonc::parse_tree(None, Some(&JsoncNode::Number(s("3")))).unwrap_err();
    assert_eq!(root_error_text(e), "invalid type: floating point `3`, expected a map");
}

#[test]
fn ron_numbers_widen_and_bad_keys_fail() {
    let doc = RonNode::Table(vec![
        (Ok(s("small")), RonNode::Number(RonNumber::I8(-3))),
        (Ok(s("unsigned")), RonNode::Number(RonNumber::U16(65535))),
        (Ok(s("letter")), RonNode::Char('z')),
        (Ok(s("maybe")), RonNode::Option(Some(Box::new(RonNode::Bool(true))))),
        (Ok(s("nothing")), RonNode::Option(None)),
        (Ok(s("unit")), RonNode::Unit),
    ]);
    let t = ron_format::parse_tree(None, &doc).unwrap();
    assert_eq!(*kind_at(&t, "small"), ValueKind::I64(-3));
    assert_eq!(*kind_at(&t, "unsigned"), ValueKind::U64(65535));
    assert_eq!(*kind_at(&t, "letter"), ValueKind::String(s("z")));
    assert_eq!(*kind_at(&t, "maybe"), ValueKind::Boolean(true));
    assert_eq!(*kind_at(&t, "nothing"), ValueKind::Nil);
    assert_eq!(*kind_at(&t, "unit"), ValueKind::Nil);
    let bad = RonNode::Table(vec![(Err(s("invalid key")), RonNode::Unit)]);
    match ron_format::parse_tree(None, &bad) {
        Err(FormatError::Parser(m)) => assert_eq!(m, "invalid key"),
        _ => panic!(),
    }
}

#[test]
fn gura_and_hocon_non_table_roots_read_as_empty() {
    assert_eq!(gura_format::parse_tree(None, &GuraNode::Integer(1)).unwrap().len(), 0);
    assert_eq!(hocon_format::parse_tree(None, &HoconNode::Boolean(true)).unwrap().len(), 0);
    let g = GuraNode::Object(vec![
        (s("big"), GuraNode::BigInteger(-170141183460469231731687303715884105728)),
        (s("other"), GuraNode::Other),
    ]);
    let t = gura_format::parse_tree(None, &g).unwrap();
    assert_eq!(*kind_at(&t, "big"), ValueKind::I128(-170141183460469231731687303715884105728));
    assert_eq!(*kind_at(&t, "other"), ValueKind::Nil);
}

#[test]
fn hocon_keys_are_lowercased() {
    let h = HoconNode::Hash(vec![
        (s("Name"), HoconNode::String(s("A"))),
        (s("NAME"), HoconNode::String(s("B"))),
        (s("Real"), HoconNode::Real(s("0.1"))),
    ]);
    let t = hocon_format::parse_tree(None, &h).unwrap();
    assert_eq!(t.len(), 2);
    assert_eq!(*kind_at(&t, "name"), ValueKind::String(s("B")));
    assert_eq!(*kind_at(&t, "real"), ValueKind::Float(s("0.1")));
    assert!(t.get("Name").is_none());
}

#[test]
fn dhall_unions_and_optionals_read_their_content() {
    let d = DhallNode::Record(vec![
        (s("n"), DhallNode::Natural(5)),
        (s("u"), DhallNode::Union(s("Some"), Some(Box::new(DhallNode::Text(s("x")))))),
        (s("e"), DhallNode::Union(s("None"), None)),
        (s("o"), DhallNode::Optional(Some(Box::new(DhallNode::Integer(-1))))),
    ]);
    let t = dhall::parse_tree(None, &d).unwrap();
    assert_eq!(*kind_at(&t, "n"), ValueKind::I64(5));
    assert_eq!(*kind_at(&t, "u"), ValueKind::String(s("x")));
    assert_eq!(*kind_at(&t, "e"), ValueKind::Nil);
    assert_eq!(*kind_at(&t, "o"), ValueKind::I64(-1));
    let e = dhall::parse_tree(None, &DhallNode::Optional(None)).unwrap_err();
    assert_eq!(root_error_text(e), "invalid type: unit value, expected a map");
}

#[test]
fn ini_sectionless_properties_are_hoisted() {
    let doc = IniDoc {
        sections: vec![
            (None, vec![(s("top"), s("1"))]),
            (Some(s("db")), vec![(s("host"), s("localhost")), (s("port"), s("5432"))]),
        ],
    };
    let t = ini::parse_tree(None, &doc).unwrap();
    assert_eq!(*kind_at(&t, "top"), ValueKind::String(s("1")));
    match kind_at(&t, "db") {
        ValueKind::Table(db) => {
            assert_eq!(*kind_at(db, "host"), ValueKind::String(s("localhost")));
            assert_eq!(*kind_at(db, "port"), ValueKind::String(s("5432")));
        }
        _ => panic!(),
    }
}

#[test]
fn root_error_is_reported_through_the_config_error() {
    match ConfigError::invalid_root(None, Unexpected::Mapping).as_ref() {
        ConfigError::Type { expected, key, .. } => {
            assert_eq!(*expected, "a map");
            assert!(key.is_none());
        }
        _ => panic!(),
    }
}

#[test]
fn yaml_error_stops_before_a_later_bad_key() {
    let doc = YamlNode::Hash(vec![
        (YamlNode::String(s("x")), YamlNode::Real(s("nope"))),
        (YamlNode::Null, YamlNode::Integer(1)),
    ]);
    match yaml::parse_tree(None, &vec![doc]) {
        Err(FormatError::FloatParsing(t)) => assert_eq!(t, "nope"),
        _ => panic!(),
    }
}

#[test]
fn ron_key_error_stops_before_later_bytes() {
    let doc = RonNode::Table(vec![
        (Err(s("expected a string")), RonNode::Unit),
        (Ok(s("b")), RonNode::Bytes(vec![1, 2])),
    ]);
    match ron_format::parse_tree(None, &doc) {
        Err(FormatError::Parser(m)) => assert_eq!(m, "expected a string"),
        _ => panic!(),
    }
    let list = RonNode::List(vec![RonNode::Table(vec![(Err(s("k")), RonNode::Unit)]), RonNode::Bytes(vec![])]);
    assert!(ron_format::from_ron_value(None, &list).is_err());
}

fn text_table(r: Result<Table<ConfigValue>, FormatError>) -> Table<ConfigValue> {
    match r {
        Ok(t) => t,
        Err(e) => panic!("expected a table, got {:?}", e),
    }
}

#[test]
fn json_text_is_read_by_serde_json() {
    let uri = s("app.json");
    let t = text_table(json::parse(Some(&uri), r#"{ "a": 1, "b": [true, null], "c": 2.5 }"#));
    assert_eq!(*kind_at(&t, "a"), ValueKind::I64(1));
    assert_eq!(*kind_at(&t, "c"), ValueKind::Float(s("2.5")));
    assert_eq!(t.get("a").unwrap().origin, Some(s("app.json")));
    assert!(matches!(json::parse(None, "{ nope"), Err(FormatError::Parser(_))));
    assert_eq!(root_error_text(json::parse(None, "[1]").unwrap_err()), "invalid type: sequence, expected a map");
}

#[test]
fn toml_and_ini_text() {
    let t = text_table(toml_format::parse(None, "a = 1\nb = \"x\"\n[t]\nc = 1979-05-27\n"));
    assert_eq!(*kind_at(&t, "a"), ValueKind::I64(1));
    match kind_at(&t, "t") {
        ValueKind::Table(tt) => assert_eq!(*kind_at(tt, "c"), ValueKind::String(s("1979-05-27"))),
        _ => panic!(),
    }
    assert!(matches!(toml_format::parse(None, "a = "), Err(FormatError::Parser(_))));
    let t = text_table(ini::parse(None, "top = 1\n[db]\nhost = h\n"));
    assert_eq!(*kind_at(&t, "top"), ValueKind::String(s("1")));
    match kind_at(&t, "db") {
        ValueKind::Table(db) => assert_eq!(*kind_at(db, "host"), ValueKind::String(s("h"))),
        _ => panic!(),
    }
}

#[test]
fn yaml_and_ron_text() {
    let t = text_table(yaml::parse(None, "a: 1\n2: x\n"));
    assert_eq!(*kind_at(&t, "2"), ValueKind::String(s("x")));
    assert!(yaml::parse_checked(None, "[1, 2]: x\n").is_none());
    assert!(matches!(yaml::parse(None, "a: [1"), Err(FormatError::Parser(_))));
    let t = text_table(ron_format::parse_checked(None, "(a: 1, b: Some(true))").unwrap());
    assert_eq!(*kind_at(&t, "a"), ValueKind::U64(1));
    assert_eq!(*kind_at(&t, "b"), ValueKind::Boolean(true));
    match ron_format::parse_checked(None, "{ 1: 2 }").unwrap() {
        Err(FormatError::Parser(_)) => {}
        _ => panic!("a number key is no string"),
    }
}

#[test]
fn jsonc_dhall_gura_hocon_text() {
    let t = text_table(jsonc::parse(None, "{ // c\n \"a\": 3, \"b\": 1.5 }").unwrap());
    assert_eq!(*kind_at(&t, "a"), ValueKind::I64(3));
    assert_eq!(*kind_at(&t, "b"), ValueKind::Float(s("1.5")));
    let t = text_table(dhall::parse(None, "{ n = 1, s = \"x\" }"));
    assert_eq!(*kind_at(&t, "n"), ValueKind::I64(1));
    assert_eq!(*kind_at(&t, "s"), ValueKind::String(s("x")));
    let t = text_table(gura_format::parse(None, "a: 1\nb: \"x\"\n").unwrap());
    assert_eq!(*kind_at(&t, "a"), ValueKind::I64(1));
    assert!(gura_format::parse(None, "a: : :").is_none());
    let t = text_table(hocon_format::parse_text(None, "A = 1\nb { c = x }\n"));
    assert_eq!(*kind_at(&t, "a"), ValueKind::I64(1));
}

#[test]
fn hocon_source_with_uri_reads_the_file() {
    let uri = s("settings.conf");
    let doc = || HoconNode::Hash(vec![(s("port"), HoconNode::Integer(80))]);
    let t = text_table(hocon_format::parse(Some(&uri), "port = 1", Some(Ok(doc()))));
    assert_eq!(*kind_at(&t, "port"), ValueKind::I64(80));
    let t2 = text_table(hocon_format::parse(Some(&uri), "not hocon {{", Some(Ok(doc()))));
    assert_eq!(*kind_at(&t2, "port"), ValueKind::I64(80));
    match hocon_format::parse(Some(&uri), "port = 1", Some(Err(s("no such file")))) {
        Err(FormatError::Parser(m)) => assert_eq!(m, "no such file"),
        other => panic!("expected the loader's message, got {:?}", other),
    }
    let t3 = text_table(hocon_format::parse(None, "port = 1", None));
    assert_eq!(*kind_at(&t3, "port"), ValueKind::I64(1));
}

#[test]
fn dhall_record_keeps_its_keys() {
    let rec = DhallNode::Record(vec![
        (s("a"), DhallNode::Bool(true)),
        (s("b"), DhallNode::Natural(2)),
    ]);
    let t = dhall::parse_tree(None, &rec).unwrap();
    assert_eq!(t.len(), 2);
    assert_eq!(*kind_at(&t, "a"), ValueKind::Boolean(true));
    assert_eq!(*kind_at(&t, "b"), ValueKind::I64(2));
}

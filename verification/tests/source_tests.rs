use config::content::yaml::MultipleDocumentsError;
use config::content::{json as cjson, toml_content as ctoml, yaml as cyaml, Entry};
use config::env::Environment;
use config::error::ConfigError;
use config::file::{resolved_remote, File, FileFormat, FileSourceString, Nil};

use config::file::FileStoredFormat;
use config::format::{Format, FormatError};
use config::formats::json::{JsonNode, JsonNumber};
use config::formats::toml_format::TomlNode;
use config::formats::yaml::YamlNode;
use config::value::{Table, ConfigValue, ValueKind};

fn s(x: &str) -> String {
    x.to_string()
}

fn vars(pairs: &[(&str, &str)]) -> Vec<(String, String)> {
    pairs.iter().map(|(k, v)| (s(k), s(v))).collect()
}

fn kind_at<'a>(t: &'a Table<ConfigValue>, k: &str) -> &'a ValueKind {
    &t.get(k).unwrap().kind
}

#[test]
fn environment_keys_are_lowercased_and_carry_their_origin() {
    let env = Environment::default();
    let t = env.collect(&vars(&[("HOME", "/root"), ("Path", "/bin")]));
    assert_eq!(t.len(), 2);
    assert_eq!(*kind_at(&t, "home"), ValueKind::String(s("/root")));
    assert_eq!(*kind_at(&t, "path"), ValueKind::String(s("/bin")));
    assert_eq!(t.get("home").unwrap().origin, Some(s("the environment")));
}

#[test]
fn environment_prefix_filters_and_is_removed() {
    let env = Environment::with_prefix("APP");
    let t = env.collect(&vars(&[("APP_DEBUG", "1"), ("OTHER", "x"), ("APPX", "y")]));
    assert_eq!(t.len(), 1);
    assert_eq!(*kind_at(&t, "debug"), ValueKind::String(s("1")));
}

#[test]
fn environment_separator_splits_segments_and_serves_as_prefix_separator() {
    let env = Environment::with_prefix("app").separator("__");
    let t = env.collect(&vars(&[("APP__REDIS__PASSWORD", "pw"), ("APP_X", "no")]));
    assert_eq!(t.len(), 1);
    assert_eq!(*kind_at(&t, "redis.password"), ValueKind::String(s("pw")));
    let env = Environment::with_prefix("app").prefix_separator("-").separator("_");
    let t = env.collect(&vars(&[("APP-A_B", "v")]));
    assert_eq!(*kind_at(&t, "a.b"), ValueKind::String(s("v")));
}

#[test]
fn environment_try_parsing_reads_bool_int_float_else_string() {
    let env = Environment::default().try_parsing(true);
    let t = env.collect(&vars(&[
        ("B", "TRUE"),
        ("F", "false"),
        ("I", "-17"),
        ("R", "2.5"),
        ("S", "hello"),
        ("BIG", "9223372036854775808"),
    ]));
    assert_eq!(*kind_at(&t, "b"), ValueKind::Boolean(true));
    assert_eq!(*kind_at(&t, "f"), ValueKind::Boolean(false));
    assert_eq!(*kind_at(&t, "i"), ValueKind::I64(-17));
    assert_eq!(*kind_at(&t, "r"), ValueKind::Float(s("2.5")));
    assert_eq!(*kind_at(&t, "s"), ValueKind::String(s("hello")));
    assert_eq!(*kind_at(&t, "big"), ValueKind::Float(s("9223372036854775808")));
}

#[test]
fn environment_ignore_empty_and_alternate_source() {
    let env = Environment::default().ignore_empty(true);
    let t = env.collect(&vars(&[("EMPTY", ""), ("FULL", "x")]));
    assert_eq!(t.len(), 1);
    assert!(t.get("empty").is_none());
    let t = Environment::default().collect(&vars(&[("EMPTY", "")]));
    assert_eq!(*kind_at(&t, "empty"), ValueKind::String(s("")));

    let mut alt: Table<String> = Table::new();
    alt.insert(s("MY_STRING"), s("my-value"));
    let env = Environment::default().source(Some(alt));
    let t = env.collect(&vars(&[("IGNORED", "x")]));
    assert_eq!(t.len(), 1);
    assert_eq!(*kind_at(&t, "my_string"), ValueKind::String(s("my-value")));
}

#[test]
fn environment_later_variable_replaces_an_earlier_key() {
    let t = Environment::default().collect(&vars(&[("KEY", "1"), ("key", "2")]));
    assert_eq!(t.len(), 1);
    assert_eq!(*kind_at(&t, "key"), ValueKind::String(s("2")));
    let t = Environment::new().prefix("p").collect(&vars(&[("P_A", "1")]));
    assert_eq!(*kind_at(&t, "a"), ValueKind::String(s("1")));
}

fn num(i: Option<i64>, f: Option<&str>) -> JsonNode {
    JsonNode::Number(JsonNumber { as_i64: i, as_u64: None, as_f64: f.map(s) })
}

#[test]
fn json_content_limited_to_a_namespace() {
    let root = JsonNode::Object(vec![
        (s("dev"), JsonNode::Object(vec![(s("port"), num(Some(1), Some("1.0")))])),
        (s("x"), JsonNode::Bool(true)),
    ]);
    let ns = s("dev");
    let c = cjson::Content::parse(root, Some(&ns));
    let t = c.collect();
    assert_eq!(t.len(), 1);
    assert_eq!(t.get("port"), Some(&Entry::Integer(1)));

    let root = JsonNode::Object(vec![(s("x"), JsonNode::Bool(true))]);
    let t = cjson::Content::parse(root, Some(&ns)).collect();
    assert_eq!(t.len(), 0);

    let root = JsonNode::Object(vec![
        (s("x"), num(None, Some("0.5"))),
        (s("l"), JsonNode::Array(vec![JsonNode::String(s("a"))])),
    ]);
    let t = cjson::Content::parse(root, None).collect();
    assert_eq!(t.get("x"), Some(&Entry::Float(s("0.5"))));
    assert_eq!(t.get("l"), Some(&Entry::Array(vec![Entry::String(s("a"))])));
}

#[test]
fn toml_content_limited_to_a_namespace() {
    let root = vec![
        (s("dev"), TomlNode::Table(vec![(s("debug"), TomlNode::Boolean(true))])),
        (s("prod"), TomlNode::Integer(3)),
    ];
    let dev = s("dev");
    let t = ctoml::Content::parse(root, Some(&dev)).collect();
    assert_eq!(t.len(), 1);
    assert_eq!(t.get("debug"), Some(&Entry::Boolean(true)));

    let prod = s("prod");
    let root = vec![(s("prod"), TomlNode::Integer(3))];
    assert_eq!(ctoml::Content::parse(root, Some(&prod)).collect().len(), 0);

    let root = vec![(s("f"), TomlNode::Float(s("1e3"))), (s("a"), TomlNode::Array(vec![]))];
    let t = ctoml::Content::parse(root, None).collect();
    assert_eq!(t.get("f"), Some(&Entry::Float(s("1e3"))));
    assert_eq!(t.get("a"), Some(&Entry::Array(vec![])));
}

#[test]
fn yaml_content_skips_keys_that_are_not_strings() {
    let doc = YamlNode::Hash(vec![
        (YamlNode::String(s("a")), YamlNode::Integer(1)),
        (YamlNode::Integer(2), YamlNode::Null),
        (YamlNode::String(s("r")), YamlNode::Real(s("0.25"))),
    ]);
    let t = cyaml::Content::from_yaml(doc).collect();
    assert_eq!(t.len(), 2);
    assert_eq!(t.get("a"), Some(&Entry::Integer(1)));
    assert_eq!(t.get("r"), Some(&Entry::Float(s("0.25"))));
    assert!(t.get("2").is_none());
}

#[test]
fn yaml_content_counts_documents() {
    let c = cyaml::Content::parse(vec![]).ok().unwrap();
    assert_eq!(c.collect().len(), 0);
    let one = YamlNode::Hash(vec![(YamlNode::String(s("k")), YamlNode::Boolean(true))]);
    let c = cyaml::Content::parse(vec![one]).ok().unwrap();
    assert_eq!(c.collect().get("k"), Some(&Entry::Boolean(true)));
    match cyaml::Content::parse(vec![YamlNode::Null, YamlNode::Null, YamlNode::Null]) {
        Err(e) => {
            assert_eq!(e, MultipleDocumentsError(3));
            assert_eq!(e.to_text(), "Got 3 YAML documents, expected 1");
            assert_eq!(e.description(), "More than one YAML document provided");
        }
        Ok(_) => panic!(),
    }
}

/// A format that stores the whole text under the key `text`; empty text
/// does not parse.
struct TextFormat;

impl Format for TextFormat {
    fn parses_to(&self, _uri: Option<&String>, text: &str, r: Result<Table<ConfigValue>, FormatError>) -> bool {
        r.is_ok() == !text.is_empty()
    }

    fn parse(&self, uri: Option<&String>, text: &str) -> Result<Table<ConfigValue>, FormatError> {
        if text.is_empty() {
            return Err(FormatError::Parser(s("empty text")));
        }
        let mut t = Table::new();
        t.insert(s("text"), ConfigValue::new(uri, ValueKind::String(s(text))));
        Ok(t)
    }
}

impl FileStoredFormat for TextFormat {
    fn file_extensions(&self) -> &'static [&'static str] {
        &["txt"]
    }
}

#[test]
fn string_file_collects_with_its_format() {
    let t = File::<FileSourceString, TextFormat>::from_str("hello", TextFormat).collect().ok().unwrap();
    assert_eq!(*kind_at(&t, "text"), ValueKind::String(s("hello")));
    assert_eq!(t.get("text").unwrap().origin, None);
    match File::<FileSourceString, TextFormat>::from_str("", TextFormat).collect() {
        Err(ConfigError::FileParse { uri, cause }) => {
            assert_eq!(uri, None);
            assert_eq!(cause, "empty text");
        }
        _ => panic!(),
    }
}

#[test]
fn file_builders_and_nil() {
    assert_eq!(FileFormat::Toml.extensions(), vec!["toml"]);
    assert_eq!(Nil {}.collect().len(), 0);
    let _f = File::<FileSourceString, TextFormat>::from_str("a = 1", TextFormat).required(false);
}

#[test]
fn finishing_a_collect() {
    let f = File::<FileSourceString, TextFormat>::from_str("", TextFormat);
    match f.finish_collect(Err(s("no such file")), Ok(Table::new())) {
        Err(ConfigError::Foreign(m)) => assert_eq!(m, "no such file"),
        _ => panic!(),
    }
    let optional = File::<FileSourceString, TextFormat>::from_str("", TextFormat).required(false);
    assert_eq!(optional.finish_collect(Err(s("no such file")), Ok(Table::new())).ok().unwrap().len(), 0);
    match f.finish_collect(Ok(Some(s("a.toml"))), Err(FormatError::Parser(s("bad syntax")))) {
        Err(ConfigError::FileParse { uri, cause }) => {
            assert_eq!(uri, Some(s("a.toml")));
            assert_eq!(cause, "bad syntax");
        }
        _ => panic!(),
    }
    let mut t = Table::new();
    t.insert(s("k"), ConfigValue::new(None, ValueKind::Nil));
    assert_eq!(f.finish_collect(Ok(None), Ok(t)).ok().unwrap().len(), 1);
}

#[test]
fn resolving_a_remote_file() {
    match resolved_remote(s("http://h"), Ok(s("a = 1")), Some(FileFormat::Toml)) {
        Ok((uri, content, format)) => {
            assert_eq!(uri, Some(s("http://h")));
            assert_eq!(content, "a = 1");
            assert_eq!(format, FileFormat::Toml);
        }
        Err(_) => panic!(),
    }
    assert_eq!(resolved_remote(s("http://h"), Err(s("404")), None), Err(s("404")));
}

#[test]
fn file_format_reads_a_toml_document() {
    match FileFormat::Toml.parse(None, "a = 1", None).unwrap().kind {
        ValueKind::Table(t) => assert_eq!(*kind_at(&t, "a"), ValueKind::I64(1)),
        _ => panic!(),
    }
    let ns = s("srv");
    match FileFormat::Toml.parse_checked(None, "[srv]\nport = 2\n[other]\nw = 1979-05-27", Some(&ns)).unwrap().unwrap().kind {
        ValueKind::Table(t) => {
            assert_eq!(t.len(), 1);
            assert_eq!(*kind_at(&t, "port"), ValueKind::I64(2));
        }
        _ => panic!(),
    }
    assert!(FileFormat::Toml.parse_checked(None, "w = 1979-05-27", None).is_none());
    assert!(matches!(FileFormat::Toml.parse(None, "a = ", None), Err(FormatError::Parser(_))));
}

#[test]
fn string_source_resolves_to_its_content() {
    let src = FileSourceString::from_text("k = 1");
    match src.resolve(Some(FileFormat::Toml)) {
        Ok((uri, content, format)) => {
            assert_eq!(uri, None);
            assert_eq!(content, "k = 1");
            assert_eq!(format, FileFormat::Toml);
        }
        Err(_) => panic!(),
    }
    assert_eq!(src.content(), "k = 1");
}

#[test]
fn content_reads_text() {
    let ns = s("dev");
    let c = cjson::Content::parse_text(r#"{ "dev": { "port": 8 }, "x": 1 }"#, Some(&ns)).unwrap();
    assert_eq!(c.collect().get("port"), Some(&Entry::Integer(8)));
    assert!(cjson::Content::parse_text("{ nope", None).is_err());

    let c = ctoml::Content::parse_text("[dev]\ndebug = true\n", Some(&ns));
    assert_eq!(c.collect().get("debug"), Some(&Entry::Boolean(true)));
    assert!(ctoml::Content::parse_text_checked("= broken", None).is_none());

    let c = cyaml::Content::parse_text("a: 1\nr: 0.5\n").unwrap();
    let t = c.collect();
    assert_eq!(t.get("a"), Some(&Entry::Integer(1)));
    assert_eq!(t.get("r"), Some(&Entry::Float(s("0.5"))));
    match cyaml::Content::parse_text("a: 1\n---\nb: 2\n") {
        Err(cyaml::YamlContentError::Multiple(e)) => assert_eq!(e, MultipleDocumentsError(2)),
        _ => panic!(),
    }
    assert!(matches!(cyaml::Content::parse_text("a: [1"), Err(cyaml::YamlContentError::Load(_))));
}

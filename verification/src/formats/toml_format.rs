//! TOML documents: the tree that the toml crate reads, and its conversion
//! into configuration values.
use vstd::prelude::*;

use crate::format::{extract_root_table, root_table_result, FormatError};
use crate::text::{copy_string};
use crate::value::{
    lookup,
    lemma_members_table,
    array_model, insert_all, lemma_insert_all_step, lemma_table_model_insert, lemma_value_model_array,
    lemma_value_model_table, opt_ref_view, table_model, value_model, KindModel, Table, ConfigValue,
    ValueKind, ValueModel,
};

verus! {

/// A TOML document as the toml crate reads it: datetimes by their text,
/// floats by their decimal text, table entries in the order the map yields
/// them.
#[derive(Debug, PartialEq)]
pub enum TomlNode {
    String(String),
    Integer(i64),
    Float(String),
    Boolean(bool),
    Datetime(String),
    Array(Vec<TomlNode>),
    Table(Vec<(String, TomlNode)>),
}


/// The value a TOML node converts to: datetimes become strings; tables are built by inserting their entries in order.
pub open spec fn toml_model(uri: Option<Seq<char>>, n: TomlNode) -> ValueModel
    decreases n, 1int,
{
    ValueModel {
        origin: uri,
        kind: match n {
            TomlNode::Datetime(d) => KindModel::Str(d@),
            TomlNode::String(s) => KindModel::Str(s@),
            TomlNode::Float(f) => KindModel::Float(f@),
            TomlNode::Integer(i) => KindModel::I64(i),
            TomlNode::Boolean(b) => KindModel::Boolean(b),
            TomlNode::Table(o) => KindModel::Table(insert_all(Seq::empty(), toml_members(uri, o@))),
            TomlNode::Array(a) => KindModel::Array(toml_items(uri, a@)),
        },
    }
}

pub open spec fn toml_items(uri: Option<Seq<char>>, a: Seq<TomlNode>) -> Seq<ValueModel>
    decreases a, 0int,
{
    Seq::new(
        a.len(),
        |i: int|
            if 0 <= i < a.len() {
                toml_model(uri, a[i])
            } else {
                ValueModel { origin: None, kind: KindModel::Nil }
            },
    )
}

pub open spec fn toml_members(uri: Option<Seq<char>>, o: Seq<(String, TomlNode)>) -> Seq<
    (Seq<char>, ValueModel),
>
    decreases o, 0int,
{
    Seq::new(
        o.len(),
        |i: int|
            if 0 <= i < o.len() {
                (o[i].0@, toml_model(uri, o[i].1))
            } else {
                (Seq::empty(), ValueModel { origin: None, kind: KindModel::Nil })
            },
    )
}

/// Law: TOML converts kind for kind, each value carrying the source's URI:
/// a boolean to the same boolean, an integer to the same integer, a float
/// and a string to the same text, a datetime to its text, an array element
/// for element, and a table to a table holding exactly its keys, each with
/// the conversion of the last entry under it.
pub proof fn law_toml_conversion(uri: Option<Seq<char>>, n: TomlNode)
    ensures
        toml_model(uri, n).origin == uri,
        n matches TomlNode::Boolean(b) ==> toml_model(uri, n).kind == KindModel::Boolean(b),
        n matches TomlNode::Integer(i) ==> toml_model(uri, n).kind == KindModel::I64(i),
        n matches TomlNode::Float(f) ==> toml_model(uri, n).kind == KindModel::Float(f@),
        n matches TomlNode::String(s) ==> toml_model(uri, n).kind == KindModel::Str(s@),
        n matches TomlNode::Datetime(d) ==> toml_model(uri, n).kind == KindModel::Str(d@),
        n matches TomlNode::Array(a) ==> (toml_model(uri, n).kind matches KindModel::Array(ms)
            && ms.len() == a@.len() && forall|i: int|
            0 <= i < a@.len() ==> ms[i] == toml_model(uri, #[trigger] a@[i])),
        n matches TomlNode::Table(o) ==> (toml_model(uri, n).kind matches KindModel::Table(t)
            && forall|k: Seq<char>|
            #![trigger lookup(t, k)]
            (lookup(t, k) is None <==> forall|i: int| 0 <= i < o@.len() ==> (#[trigger] o@[i]).0@ != k)
                && forall|i: int|
                0 <= i < o@.len() && (#[trigger] o@[i]).0@ == k && (forall|j: int|
                    i < j < o@.len() ==> o@[j].0@ != k) ==> lookup(t, k) == Some(
                    toml_model(uri, o@[i].1),
                )),
    decreases n,
{
    if let TomlNode::Table(o) = n {
        let ms = toml_members(uri, o@);
        assert forall|k: Seq<char>| #![trigger lookup(insert_all(Seq::empty(), ms), k)]
            (lookup(insert_all(Seq::empty(), ms), k) is None <==> forall|i: int|
                0 <= i < o@.len() ==> (#[trigger] o@[i]).0@ != k) && forall|i: int|
                0 <= i < o@.len() && (#[trigger] o@[i]).0@ == k && (forall|j: int|
                    i < j < o@.len() ==> o@[j].0@ != k) ==> lookup(insert_all(Seq::empty(), ms), k)
                    == Some(toml_model(uri, o@[i].1)) by {
            lemma_members_table(
                o@,
                |e: (String, TomlNode)| e.0@,
                |e: (String, TomlNode)| toml_model(uri, e.1),
                ms,
                k,
            );
        }
    }
}

/// Converts a TOML node into a configuration value from source `uri`.
pub fn from_toml_value(uri: Option<&String>, value: &TomlNode) -> (v: ConfigValue)
    ensures
        value_model(v) == toml_model(opt_ref_view(uri), *value),
    decreases value,
{
    let ghost u = opt_ref_view(uri);
    match value {
        TomlNode::Datetime(d) => ConfigValue::new(uri, ValueKind::String(copy_string(d.as_str()))),
        TomlNode::String(s) => ConfigValue::new(uri, ValueKind::String(copy_string(s.as_str()))),
        TomlNode::Float(f) => ConfigValue::new(uri, ValueKind::Float(copy_string(f.as_str()))),
        TomlNode::Integer(i) => ConfigValue::new(uri, ValueKind::I64(*i)),
        TomlNode::Boolean(b) => ConfigValue::new(uri, ValueKind::Boolean(*b)),
        TomlNode::Table(table) => {
            let mut m: Table<ConfigValue> = Table::new();
            let mut i: usize = 0;
            while i < table.len()
                invariant
                    i <= table.len(),
                    *value == TomlNode::Table(*table),
                    u == opt_ref_view(uri),
                    table_model(m) == insert_all(Seq::empty(), toml_members(u, table@).take(i as int)),
                decreases table.len() - i,
            {
                proof {
                    assert(decreases_to!(*value => value->Table_0));
                    assert(decreases_to!(value->Table_0 => value->Table_0@));
                    assert(decreases_to!(value->Table_0@ => table@[i as int]));
                }
                let key = copy_string(table[i].0.as_str());
                let v = from_toml_value(uri, &table[i].1);
                let ghost m0 = m;
                let ghost vv = v;
                m.insert(key, v);
                proof {
                    lemma_table_model_insert(m0, key@, vv, m);
                    lemma_insert_all_step(Seq::empty(), toml_members(u, table@), i as int);
                }
                i = i + 1;
            }
            proof {
                assert(toml_members(u, table@).take(table@.len() as int) == toml_members(u, table@));
            }
            let r = ConfigValue::new(uri, ValueKind::Table(m));
            proof {
                lemma_value_model_table(r.origin, m);
            }
            r
        },
        TomlNode::Array(array) => {
            let mut l: Vec<ConfigValue> = Vec::new();
            let mut i: usize = 0;
            while i < array.len()
                invariant
                    i <= array.len(),
                    *value == TomlNode::Array(*array),
                    u == opt_ref_view(uri),
                    array_model(l@) == toml_items(u, array@).take(i as int),
                decreases array.len() - i,
            {
                proof {
                    assert(decreases_to!(*value => value->Array_0));
                    assert(decreases_to!(value->Array_0 => value->Array_0@));
                    assert(decreases_to!(value->Array_0@ => array@[i as int]));
                }
                let v = from_toml_value(uri, &array[i]);
                let ghost l0 = l@;
                l.push(v);
                proof {
                    assert(array_model(l@) =~= array_model(l0).push(value_model(v)));
                    assert(toml_items(u, array@).take(i + 1) =~= toml_items(u, array@).take(
                        i as int,
                    ).push(toml_model(u, array@[i as int])));
                }
                i = i + 1;
            }
            proof {
                assert(toml_items(u, array@).take(array@.len() as int) == toml_items(u, array@));
            }
            let r = ConfigValue::new(uri, ValueKind::Array(l));
            proof {
                lemma_value_model_array(r.origin, l);
            }
            r
        },
    }
}

/// Parses a document: the table at its root, or the error that reports a
/// root of another kind.
pub fn parse_tree(uri: Option<&String>, root: &TomlNode) -> (r: Result<Table<ConfigValue>, FormatError>)
    ensures
        root_table_result(r, opt_ref_view(uri), toml_model(opt_ref_view(uri), *root).kind),
{
    let value = from_toml_value(uri, root);
    extract_root_table(uri, value)
}

/// What the toml crate reads from a text: the document, always a table,
/// or the message of the error it reports.
pub uninterp spec fn toml_loaded(text: Seq<char>) -> Result<TomlNode, Seq<char>>;

/// A toml value as the library's tree, node for node; a float by its
/// `Debug` text, a datetime by its `Display` text.
#[verifier::external_body]
fn toml_tree(v: &::toml::Value) -> TomlNode {
    match v {
        ::toml::Value::String(s) => TomlNode::String(s.clone()),
        ::toml::Value::Integer(i) => TomlNode::Integer(*i),
        ::toml::Value::Float(f) => TomlNode::Float(format!("{:?}", f)),
        ::toml::Value::Boolean(b) => TomlNode::Boolean(*b),
        ::toml::Value::Datetime(d) => TomlNode::Datetime(d.to_string()),
        ::toml::Value::Array(a) => TomlNode::Array(a.iter().map(toml_tree).collect()),
        ::toml::Value::Table(t) => TomlNode::Table(t.iter().map(|(k, x)| (k.clone(), toml_tree(x))).collect()),
    }
}

/// `toml::from_str` into a toml `Table`: the result is named `toml_loaded`
/// of the text, and a document read is a table.
#[verifier::external_body]
pub(crate) fn load_toml(text: &str) -> (r: Result<TomlNode, String>)
    ensures
        match toml_loaded(text@) {
            Ok(n) => r == Ok::<TomlNode, String>(n) && n is Table,
            Err(m) => r matches Err(e) && e@ == m,
        },
{
    match ::toml::from_str::<::toml::Table>(text) {
        Ok(t) => Ok(TomlNode::Table(t.iter().map(|(k, x)| (k.clone(), toml_tree(x))).collect())),
        Err(e) => Err(e.to_string()),
    }
}

/// Parses TOML text from source `uri`: the table at the document's root,
/// or the parser's message.
pub fn parse(uri: Option<&String>, text: &str) -> (r: Result<Table<ConfigValue>, FormatError>)
    ensures
        match toml_loaded(text@) {
            Ok(n) => root_table_result(r, opt_ref_view(uri), toml_model(opt_ref_view(uri), n).kind),
            Err(m) => r matches Err(FormatError::Parser(e)) && e@ == m,
        },
{
    match load_toml(text) {
        Ok(n) => parse_tree(uri, &n),
        Err(m) => Err(FormatError::Parser(m)),
    }
}

} // verus!

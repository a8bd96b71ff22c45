//! JSON documents: the tree that serde_json reads, and its conversion
//! into configuration values.
use vstd::prelude::*;

use crate::format::{extract_root_table, root_table_result, FormatError};
use crate::text::copy_string;
use crate::value::{
    insert_all, lemma_insert_all_step, lemma_members_table, lookup, lemma_table_model_insert, lemma_value_model_array,
    lemma_value_model_table, opt_ref_view, table_model, value_model, array_model, KindModel, Table,
    ConfigValue, ValueKind, ValueModel,
};

verus! {

/// A JSON number, by what `serde_json::Number` offers of it: the number as
/// an `i64`, as a `u64`, and as a float (its decimal text), each where it
/// is representable so.
#[derive(Debug, Clone, PartialEq)]
pub struct JsonNumber {
    pub as_i64: Option<i64>,
    pub as_u64: Option<u64>,
    pub as_f64: Option<String>,
}

/// A JSON document as serde_json reads it; object members in the order
/// the map yields them.
#[derive(Debug, PartialEq)]
pub enum JsonNode {
    Null,
    Bool(bool),
    Number(JsonNumber),
    String(String),
    Array(Vec<JsonNode>),
    Object(Vec<(String, JsonNode)>),
}

/// Every number of the document is representable in at least one way.
pub open spec fn json_numbers_known(n: JsonNode) -> bool
    decreases n,
{
    match n {
        JsonNode::Number(x) => x.as_i64 is Some || x.as_u64 is Some || x.as_f64 is Some,
        JsonNode::Array(a) => forall|i: int| 0 <= i < a@.len() ==> json_numbers_known(#[trigger] a@[i]),
        JsonNode::Object(o) => forall|i: int|
            0 <= i < o@.len() ==> json_numbers_known(#[trigger] o@[i].1),
        _ => true,
    }
}

/// The value a JSON node converts to: numbers as `i64` where they fit,
/// else as `u64`, else as floats; objects as tables built by inserting
/// their members in order.
pub open spec fn json_model(uri: Option<Seq<char>>, n: JsonNode) -> ValueModel
    decreases n, 1int,
{
    ValueModel {
        origin: uri,
        kind: match n {
            JsonNode::Null => KindModel::Nil,
            JsonNode::Bool(b) => KindModel::Boolean(b),
            JsonNode::Number(x) => if x.as_i64 is Some {
                KindModel::I64(x.as_i64->0)
            } else if x.as_u64 is Some {
                KindModel::U64(x.as_u64->0)
            } else {
                KindModel::Float(x.as_f64->0@)
            },
            JsonNode::String(s) => KindModel::Str(s@),
            JsonNode::Array(a) => KindModel::Array(json_items(uri, a@)),
            JsonNode::Object(o) => KindModel::Table(
                insert_all(Seq::empty(), json_members(uri, o@)),
            ),
        },
    }
}

pub open spec fn json_items(uri: Option<Seq<char>>, a: Seq<JsonNode>) -> Seq<ValueModel>
    decreases a, 0int,
{
    Seq::new(
        a.len(),
        |i: int|
            if 0 <= i < a.len() {
                json_model(uri, a[i])
            } else {
                ValueModel { origin: None, kind: KindModel::Nil }
            },
    )
}

pub open spec fn json_members(uri: Option<Seq<char>>, o: Seq<(String, JsonNode)>) -> Seq<
    (Seq<char>, ValueModel),
>
    decreases o, 0int,
{
    Seq::new(
        o.len(),
        |i: int|
            if 0 <= i < o.len() {
                (o[i].0@, json_model(uri, o[i].1))
            } else {
                (Seq::empty(), ValueModel { origin: None, kind: KindModel::Nil })
            },
    )
}

/// Law: JSON converts kind for kind, each value carrying the source's URI:
/// null to nil, a boolean to the same boolean, a number to the same
/// `i64` where it is one, else to the same `u64`, else to a float of its
/// text, a string to the same string, an array element for element,
/// and an object to a table holding exactly the object's keys, each with
/// the conversion of the last member under it.
pub proof fn law_json_conversion(uri: Option<Seq<char>>, n: JsonNode)
    ensures
        json_model(uri, n).origin == uri,
        n is Null ==> json_model(uri, n).kind == KindModel::Nil,
        n matches JsonNode::Bool(b) ==> json_model(uri, n).kind == KindModel::Boolean(b),
        n matches JsonNode::Number(x) ==> (x.as_i64 matches Some(i) ==> json_model(uri, n).kind
            == KindModel::I64(i)),
        n matches JsonNode::Number(x) ==> (x.as_i64 is None && x.as_u64 is Some ==> json_model(uri, n).kind
            == KindModel::U64(x.as_u64->0)),
        n matches JsonNode::Number(x) ==> (x.as_i64 is None && x.as_u64 is None ==> json_model(uri, n).kind
            == KindModel::Float(x.as_f64->0@)),
        n matches JsonNode::String(t) ==> json_model(uri, n).kind == KindModel::Str(t@),
        n matches JsonNode::Array(a) ==> (json_model(uri, n).kind matches KindModel::Array(ms)
            && ms.len() == a@.len() && forall|i: int|
            0 <= i < a@.len() ==> ms[i] == json_model(uri, #[trigger] a@[i])),
        n matches JsonNode::Object(o) ==> (json_model(uri, n).kind matches KindModel::Table(t)
            && forall|k: Seq<char>|
            #![trigger lookup(t, k)]
            (lookup(t, k) is None <==> forall|i: int| 0 <= i < o@.len() ==> (#[trigger] o@[i]).0@ != k)
                && forall|i: int|
                0 <= i < o@.len() && (#[trigger] o@[i]).0@ == k && (forall|j: int|
                    i < j < o@.len() ==> o@[j].0@ != k) ==> lookup(t, k) == Some(
                    json_model(uri, o@[i].1),
                )),
{
    if let JsonNode::Object(o) = n {
        let ms = json_members(uri, o@);
        assert forall|k: Seq<char>| #![trigger lookup(insert_all(Seq::empty(), ms), k)]
            (lookup(insert_all(Seq::empty(), ms), k) is None <==> forall|i: int|
                0 <= i < o@.len() ==> (#[trigger] o@[i]).0@ != k) && forall|i: int|
                0 <= i < o@.len() && (#[trigger] o@[i]).0@ == k && (forall|j: int|
                    i < j < o@.len() ==> o@[j].0@ != k) ==> lookup(insert_all(Seq::empty(), ms), k)
                    == Some(json_model(uri, o@[i].1)) by {
            lemma_members_table(
                o@,
                |e: (String, JsonNode)| e.0@,
                |e: (String, JsonNode)| json_model(uri, e.1),
                ms,
                k,
            );
        }
    }
}

/// Converts a JSON node into a configuration value from source `uri`.
pub fn from_json_value(uri: Option<&String>, value: &JsonNode) -> (v: ConfigValue)
    requires
        json_numbers_known(*value),
    ensures
        value_model(v) == json_model(opt_ref_view(uri), *value),
    decreases value,
{
    let ghost u = opt_ref_view(uri);
    match value {
        JsonNode::String(s) => ConfigValue::new(uri, ValueKind::String(copy_string(s.as_str()))),
        JsonNode::Number(x) => {
            if let Some(i) = x.as_i64 {
                ConfigValue::new(uri, ValueKind::I64(i))
            } else if let Some(i) = x.as_u64 {
                ConfigValue::new(uri, ValueKind::U64(i))
            } else if let Some(f) = &x.as_f64 {
                ConfigValue::new(uri, ValueKind::Float(copy_string(f.as_str())))
            } else {
                proof {
                    assert(false);
                }
                ConfigValue::new(uri, ValueKind::Nil)
            }
        },
        JsonNode::Bool(b) => ConfigValue::new(uri, ValueKind::Boolean(*b)),
        JsonNode::Object(table) => {
            let mut m: Table<ConfigValue> = Table::new();
            let mut i: usize = 0;
            while i < table.len()
                invariant
                    i <= table.len(),
                    *value == JsonNode::Object(*table),
                    json_numbers_known(*value),
                    u == opt_ref_view(uri),
                    table_model(m) == insert_all(Seq::empty(), json_members(u, table@).take(i as int)),
                decreases table.len() - i,
            {
                proof {
                    assert(decreases_to!(*value => value->Object_0));
                    assert(decreases_to!(value->Object_0 => value->Object_0@));
                    assert(decreases_to!(value->Object_0@ => table@[i as int]));
                    assert(json_numbers_known(table@[i as int].1));
                }
                let key = copy_string(table[i].0.as_str());
                let v = from_json_value(uri, &table[i].1);
                let ghost m0 = m;
                let ghost vv = v;
                m.insert(key, v);
                proof {
                    lemma_table_model_insert(m0, key@, vv, m);
                    lemma_insert_all_step(Seq::empty(), json_members(u, table@), i as int);
                }
                i = i + 1;
            }
            proof {
                assert(json_members(u, table@).take(table@.len() as int) == json_members(u, table@));
            }
            let r = ConfigValue::new(uri, ValueKind::Table(m));
            proof {
                lemma_value_model_table(r.origin, m);
            }
            r
        },
        JsonNode::Array(array) => {
            let mut l: Vec<ConfigValue> = Vec::new();
            let mut i: usize = 0;
            while i < array.len()
                invariant
                    i <= array.len(),
                    *value == JsonNode::Array(*array),
                    json_numbers_known(*value),
                    u == opt_ref_view(uri),
                    array_model(l@) == json_items(u, array@).take(i as int),
                decreases array.len() - i,
            {
                proof {
                    assert(decreases_to!(*value => value->Array_0));
                    assert(decreases_to!(value->Array_0 => value->Array_0@));
                    assert(decreases_to!(value->Array_0@ => array@[i as int]));
                    assert(json_numbers_known(array@[i as int]));
                }
                let v = from_json_value(uri, &array[i]);
                let ghost l0 = l@;
                l.push(v);
                proof {
                    assert(array_model(l@) =~= array_model(l0).push(value_model(v)));
                    assert(json_items(u, array@).take(i + 1) =~= json_items(u, array@).take(
                        i as int,
                    ).push(json_model(u, array@[i as int])));
                }
                i = i + 1;
            }
            proof {
                assert(json_items(u, array@).take(array@.len() as int) == json_items(u, array@));
            }
            let r = ConfigValue::new(uri, ValueKind::Array(l));
            proof {
                lemma_value_model_array(r.origin, l);
            }
            r
        },
        JsonNode::Null => ConfigValue::new(uri, ValueKind::Nil),
    }
}

/// Parses a JSON document: the table at its root, or the error that
/// reports a root of another kind.
pub fn parse_tree(uri: Option<&String>, root: &JsonNode) -> (r: Result<Table<ConfigValue>, FormatError>)
    requires
        json_numbers_known(*root),
    ensures
        root_table_result(r, opt_ref_view(uri), json_model(opt_ref_view(uri), *root).kind),
{
    let value = from_json_value(uri, root);
    extract_root_table(uri, value)
}

/// What serde_json reads from a text: the document, or the message of the
/// error it reports.
pub uninterp spec fn json_loaded(text: Seq<char>) -> Result<JsonNode, Seq<char>>;

/// serde_json's document as the library's tree, node for node; a number by
/// `as_i64`, `as_u64` and the `Debug` text of `as_f64`.
#[verifier::external_body]
fn json_tree(v: &serde_json::Value) -> JsonNode {
    match v {
        serde_json::Value::Null => JsonNode::Null,
        serde_json::Value::Bool(b) => JsonNode::Bool(*b),
        serde_json::Value::Number(n) => JsonNode::Number(JsonNumber {
            as_i64: n.as_i64(),
            as_u64: n.as_u64(),
            as_f64: n.as_f64().map(|f| format!("{:?}", f)),
        }),
        serde_json::Value::String(s) => JsonNode::String(s.clone()),
        serde_json::Value::Array(a) => JsonNode::Array(a.iter().map(json_tree).collect()),
        serde_json::Value::Object(o) => JsonNode::Object(o.iter().map(|(k, x)| (k.clone(), json_tree(x))).collect()),
    }
}

/// `serde_json::from_str` into serde_json's `Value`: the result is named
/// `json_loaded` of the text.  Every number it reads has a float form:
/// `Number::as_f64` gives `Some` for every number when the
/// `arbitrary_precision` feature is off, as it is in this build.
#[verifier::external_body]
pub(crate) fn load_json(text: &str) -> (r: Result<JsonNode, String>)
    ensures
        match json_loaded(text@) {
            Ok(n) => r == Ok::<JsonNode, String>(n) && json_numbers_known(n),
            Err(m) => r matches Err(e) && e@ == m,
        },
{
    match serde_json::from_str::<serde_json::Value>(text) {
        Ok(v) => Ok(json_tree(&v)),
        Err(e) => Err(e.to_string()),
    }
}

/// Parses JSON text from source `uri`: the table at the document's root,
/// the error that the root is no table, or the parser's message.
pub fn parse(uri: Option<&String>, text: &str) -> (r: Result<Table<ConfigValue>, FormatError>)
    ensures
        match json_loaded(text@) {
            Ok(n) => root_table_result(r, opt_ref_view(uri), json_model(opt_ref_view(uri), n).kind),
            Err(m) => r matches Err(FormatError::Parser(e)) && e@ == m,
        },
{
    match load_json(text) {
        Ok(n) => parse_tree(uri, &n),
        Err(m) => Err(FormatError::Parser(m)),
    }
}

} // verus!

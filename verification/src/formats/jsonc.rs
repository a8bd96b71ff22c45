//! JSON-with-comments documents: the tree that jsonc-parser reads, and its
//! conversion into configuration values.
use vstd::prelude::*;

use crate::error::{ConfigError, Unexpected};
use crate::format::{is_root_error, FormatError};
use crate::text::{chars_of, copy_string, float_text_ok, is_float_text, parse_i64, signed_text};
use crate::value::{
    lookup,
    lemma_members_table,
    array_model, insert_all, lemma_insert_all_step, lemma_table_model_insert, lemma_value_model_array,
    lemma_value_model_table, opt_ref_view, table_model, value_model, KindModel, Table, ConfigValue,
    ValueKind, ValueModel,
};

verus! {

/// A JSONC value as jsonc-parser reads it: numbers by the text they were
/// written with, object members in the order the map yields them.
#[derive(Debug, PartialEq)]
pub enum JsoncNode {
    String(String),
    Number(String),
    Boolean(bool),
    Object(Vec<(String, JsoncNode)>),
    Array(Vec<JsoncNode>),
    Null,
}

/// A number's text reads as an `i64`.
pub open spec fn is_i64_text(t: Seq<char>) -> bool {
    signed_text(t) matches Some(v) && i64::MIN <= v <= i64::MAX
}

/// Every number of the node reads as an `i64` or an `f64`.
pub open spec fn jsonc_numbers_ok(n: JsoncNode) -> bool
    decreases n,
{
    match n {
        JsoncNode::Number(t) => is_i64_text(t@) || is_float_text(t@),
        JsoncNode::Array(a) => forall|i: int| 0 <= i < a@.len() ==> jsonc_numbers_ok(#[trigger] a@[i]),
        JsoncNode::Object(o) => forall|i: int|
            0 <= i < o@.len() ==> jsonc_numbers_ok(#[trigger] o@[i].1),
        _ => true,
    }
}

/// The value a JSONC node converts to: a number as `i64` when its text reads so, else as a float; objects become tables built by inserting their members in order.
pub open spec fn jsonc_model(uri: Option<Seq<char>>, n: JsoncNode) -> ValueModel
    decreases n, 1int,
{
    ValueModel {
        origin: uri,
        kind: match n {
            JsoncNode::Null => KindModel::Nil,
            JsoncNode::String(s) => KindModel::Str(s@),
            JsoncNode::Number(t) => if is_i64_text(t@) {
                KindModel::I64(signed_text(t@)->0 as i64)
            } else {
                KindModel::Float(t@)
            },
            JsoncNode::Boolean(b) => KindModel::Boolean(b),
            JsoncNode::Object(o) => KindModel::Table(insert_all(Seq::empty(), jsonc_members(uri, o@))),
            JsoncNode::Array(a) => KindModel::Array(jsonc_items(uri, a@)),
        },
    }
}

pub open spec fn jsonc_items(uri: Option<Seq<char>>, a: Seq<JsoncNode>) -> Seq<ValueModel>
    decreases a, 0int,
{
    Seq::new(
        a.len(),
        |i: int|
            if 0 <= i < a.len() {
                jsonc_model(uri, a[i])
            } else {
                ValueModel { origin: None, kind: KindModel::Nil }
            },
    )
}

pub open spec fn jsonc_members(uri: Option<Seq<char>>, o: Seq<(String, JsoncNode)>) -> Seq<
    (Seq<char>, ValueModel),
>
    decreases o, 0int,
{
    Seq::new(
        o.len(),
        |i: int|
            if 0 <= i < o.len() {
                (o[i].0@, jsonc_model(uri, o[i].1))
            } else {
                (Seq::empty(), ValueModel { origin: None, kind: KindModel::Nil })
            },
    )
}

/// Law: JSONC converts kind for kind, each value carrying the source's URI:
/// null to nil, a boolean to the same boolean, a string to the same
/// string, a number that reads as an `i64` to that integer and any other
/// number to a float of the same text, an array element for element, and
/// an object to a table holding exactly the object's keys, each with the
/// conversion of the last member under it.
pub proof fn law_jsonc_conversion(uri: Option<Seq<char>>, n: JsoncNode)
    ensures
        jsonc_model(uri, n).origin == uri,
        n is Null ==> jsonc_model(uri, n).kind == KindModel::Nil,
        n matches JsoncNode::Boolean(b) ==> jsonc_model(uri, n).kind == KindModel::Boolean(b),
        n matches JsoncNode::String(s) ==> jsonc_model(uri, n).kind == KindModel::Str(s@),
        n matches JsoncNode::Number(t) ==> (!is_i64_text(t@) ==> jsonc_model(uri, n).kind == KindModel::Float(t@)),
        n matches JsoncNode::Number(t) ==> (signed_text(t@) is Some && i64::MIN <= signed_text(t@)->0 <= i64::MAX
            ==> jsonc_model(uri, n).kind == KindModel::I64(signed_text(t@)->0 as i64)),
        n matches JsoncNode::Array(a) ==> (jsonc_model(uri, n).kind matches KindModel::Array(ms)
            && ms.len() == a@.len() && forall|i: int|
            0 <= i < a@.len() ==> ms[i] == jsonc_model(uri, #[trigger] a@[i])),
        n matches JsoncNode::Object(o) ==> (jsonc_model(uri, n).kind matches KindModel::Table(t)
            && forall|k: Seq<char>|
            #![trigger lookup(t, k)]
            (lookup(t, k) is None <==> forall|i: int| 0 <= i < o@.len() ==> (#[trigger] o@[i]).0@ != k)
                && forall|i: int|
                0 <= i < o@.len() && (#[trigger] o@[i]).0@ == k && (forall|j: int|
                    i < j < o@.len() ==> o@[j].0@ != k) ==> lookup(t, k) == Some(
                    jsonc_model(uri, o@[i].1),
                )),
    decreases n,
{
    if let JsoncNode::Object(o) = n {
        let ms = jsonc_members(uri, o@);
        assert forall|k: Seq<char>| #![trigger lookup(insert_all(Seq::empty(), ms), k)]
            (lookup(insert_all(Seq::empty(), ms), k) is None <==> forall|i: int|
                0 <= i < o@.len() ==> (#[trigger] o@[i]).0@ != k) && forall|i: int|
                0 <= i < o@.len() && (#[trigger] o@[i]).0@ == k && (forall|j: int|
                    i < j < o@.len() ==> o@[j].0@ != k) ==> lookup(insert_all(Seq::empty(), ms), k)
                    == Some(jsonc_model(uri, o@[i].1)) by {
            lemma_members_table(
                o@,
                |e: (String, JsoncNode)| e.0@,
                |e: (String, JsoncNode)| jsonc_model(uri, e.1),
                ms,
                k,
            );
        }
    }
}

/// Converts a JSONC value into a configuration value from source `uri`.
pub fn from_jsonc_value(uri: Option<&String>, value: &JsoncNode) -> (v: ConfigValue)
    requires
        jsonc_numbers_ok(*value),
    ensures
        value_model(v) == jsonc_model(opt_ref_view(uri), *value),
    decreases value,
{
    let ghost u = opt_ref_view(uri);
    match value {
        JsoncNode::Null => ConfigValue::new(uri, ValueKind::Nil),
        JsoncNode::String(s) => ConfigValue::new(uri, ValueKind::String(copy_string(s.as_str()))),
        JsoncNode::Number(t) => {
            let cs = chars_of(t.as_str());
            match parse_i64(cs.as_slice()) {
                Some(v) => ConfigValue::new(uri, ValueKind::I64(v)),
                None => ConfigValue::new(uri, ValueKind::Float(copy_string(t.as_str()))),
            }
        },
        JsoncNode::Boolean(b) => ConfigValue::new(uri, ValueKind::Boolean(*b)),
        JsoncNode::Object(table) => {
            let mut m: Table<ConfigValue> = Table::new();
            let mut i: usize = 0;
            while i < table.len()
                invariant
                    i <= table.len(),
                    *value == JsoncNode::Object(*table),
                    jsonc_numbers_ok(*value),
                    u == opt_ref_view(uri),
                    table_model(m) == insert_all(Seq::empty(), jsonc_members(u, table@).take(i as int)),
                decreases table.len() - i,
            {
                proof {
                    assert(decreases_to!(*value => value->Object_0));
                    assert(decreases_to!(value->Object_0 => value->Object_0@));
                    assert(decreases_to!(value->Object_0@ => table@[i as int]));
                    assert(jsonc_numbers_ok(table@[i as int].1));
                }
                let key = copy_string(table[i].0.as_str());
                let v = from_jsonc_value(uri, &table[i].1);
                let ghost m0 = m;
                let ghost vv = v;
                m.insert(key, v);
                proof {
                    lemma_table_model_insert(m0, key@, vv, m);
                    lemma_insert_all_step(Seq::empty(), jsonc_members(u, table@), i as int);
                }
                i = i + 1;
            }
            proof {
                assert(jsonc_members(u, table@).take(table@.len() as int) == jsonc_members(u, table@));
            }
            let r = ConfigValue::new(uri, ValueKind::Table(m));
            proof {
                lemma_value_model_table(r.origin, m);
            }
            r
        },
        JsoncNode::Array(array) => {
            let mut l: Vec<ConfigValue> = Vec::new();
            let mut i: usize = 0;
            while i < array.len()
                invariant
                    i <= array.len(),
                    *value == JsoncNode::Array(*array),
                    jsonc_numbers_ok(*value),
                    u == opt_ref_view(uri),
                    array_model(l@) == jsonc_items(u, array@).take(i as int),
                decreases array.len() - i,
            {
                proof {
                    assert(decreases_to!(*value => value->Array_0));
                    assert(decreases_to!(value->Array_0 => value->Array_0@));
                    assert(decreases_to!(value->Array_0@ => array@[i as int]));
                    assert(jsonc_numbers_ok(array@[i as int]));
                }
                let v = from_jsonc_value(uri, &array[i]);
                let ghost l0 = l@;
                l.push(v);
                proof {
                    assert(array_model(l@) =~= array_model(l0).push(value_model(v)));
                    assert(jsonc_items(u, array@).take(i + 1) =~= jsonc_items(u, array@).take(
                        i as int,
                    ).push(jsonc_model(u, array@[i as int])));
                }
                i = i + 1;
            }
            proof {
                assert(jsonc_items(u, array@).take(array@.len() as int) == jsonc_items(u, array@));
            }
            let r = ConfigValue::new(uri, ValueKind::Array(l));
            proof {
                lemma_value_model_array(r.origin, l);
            }
            r
        },
    }
}

/// The root reads without a panic: a root object's numbers read as `i64`
/// or `f64`, a root number reads as an `f64`.
pub open spec fn jsonc_root_ok(root: Option<JsoncNode>) -> bool {
    match root {
        Some(n) => match n {
            JsoncNode::Object(_) => jsonc_numbers_ok(n),
            JsoncNode::Number(t) => is_float_text(t@),
            _ => true,
        },
        None => true,
    }
}

/// What parsing a JSONC document whose root is `root` yields.
pub open spec fn jsonc_parse_result(
    r: Result<Table<ConfigValue>, FormatError>,
    uri: Option<Seq<char>>,
    root: Option<JsoncNode>,
) -> bool {
    match root {
        None => r matches Err(e) && is_root_error(e, uri, KindModel::Nil),
        Some(n) => match n {
            JsoncNode::Object(_) => r matches Ok(t) && KindModel::Table(table_model(t))
                == jsonc_model(uri, n).kind,
            JsoncNode::Number(t) => r matches Err(e) && is_root_error(e, uri, KindModel::Float(t@)),
            _ => r matches Err(e) && is_root_error(e, uri, jsonc_model(uri, n).kind),
        },
    }
}

pub open spec fn opt_deref(root: Option<&JsoncNode>) -> Option<JsoncNode> {
    match root {
        Some(n) => Some(*n),
        None => None,
    }
}

/// Parses a JSONC document (`None` when the text holds no value): the
/// table at its root, or the root error; a number at the root is reported
/// as a float.
pub fn parse_tree(uri: Option<&String>, root: Option<&JsoncNode>) -> (r: Result<
    Table<ConfigValue>,
    FormatError,
>)
    requires
        jsonc_root_ok(opt_deref(root)),
    ensures
        jsonc_parse_result(r, opt_ref_view(uri), opt_deref(root)),
{
    let u = match root {
        None => Unexpected::Unit,
        Some(n) => match n {
            JsoncNode::String(v) => Unexpected::Str(copy_string(v.as_str())),
            JsoncNode::Number(v) => Unexpected::Float(copy_string(v.as_str())),
            JsoncNode::Boolean(b) => Unexpected::Bool(*b),
            JsoncNode::Object(_) => {
                let v = from_jsonc_value(uri, n);
                match v.kind {
                    ValueKind::Table(map) => {
                        proof {
                            lemma_value_model_table(v.origin, map);
                        }
                        return Ok(map);
                    },
                    _ => {
                        proof {
                            assert(false);
                        }
                        Unexpected::Unit
                    },
                }
            },
            JsoncNode::Array(_) => Unexpected::Sequence,
            JsoncNode::Null => Unexpected::Unit,
        },
    };
    Err(FormatError::Root(ConfigError::invalid_root(uri, u)))
}

/// Whether every number of the node reads as an `i64` or an `f64`.
pub fn jsonc_numbers_check(n: &JsoncNode) -> (b: bool)
    ensures
        b == jsonc_numbers_ok(*n),
    decreases n,
{
    match n {
        JsoncNode::Number(t) => {
            let cs = chars_of(t.as_str());
            let i = parse_i64(cs.as_slice());
            i.is_some() || float_text_ok(cs.as_slice())
        },
        JsoncNode::Array(a) => {
            let mut i: usize = 0;
            while i < a.len()
                invariant
                    i <= a.len(),
                    *n == JsoncNode::Array(*a),
                    forall|j: int| 0 <= j < i ==> jsonc_numbers_ok(#[trigger] a@[j]),
                decreases a.len() - i,
            {
                proof {
                    assert(decreases_to!(*n => n->Array_0));
                    assert(decreases_to!(n->Array_0 => n->Array_0@));
                    assert(decreases_to!(n->Array_0@ => a@[i as int]));
                }
                if !jsonc_numbers_check(&a[i]) {
                    assert(!jsonc_numbers_ok(JsoncNode::Array(*a)));
                    return false;
                }
                i = i + 1;
            }
            assert(jsonc_numbers_ok(JsoncNode::Array(*a)));
            true
        },
        JsoncNode::Object(o) => {
            let mut i: usize = 0;
            while i < o.len()
                invariant
                    i <= o.len(),
                    *n == JsoncNode::Object(*o),
                    forall|j: int| 0 <= j < i ==> jsonc_numbers_ok(#[trigger] o@[j].1),
                decreases o.len() - i,
            {
                proof {
                    assert(decreases_to!(*n => n->Object_0));
                    assert(decreases_to!(n->Object_0 => n->Object_0@));
                    assert(decreases_to!(n->Object_0@ => o@[i as int]));
                }
                if !jsonc_numbers_check(&o[i].1) {
                    assert(!jsonc_numbers_ok(JsoncNode::Object(*o)));
                    return false;
                }
                i = i + 1;
            }
            assert(jsonc_numbers_ok(JsoncNode::Object(*o)));
            true
        },
        _ => true,
    }
}

/// Whether a root reads without a panic, as `jsonc_root_ok` says.
pub fn jsonc_root_check(root: Option<&JsoncNode>) -> (b: bool)
    ensures
        b == jsonc_root_ok(opt_deref(root)),
{
    match root {
        Some(n) => match n {
            JsoncNode::Object(_) => jsonc_numbers_check(n),
            JsoncNode::Number(t) => {
                let cs = chars_of(t.as_str());
                float_text_ok(cs.as_slice())
            },
            _ => true,
        },
        None => true,
    }
}

/// `jsonc_parser::parse_to_value` with the default options: the document
/// (`None` when the text holds no value) or the message of the error.
/// Nothing is stated of the document: the parser keeps object members in
/// a `HashMap`, whose order differs from one process to the next.
#[verifier::external_body]
fn load_jsonc(text: &str) -> (r: Result<Option<JsoncNode>, String>) {
    match jsonc_parser::parse_to_value(text, &Default::default()) {
        Ok(v) => Ok(v.map(jsonc_tree)),
        Err(e) => Err(e.to_string()),
    }
}

/// A jsonc-parser value as the library's tree, node for node.
#[verifier::external_body]
fn jsonc_tree(v: jsonc_parser::JsonValue<'_>) -> JsoncNode {
    match v {
        jsonc_parser::JsonValue::String(s) => JsoncNode::String(s.to_string()),
        jsonc_parser::JsonValue::Number(n) => JsoncNode::Number(n.to_string()),
        jsonc_parser::JsonValue::Boolean(b) => JsoncNode::Boolean(b),
        jsonc_parser::JsonValue::Object(o) => JsoncNode::Object(o.into_iter().map(|(k, x)| (k.to_string(), jsonc_tree(x))).collect()),
        jsonc_parser::JsonValue::Array(a) => JsoncNode::Array(a.into_iter().map(jsonc_tree).collect()),
        jsonc_parser::JsonValue::Null => JsoncNode::Null,
    }
}

/// Reads a loaded JSONC document from source `uri`: `None` where it holds
/// a number that reads neither as an `i64` nor as an `f64` (where the
/// reader panics), else what `parse_tree` gives.
pub fn parse_loaded(uri: Option<&String>, root: Option<&JsoncNode>) -> (r: Option<
    Result<Table<ConfigValue>, FormatError>,
>)
    ensures
        r is None <==> !jsonc_root_ok(opt_deref(root)),
        r matches Some(x) ==> jsonc_parse_result(x, opt_ref_view(uri), opt_deref(root)),
{
    if !jsonc_root_check(root) {
        return None;
    }
    Some(parse_tree(uri, root))
}

/// Parses JSONC text from source `uri`: the loader's message where the
/// text does not load, else what `parse_loaded` gives of the document.
pub fn parse(uri: Option<&String>, text: &str) -> (r: Option<Result<Table<ConfigValue>, FormatError>>)
    ensures
        match r {
            None => exists|root: Option<JsoncNode>| !jsonc_root_ok(root),
            Some(Err(FormatError::Parser(_))) => true,
            Some(x) => exists|root: Option<JsoncNode>|
                jsonc_root_ok(root) && jsonc_parse_result(x, opt_ref_view(uri), root),
        },
{
    match load_jsonc(text) {
        Ok(root) => {
            let rr = root.as_ref();
            let r = parse_loaded(uri, rr);
            assert(r is None ==> !jsonc_root_ok(opt_deref(rr)));
            assert(r matches Some(x) ==> jsonc_root_ok(opt_deref(rr)) && jsonc_parse_result(x, opt_ref_view(uri), opt_deref(rr)));
            r
        },
        Err(m) => Some(Err(FormatError::Parser(m))),
    }
}

} // verus!

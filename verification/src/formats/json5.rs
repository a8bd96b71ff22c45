//! JSON5 documents: the untagged tree that json5 deserializes, and its
//! conversion into configuration values.
use vstd::prelude::*;

use crate::format::{extract_root_table, root_table_result, FormatError};
use crate::text::copy_string;
use crate::value::{
    lemma_members_table, lookup,
    insert_all, lemma_insert_all_step, lemma_table_model_insert, lemma_value_model_array,
    lemma_value_model_table, opt_ref_view, table_model, value_model, array_model, KindModel, Table,
    ConfigValue, ValueKind, ValueModel,
};

verus! {

/// A JSON5 document as it deserializes into an untagged tree: null,
/// booleans, integers, floats (by their decimal text), strings, arrays and
/// objects, object members in the order the map yields them.
#[derive(Debug, PartialEq)]
pub enum Val {
    Null,
    Boolean(bool),
    Integer(i64),
    Float(String),
    String(String),
    Array(Vec<Val>),
    Object(Vec<(String, Val)>),
}

/// The value a JSON5 node converts to; objects become tables built by
/// inserting their members in order.
pub open spec fn json5_model(uri: Option<Seq<char>>, n: Val) -> ValueModel
    decreases n, 1int,
{
    ValueModel {
        origin: uri,
        kind: match n {
            Val::Null => KindModel::Nil,
            Val::Boolean(b) => KindModel::Boolean(b),
            Val::Integer(i) => KindModel::I64(i),
            Val::Float(f) => KindModel::Float(f@),
            Val::String(s) => KindModel::Str(s@),
            Val::Array(a) => KindModel::Array(json5_items(uri, a@)),
            Val::Object(o) => KindModel::Table(
                insert_all(Seq::empty(), json5_members(uri, o@)),
            ),
        },
    }
}

pub open spec fn json5_items(uri: Option<Seq<char>>, a: Seq<Val>) -> Seq<ValueModel>
    decreases a, 0int,
{
    Seq::new(
        a.len(),
        |i: int|
            if 0 <= i < a.len() {
                json5_model(uri, a[i])
            } else {
                ValueModel { origin: None, kind: KindModel::Nil }
            },
    )
}

pub open spec fn json5_members(uri: Option<Seq<char>>, o: Seq<(String, Val)>) -> Seq<
    (Seq<char>, ValueModel),
>
    decreases o, 0int,
{
    Seq::new(
        o.len(),
        |i: int|
            if 0 <= i < o.len() {
                (o[i].0@, json5_model(uri, o[i].1))
            } else {
                (Seq::empty(), ValueModel { origin: None, kind: KindModel::Nil })
            },
    )
}

/// Law: JSON5 converts kind for kind, each value carrying the source's URI:
/// null to nil, a boolean to the same boolean, an integer to the same
/// integer, a float and a string to the same text, an array element for
/// element, and an object to a table holding exactly its keys, each with
/// the conversion of the last member under it.
pub proof fn law_json5_conversion(uri: Option<Seq<char>>, n: Val)
    ensures
        json5_model(uri, n).origin == uri,
        n is Null ==> json5_model(uri, n).kind == KindModel::Nil,
        n matches Val::Boolean(b) ==> json5_model(uri, n).kind == KindModel::Boolean(b),
        n matches Val::Integer(i) ==> json5_model(uri, n).kind == KindModel::I64(i),
        n matches Val::Float(f) ==> json5_model(uri, n).kind == KindModel::Float(f@),
        n matches Val::String(t) ==> json5_model(uri, n).kind == KindModel::Str(t@),
        n matches Val::Array(a) ==> (json5_model(uri, n).kind matches KindModel::Array(ms)
            && ms.len() == a@.len() && forall|i: int|
            0 <= i < a@.len() ==> ms[i] == json5_model(uri, #[trigger] a@[i])),
        n matches Val::Object(o) ==> (json5_model(uri, n).kind matches KindModel::Table(t)
            && forall|k: Seq<char>|
            #![trigger lookup(t, k)]
            (lookup(t, k) is None <==> forall|i: int| 0 <= i < o@.len() ==> (#[trigger] o@[i]).0@ != k)
                && forall|i: int|
                0 <= i < o@.len() && (#[trigger] o@[i]).0@ == k && (forall|j: int|
                    i < j < o@.len() ==> o@[j].0@ != k) ==> lookup(t, k) == Some(
                    json5_model(uri, o@[i].1),
                )),
    decreases n,
{
    if let Val::Object(o) = n {
        let ms = json5_members(uri, o@);
        assert forall|k: Seq<char>| #![trigger lookup(insert_all(Seq::empty(), ms), k)]
            (lookup(insert_all(Seq::empty(), ms), k) is None <==> forall|i: int|
                0 <= i < o@.len() ==> (#[trigger] o@[i]).0@ != k) && forall|i: int|
                0 <= i < o@.len() && (#[trigger] o@[i]).0@ == k && (forall|j: int|
                    i < j < o@.len() ==> o@[j].0@ != k) ==> lookup(insert_all(Seq::empty(), ms), k)
                    == Some(json5_model(uri, o@[i].1)) by {
            lemma_members_table(
                o@,
                |e: (String, Val)| e.0@,
                |e: (String, Val)| json5_model(uri, e.1),
                ms,
                k,
            );
        }
    }
}

/// Converts a JSON5 node into a configuration value from source `uri`.
pub fn from_json5_value(uri: Option<&String>, value: &Val) -> (v: ConfigValue)
    ensures
        value_model(v) == json5_model(opt_ref_view(uri), *value),
    decreases value,
{
    let ghost u = opt_ref_view(uri);
    match value {
        Val::Null => ConfigValue::new(uri, ValueKind::Nil),
        Val::String(s) => ConfigValue::new(uri, ValueKind::String(copy_string(s.as_str()))),
        Val::Integer(i) => ConfigValue::new(uri, ValueKind::I64(*i)),
        Val::Float(f) => ConfigValue::new(uri, ValueKind::Float(copy_string(f.as_str()))),
        Val::Boolean(b) => ConfigValue::new(uri, ValueKind::Boolean(*b)),
        Val::Object(table) => {
            let mut m: Table<ConfigValue> = Table::new();
            let mut i: usize = 0;
            while i < table.len()
                invariant
                    i <= table.len(),
                    *value == Val::Object(*table),
                    u == opt_ref_view(uri),
                    table_model(m) == insert_all(Seq::empty(), json5_members(u, table@).take(i as int)),
                decreases table.len() - i,
            {
                proof {
                    assert(decreases_to!(*value => value->Object_0));
                    assert(decreases_to!(value->Object_0 => value->Object_0@));
                    assert(decreases_to!(value->Object_0@ => table@[i as int]));
                }
                let key = copy_string(table[i].0.as_str());
                let v = from_json5_value(uri, &table[i].1);
                let ghost m0 = m;
                let ghost vv = v;
                m.insert(key, v);
                proof {
                    lemma_table_model_insert(m0, key@, vv, m);
                    lemma_insert_all_step(Seq::empty(), json5_members(u, table@), i as int);
                }
                i = i + 1;
            }
            proof {
                assert(json5_members(u, table@).take(table@.len() as int) == json5_members(u, table@));
            }
            let r = ConfigValue::new(uri, ValueKind::Table(m));
            proof {
                lemma_value_model_table(r.origin, m);
            }
            r
        },
        Val::Array(array) => {
            let mut l: Vec<ConfigValue> = Vec::new();
            let mut i: usize = 0;
            while i < array.len()
                invariant
                    i <= array.len(),
                    *value == Val::Array(*array),
                    u == opt_ref_view(uri),
                    array_model(l@) == json5_items(u, array@).take(i as int),
                decreases array.len() - i,
            {
                proof {
                    assert(decreases_to!(*value => value->Array_0));
                    assert(decreases_to!(value->Array_0 => value->Array_0@));
                    assert(decreases_to!(value->Array_0@ => array@[i as int]));
                }
                let v = from_json5_value(uri, &array[i]);
                let ghost l0 = l@;
                l.push(v);
                proof {
                    assert(array_model(l@) =~= array_model(l0).push(value_model(v)));
                    assert(json5_items(u, array@).take(i + 1) =~= json5_items(u, array@).take(
                        i as int,
                    ).push(json5_model(u, array@[i as int])));
                }
                i = i + 1;
            }
            proof {
                assert(json5_items(u, array@).take(array@.len() as int) == json5_items(u, array@));
            }
            let r = ConfigValue::new(uri, ValueKind::Array(l));
            proof {
                lemma_value_model_array(r.origin, l);
            }
            r
        },
    }
}

/// Parses a JSON5 document: the table at its root, or the error that
/// reports a root of another kind.
pub fn parse_tree(uri: Option<&String>, root: &Val) -> (r: Result<Table<ConfigValue>, FormatError>)
    ensures
        root_table_result(r, opt_ref_view(uri), json5_model(opt_ref_view(uri), *root).kind),
{
    let value = from_json5_value(uri, root);
    extract_root_table(uri, value)
}

} // verus!

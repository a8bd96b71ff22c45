//! Gura documents: the tree that the gura crate reads, and its conversion
//! into configuration values.
use vstd::prelude::*;

use crate::format::{FormatError};
use crate::text::{copy_string};
use crate::value::{
    lookup,
    lemma_members_table,
    array_model, insert_all, lemma_insert_all_step, lemma_table_model_insert, lemma_value_model_array,
    lemma_value_model_table, opt_ref_view, table_model, value_model, KindModel, Table, ConfigValue,
    ValueKind, ValueModel,
};

verus! {

/// A Gura document as the gura crate reads it: floats by their decimal
/// text, object entries in the order the map yields them; `Other` stands
/// for the kinds that gura only uses internally.
#[derive(Debug, PartialEq)]
pub enum GuraNode {
    String(String),
    Integer(i64),
    BigInteger(i128),
    Float(String),
    Bool(bool),
    Object(Vec<(String, GuraNode)>),
    Array(Vec<GuraNode>),
    Null,
    Other,
}


/// The value a Gura node converts to: null and the internal kinds become nil; objects are built by inserting their entries in order.
pub open spec fn gura_model(uri: Option<Seq<char>>, n: GuraNode) -> ValueModel
    decreases n, 1int,
{
    ValueModel {
        origin: uri,
        kind: match n {
            GuraNode::String(s) => KindModel::Str(s@),
            GuraNode::Integer(i) => KindModel::I64(i),
            GuraNode::BigInteger(i) => KindModel::I128(i),
            GuraNode::Float(f) => KindModel::Float(f@),
            GuraNode::Bool(b) => KindModel::Boolean(b),
            GuraNode::Object(o) => KindModel::Table(insert_all(Seq::empty(), gura_members(uri, o@))),
            GuraNode::Array(a) => KindModel::Array(gura_items(uri, a@)),
            GuraNode::Null => KindModel::Nil,
            GuraNode::Other => KindModel::Nil,
        },
    }
}

pub open spec fn gura_items(uri: Option<Seq<char>>, a: Seq<GuraNode>) -> Seq<ValueModel>
    decreases a, 0int,
{
    Seq::new(
        a.len(),
        |i: int|
            if 0 <= i < a.len() {
                gura_model(uri, a[i])
            } else {
                ValueModel { origin: None, kind: KindModel::Nil }
            },
    )
}

pub open spec fn gura_members(uri: Option<Seq<char>>, o: Seq<(String, GuraNode)>) -> Seq<
    (Seq<char>, ValueModel),
>
    decreases o, 0int,
{
    Seq::new(
        o.len(),
        |i: int|
            if 0 <= i < o.len() {
                (o[i].0@, gura_model(uri, o[i].1))
            } else {
                (Seq::empty(), ValueModel { origin: None, kind: KindModel::Nil })
            },
    )
}

/// Law: Gura converts kind for kind, each value carrying the source's URI:
/// null to nil, a boolean to the same boolean, an integer to the same
/// integer, a float and a string to the same text, an array element for
/// element, and an object to a table holding exactly its keys, each with
/// the conversion of the last member under it.
pub proof fn law_gura_conversion(uri: Option<Seq<char>>, n: GuraNode)
    ensures
        gura_model(uri, n).origin == uri,
        n is Null ==> gura_model(uri, n).kind == KindModel::Nil,
        n matches GuraNode::Bool(b) ==> gura_model(uri, n).kind == KindModel::Boolean(b),
        n matches GuraNode::Integer(i) ==> gura_model(uri, n).kind == KindModel::I64(i),
        n matches GuraNode::BigInteger(i) ==> gura_model(uri, n).kind == KindModel::I128(i),
        n matches GuraNode::Float(f) ==> gura_model(uri, n).kind == KindModel::Float(f@),
        n matches GuraNode::String(s) ==> gura_model(uri, n).kind == KindModel::Str(s@),
        n matches GuraNode::Array(a) ==> (gura_model(uri, n).kind matches KindModel::Array(ms)
            && ms.len() == a@.len() && forall|i: int|
            0 <= i < a@.len() ==> ms[i] == gura_model(uri, #[trigger] a@[i])),
        n matches GuraNode::Object(o) ==> (gura_model(uri, n).kind matches KindModel::Table(t)
            && forall|k: Seq<char>|
            #![trigger lookup(t, k)]
            (lookup(t, k) is None <==> forall|i: int| 0 <= i < o@.len() ==> (#[trigger] o@[i]).0@ != k)
                && forall|i: int|
                0 <= i < o@.len() && (#[trigger] o@[i]).0@ == k && (forall|j: int|
                    i < j < o@.len() ==> o@[j].0@ != k) ==> lookup(t, k) == Some(
                    gura_model(uri, o@[i].1),
                )),
    decreases n,
{
    if let GuraNode::Object(o) = n {
        let ms = gura_members(uri, o@);
        assert forall|k: Seq<char>| #![trigger lookup(insert_all(Seq::empty(), ms), k)]
            (lookup(insert_all(Seq::empty(), ms), k) is None <==> forall|i: int|
                0 <= i < o@.len() ==> (#[trigger] o@[i]).0@ != k) && forall|i: int|
                0 <= i < o@.len() && (#[trigger] o@[i]).0@ == k && (forall|j: int|
                    i < j < o@.len() ==> o@[j].0@ != k) ==> lookup(insert_all(Seq::empty(), ms), k)
                    == Some(gura_model(uri, o@[i].1)) by {
            lemma_members_table(
                o@,
                |e: (String, GuraNode)| e.0@,
                |e: (String, GuraNode)| gura_model(uri, e.1),
                ms,
                k,
            );
        }
    }
}

/// Converts a Gura node into a configuration value from source `uri`.
pub fn from_gura_value(uri: Option<&String>, value: &GuraNode) -> (v: ConfigValue)
    ensures
        value_model(v) == gura_model(opt_ref_view(uri), *value),
    decreases value,
{
    let ghost u = opt_ref_view(uri);
    match value {
        GuraNode::String(s) => ConfigValue::new(uri, ValueKind::String(copy_string(s.as_str()))),
        GuraNode::Integer(i) => ConfigValue::new(uri, ValueKind::I64(*i)),
        GuraNode::BigInteger(i) => ConfigValue::new(uri, ValueKind::I128(*i)),
        GuraNode::Float(f) => ConfigValue::new(uri, ValueKind::Float(copy_string(f.as_str()))),
        GuraNode::Bool(b) => ConfigValue::new(uri, ValueKind::Boolean(*b)),
        GuraNode::Null => ConfigValue::new(uri, ValueKind::Nil),
        GuraNode::Other => ConfigValue::new(uri, ValueKind::Nil),
        GuraNode::Object(table) => {
            let mut m: Table<ConfigValue> = Table::new();
            let mut i: usize = 0;
            while i < table.len()
                invariant
                    i <= table.len(),
                    *value == GuraNode::Object(*table),
                    u == opt_ref_view(uri),
                    table_model(m) == insert_all(Seq::empty(), gura_members(u, table@).take(i as int)),
                decreases table.len() - i,
            {
                proof {
                    assert(decreases_to!(*value => value->Object_0));
                    assert(decreases_to!(value->Object_0 => value->Object_0@));
                    assert(decreases_to!(value->Object_0@ => table@[i as int]));
                }
                let key = copy_string(table[i].0.as_str());
                let v = from_gura_value(uri, &table[i].1);
                let ghost m0 = m;
                let ghost vv = v;
                m.insert(key, v);
                proof {
                    lemma_table_model_insert(m0, key@, vv, m);
                    lemma_insert_all_step(Seq::empty(), gura_members(u, table@), i as int);
                }
                i = i + 1;
            }
            proof {
                assert(gura_members(u, table@).take(table@.len() as int) == gura_members(u, table@));
            }
            let r = ConfigValue::new(uri, ValueKind::Table(m));
            proof {
                lemma_value_model_table(r.origin, m);
            }
            r
        },
        GuraNode::Array(array) => {
            let mut l: Vec<ConfigValue> = Vec::new();
            let mut i: usize = 0;
            while i < array.len()
                invariant
                    i <= array.len(),
                    *value == GuraNode::Array(*array),
                    u == opt_ref_view(uri),
                    array_model(l@) == gura_items(u, array@).take(i as int),
                decreases array.len() - i,
            {
                proof {
                    assert(decreases_to!(*value => value->Array_0));
                    assert(decreases_to!(value->Array_0 => value->Array_0@));
                    assert(decreases_to!(value->Array_0@ => array@[i as int]));
                }
                let v = from_gura_value(uri, &array[i]);
                let ghost l0 = l@;
                l.push(v);
                proof {
                    assert(array_model(l@) =~= array_model(l0).push(value_model(v)));
                    assert(gura_items(u, array@).take(i + 1) =~= gura_items(u, array@).take(
                        i as int,
                    ).push(gura_model(u, array@[i as int])));
                }
                i = i + 1;
            }
            proof {
                assert(gura_items(u, array@).take(array@.len() as int) == gura_items(u, array@));
            }
            let r = ConfigValue::new(uri, ValueKind::Array(l));
            proof {
                lemma_value_model_array(r.origin, l);
            }
            r
        },
    }
}

/// Parses a document: the table at its root, or an empty table when the
/// root is of another kind.
pub fn parse_tree(uri: Option<&String>, root: &GuraNode) -> (r: Result<Table<ConfigValue>, FormatError>)
    ensures
        match gura_model(opt_ref_view(uri), *root).kind {
            KindModel::Table(m) => r matches Ok(t) && table_model(t) == m,
            _ => r matches Ok(t) && t@.len() == 0,
        },
{
    let value = from_gura_value(uri, root);
    let ghost vm = value_model(value);
    match value.kind {
        ValueKind::Table(map) => {
            proof {
                lemma_value_model_table(value.origin, map);
            }
            Ok(map)
        },
        _ => Ok(Table::new()),
    }
}

/// A Gura value as the library's tree, node for node; a float by its
/// `Debug` text, the kinds for internal use as `Other`.
#[verifier::external_body]
fn gura_tree(v: &gura::GuraType) -> GuraNode {
    match v {
        gura::GuraType::String(s) => GuraNode::String(s.clone()),
        gura::GuraType::Integer(i) => GuraNode::Integer(*i as i64),
        gura::GuraType::BigInteger(i) => GuraNode::BigInteger(*i),
        gura::GuraType::Float(f) => GuraNode::Float(format!("{:?}", f)),
        gura::GuraType::Bool(b) => GuraNode::Bool(*b),
        gura::GuraType::Object(o) => GuraNode::Object(o.iter().map(|(k, x)| (k.clone(), gura_tree(x))).collect()),
        gura::GuraType::Array(a) => GuraNode::Array(a.iter().map(gura_tree).collect()),
        gura::GuraType::Null => GuraNode::Null,
        _ => GuraNode::Other,
    }
}

/// `gura::parse`: the value or the message of the error.  Nothing is
/// stated of the value: Gura text may import files.
#[verifier::external_body]
fn load_gura(text: &str) -> (r: Result<GuraNode, String>) {
    match gura::parse(text) {
        Ok(v) => Ok(gura_tree(&v)),
        Err(e) => Err(e.to_string()),
    }
}

/// Parses Gura text from source `uri`: the table at its root, or an empty
/// table when the root is of another kind; `None` where the text does not
/// parse (where the reader panics).
pub fn parse(uri: Option<&String>, text: &str) -> (r: Option<Result<Table<ConfigValue>, FormatError>>)
    ensures
        r matches Some(x) ==> exists|n: GuraNode|
            #![trigger gura_model(opt_ref_view(uri), n)]
            match gura_model(opt_ref_view(uri), n).kind {
                KindModel::Table(m) => x matches Ok(t) && table_model(t) == m,
                _ => x matches Ok(t) && t@.len() == 0,
            },
{
    match load_gura(text) {
        Ok(n) => {
            let x = parse_tree(uri, &n);
            assert(match gura_model(opt_ref_view(uri), n).kind {
                KindModel::Table(m) => x matches Ok(t) && table_model(t) == m,
                _ => x matches Ok(t) && t@.len() == 0,
            });
            Some(x)
        },
        Err(_) => None,
    }
}

} // verus!

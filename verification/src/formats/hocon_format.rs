//! HOCON documents: the tree that the hocon crate loads, and its conversion
//! into configuration values.
use vstd::prelude::*;

use crate::format::{FormatError};
use crate::text::{copy_string, lowercase, to_lowercase};
use crate::value::{
    lookup,
    lemma_members_table,
    array_model, insert_all, lemma_insert_all_step, lemma_table_model_insert, lemma_value_model_array,
    lemma_value_model_table, opt_ref_view, table_model, value_model, KindModel, Table, ConfigValue,
    ValueKind, ValueModel,
};

verus! {

/// A HOCON document as the hocon crate loads it: reals by their decimal
/// text, hash entries in the order the map yields them.
#[derive(Debug, PartialEq)]
pub enum HoconNode {
    Integer(i64),
    Real(String),
    Boolean(bool),
    String(String),
    Hash(Vec<(String, HoconNode)>),
    Array(Vec<HoconNode>),
    Null,
    BadValue,
}


/// The value a HOCON node converts to: hash keys are lowercased; null and bad values become nil.
pub open spec fn hocon_model(uri: Option<Seq<char>>, n: HoconNode) -> ValueModel
    decreases n, 1int,
{
    ValueModel {
        origin: uri,
        kind: match n {
            HoconNode::Integer(i) => KindModel::I64(i),
            HoconNode::Real(f) => KindModel::Float(f@),
            HoconNode::Boolean(b) => KindModel::Boolean(b),
            HoconNode::String(s) => KindModel::Str(s@),
            HoconNode::Hash(o) => KindModel::Table(insert_all(Seq::empty(), hocon_members(uri, o@))),
            HoconNode::Array(a) => KindModel::Array(hocon_items(uri, a@)),
            HoconNode::Null => KindModel::Nil,
            HoconNode::BadValue => KindModel::Nil,
        },
    }
}

pub open spec fn hocon_items(uri: Option<Seq<char>>, a: Seq<HoconNode>) -> Seq<ValueModel>
    decreases a, 0int,
{
    Seq::new(
        a.len(),
        |i: int|
            if 0 <= i < a.len() {
                hocon_model(uri, a[i])
            } else {
                ValueModel { origin: None, kind: KindModel::Nil }
            },
    )
}

pub open spec fn hocon_members(uri: Option<Seq<char>>, o: Seq<(String, HoconNode)>) -> Seq<
    (Seq<char>, ValueModel),
>
    decreases o, 0int,
{
    Seq::new(
        o.len(),
        |i: int|
            if 0 <= i < o.len() {
                (lowercase(o[i].0@), hocon_model(uri, o[i].1))
            } else {
                (Seq::empty(), ValueModel { origin: None, kind: KindModel::Nil })
            },
    )
}

/// Law: HOCON converts kind for kind, each value carrying the source's URI:
/// null to nil, a boolean to the same boolean, an integer to the same
/// integer, a real and a string to the same text, an array element for
/// element, and a hash to a table holding exactly its keys, lowercased,
/// each with the conversion of the last member whose key lowercases to
/// it.
pub proof fn law_hocon_conversion(uri: Option<Seq<char>>, n: HoconNode)
    ensures
        hocon_model(uri, n).origin == uri,
        n is Null ==> hocon_model(uri, n).kind == KindModel::Nil,
        n matches HoconNode::Boolean(b) ==> hocon_model(uri, n).kind == KindModel::Boolean(b),
        n matches HoconNode::Integer(i) ==> hocon_model(uri, n).kind == KindModel::I64(i),
        n matches HoconNode::Real(f) ==> hocon_model(uri, n).kind == KindModel::Float(f@),
        n matches HoconNode::String(s) ==> hocon_model(uri, n).kind == KindModel::Str(s@),
        n matches HoconNode::Array(a) ==> (hocon_model(uri, n).kind matches KindModel::Array(ms)
            && ms.len() == a@.len() && forall|i: int|
            0 <= i < a@.len() ==> ms[i] == hocon_model(uri, #[trigger] a@[i])),
        n matches HoconNode::Hash(o) ==> (hocon_model(uri, n).kind matches KindModel::Table(t)
            && forall|k: Seq<char>|
            #![trigger lookup(t, k)]
            (lookup(t, k) is None <==> forall|i: int| 0 <= i < o@.len() ==> lowercase((#[trigger] o@[i]).0@) != k)
                && forall|i: int|
                0 <= i < o@.len() && lowercase((#[trigger] o@[i]).0@) == k && (forall|j: int|
                    i < j < o@.len() ==> lowercase(o@[j].0@) != k) ==> lookup(t, k) == Some(
                    hocon_model(uri, o@[i].1),
                )),
    decreases n,
{
    if let HoconNode::Hash(o) = n {
        let ms = hocon_members(uri, o@);
        assert forall|k: Seq<char>| #![trigger lookup(insert_all(Seq::empty(), ms), k)]
            (lookup(insert_all(Seq::empty(), ms), k) is None <==> forall|i: int|
                0 <= i < o@.len() ==> lowercase((#[trigger] o@[i]).0@) != k) && forall|i: int|
                0 <= i < o@.len() && lowercase((#[trigger] o@[i]).0@) == k && (forall|j: int|
                    i < j < o@.len() ==> lowercase(o@[j].0@) != k) ==> lookup(insert_all(Seq::empty(), ms), k)
                    == Some(hocon_model(uri, o@[i].1)) by {
            lemma_members_table(
                o@,
                |e: (String, HoconNode)| lowercase(e.0@),
                |e: (String, HoconNode)| hocon_model(uri, e.1),
                ms,
                k,
            );
        }
    }
}

/// Converts a HOCON node into a configuration value from source `uri`.
pub fn from_hocon_value(uri: Option<&String>, value: &HoconNode) -> (v: ConfigValue)
    ensures
        value_model(v) == hocon_model(opt_ref_view(uri), *value),
    decreases value,
{
    let ghost u = opt_ref_view(uri);
    match value {
        HoconNode::Integer(i) => ConfigValue::new(uri, ValueKind::I64(*i)),
        HoconNode::Real(f) => ConfigValue::new(uri, ValueKind::Float(copy_string(f.as_str()))),
        HoconNode::Boolean(b) => ConfigValue::new(uri, ValueKind::Boolean(*b)),
        HoconNode::String(s) => ConfigValue::new(uri, ValueKind::String(copy_string(s.as_str()))),
        HoconNode::Null => ConfigValue::new(uri, ValueKind::Nil),
        HoconNode::BadValue => ConfigValue::new(uri, ValueKind::Nil),
        HoconNode::Hash(table) => {
            let mut m: Table<ConfigValue> = Table::new();
            let mut i: usize = 0;
            while i < table.len()
                invariant
                    i <= table.len(),
                    *value == HoconNode::Hash(*table),
                    u == opt_ref_view(uri),
                    table_model(m) == insert_all(Seq::empty(), hocon_members(u, table@).take(i as int)),
                decreases table.len() - i,
            {
                proof {
                    assert(decreases_to!(*value => value->Hash_0));
                    assert(decreases_to!(value->Hash_0 => value->Hash_0@));
                    assert(decreases_to!(value->Hash_0@ => table@[i as int]));
                }
                let key = to_lowercase(table[i].0.as_str());
                let v = from_hocon_value(uri, &table[i].1);
                let ghost m0 = m;
                let ghost vv = v;
                m.insert(key, v);
                proof {
                    lemma_table_model_insert(m0, key@, vv, m);
                    lemma_insert_all_step(Seq::empty(), hocon_members(u, table@), i as int);
                }
                i = i + 1;
            }
            proof {
                assert(hocon_members(u, table@).take(table@.len() as int) == hocon_members(u, table@));
            }
            let r = ConfigValue::new(uri, ValueKind::Table(m));
            proof {
                lemma_value_model_table(r.origin, m);
            }
            r
        },
        HoconNode::Array(array) => {
            let mut l: Vec<ConfigValue> = Vec::new();
            let mut i: usize = 0;
            while i < array.len()
                invariant
                    i <= array.len(),
                    *value == HoconNode::Array(*array),
                    u == opt_ref_view(uri),
                    array_model(l@) == hocon_items(u, array@).take(i as int),
                decreases array.len() - i,
            {
                proof {
                    assert(decreases_to!(*value => value->Array_0));
                    assert(decreases_to!(value->Array_0 => value->Array_0@));
                    assert(decreases_to!(value->Array_0@ => array@[i as int]));
                }
                let v = from_hocon_value(uri, &array[i]);
                let ghost l0 = l@;
                l.push(v);
                proof {
                    assert(array_model(l@) =~= array_model(l0).push(value_model(v)));
                    assert(hocon_items(u, array@).take(i + 1) =~= hocon_items(u, array@).take(
                        i as int,
                    ).push(hocon_model(u, array@[i as int])));
                }
                i = i + 1;
            }
            proof {
                assert(hocon_items(u, array@).take(array@.len() as int) == hocon_items(u, array@));
            }
            let r = ConfigValue::new(uri, ValueKind::Array(l));
            proof {
                lemma_value_model_array(r.origin, l);
            }
            r
        },
    }
}

/// `r` is what parsing a document with root `n` gives: the table at its
/// root, or an empty table when the root is of another kind.
pub open spec fn hocon_root_result(
    uri: Option<Seq<char>>,
    n: HoconNode,
    r: Result<Table<ConfigValue>, FormatError>,
) -> bool {
    match hocon_model(uri, n).kind {
        KindModel::Table(m) => r matches Ok(t) && table_model(t) == m,
        _ => r matches Ok(t) && t@.len() == 0,
    }
}

/// Parses a document: the table at its root, or an empty table when the
/// root is of another kind.
pub fn parse_tree(uri: Option<&String>, root: &HoconNode) -> (r: Result<Table<ConfigValue>, FormatError>)
    ensures
        hocon_root_result(opt_ref_view(uri), *root, r),
{
    let value = from_hocon_value(uri, root);
    let ghost vm = value_model(value);
    match value.kind {
        ValueKind::Table(map) => {
            proof {
                lemma_value_model_table(value.origin, map);
            }
            Ok(map)
        },
        _ => Ok(Table::new()),
    }
}

/// A HOCON value as the library's tree, node for node; a real by its
/// `Debug` text.
#[verifier::external_body]
fn hocon_tree(v: &::hocon::Hocon) -> HoconNode {
    match v {
        ::hocon::Hocon::Integer(i) => HoconNode::Integer(*i),
        ::hocon::Hocon::Real(f) => HoconNode::Real(format!("{:?}", f)),
        ::hocon::Hocon::Boolean(b) => HoconNode::Boolean(*b),
        ::hocon::Hocon::String(s) => HoconNode::String(s.clone()),
        ::hocon::Hocon::Hash(h) => HoconNode::Hash(h.iter().map(|(k, x)| (k.clone(), hocon_tree(x))).collect()),
        ::hocon::Hocon::Array(a) => HoconNode::Array(a.iter().map(hocon_tree).collect()),
        ::hocon::Hocon::Null => HoconNode::Null,
        ::hocon::Hocon::BadValue(_) => HoconNode::BadValue,
    }
}

/// `HoconLoader::load_str` on a new loader: the loader or the message of
/// the error.  Nothing is stated: HOCON text may include files.
#[verifier::external_body]
fn hocon_load_str(text: &str) -> (r: Result<::hocon::HoconLoader, String>) {
    ::hocon::HoconLoader::new().load_str(text).map_err(|e| e.to_string())
}

/// `HoconLoader::hocon`: the document as the library's tree, or the
/// message of the error.  Nothing is stated of the document.
#[verifier::external_body]
fn hocon_document(loader: ::hocon::HoconLoader) -> (r: Result<HoconNode, String>) {
    match loader.hocon() {
        Ok(v) => Ok(hocon_tree(&v)),
        Err(e) => Err(e.to_string()),
    }
}

/// Parses HOCON text: the table at its root, an empty table when the root
/// is of another kind, or the loader's message.
pub fn parse_text(uri: Option<&String>, text: &str) -> (r: Result<Table<ConfigValue>, FormatError>)
    ensures
        match r {
            Err(e) => e is Parser,
            _ => exists|n: HoconNode|
                #![trigger hocon_model(opt_ref_view(uri), n)]
                hocon_root_result(opt_ref_view(uri), n, r),
        },
{
    match hocon_load_str(text) {
        Ok(loader) => match hocon_document(loader) {
            Ok(n) => {
                let r = parse_tree(uri, &n);
                assert(hocon_root_result(opt_ref_view(uri), n, r));
                r
            },
            Err(m) => Err(FormatError::Parser(m)),
        },
        Err(m) => Err(FormatError::Parser(m)),
    }
}

/// Parses a HOCON source.  A source with a URI is read from the file
/// there, so `file` holds what loading that file gave (its document, or
/// the loader's message) and the text is not read; a source without one
/// is read from the text.
pub fn parse(uri: Option<&String>, text: &str, file: Option<Result<HoconNode, String>>) -> (r: Result<
    Table<ConfigValue>,
    FormatError,
>)
    requires
        uri is Some <==> file is Some,
    ensures
        file matches Some(d) ==> match d {
            Ok(n) => hocon_root_result(opt_ref_view(uri), n, r),
            Err(m) => r matches Err(FormatError::Parser(e)) && e@ == m@,
        },
        file is None ==> match r {
            Err(e) => e is Parser,
            _ => exists|n: HoconNode|
                #![trigger hocon_model(opt_ref_view(uri), n)]
                hocon_root_result(opt_ref_view(uri), n, r),
        },
{
    match file {
        Some(Ok(n)) => parse_tree(uri, &n),
        Some(Err(m)) => Err(FormatError::Parser(m)),
        None => parse_text(uri, text),
    }
}

} // verus!

//! Dhall documents: the simple values that serde_dhall evaluates to, and
//! their conversion into configuration values.
use vstd::prelude::*;
use serde_dhall::{NumKind, SimpleValue};

use crate::format::{extract_root_table, root_table_result, FormatError};
use crate::text::{copy_string};
use crate::value::{
    lemma_members_table,
    array_model, insert_all, lemma_insert_all_has_key, lookup, lemma_insert_all_step, lemma_table_model_insert, lemma_value_model_array,
    lemma_value_model_table, opt_ref_view, table_model, value_model, KindModel, Table, ConfigValue,
    ValueKind, ValueModel,
};

verus! {

/// A Dhall simple value as serde_dhall produces it: doubles by their
/// decimal text, record fields in the order the map yields them.
#[derive(Debug, PartialEq)]
pub enum DhallNode {
    Bool(bool),
    Natural(u64),
    Integer(i64),
    Double(String),
    Text(String),
    List(Vec<DhallNode>),
    Record(Vec<(String, DhallNode)>),
    Optional(Option<Box<DhallNode>>),
    Union(String, Option<Box<DhallNode>>),
}


/// The value a Dhall node converts to: naturals are cast to `i64` (wrapping above `i64::MAX`); an optional or union with a payload converts as its payload, one without as nil.
pub open spec fn dhall_model(uri: Option<Seq<char>>, n: DhallNode) -> ValueModel
    decreases n, 1int,
{
    match n {
        DhallNode::Optional(Some(b)) => dhall_model(uri, *b),
        DhallNode::Union(_, Some(b)) => dhall_model(uri, *b),
        _ => ValueModel {
            origin: uri,
            kind: match n {
                DhallNode::Bool(b) => KindModel::Boolean(b),
                DhallNode::Natural(x) => KindModel::I64(x as i64),
                DhallNode::Integer(i) => KindModel::I64(i),
                DhallNode::Double(f) => KindModel::Float(f@),
                DhallNode::Text(s) => KindModel::Str(s@),
                DhallNode::List(a) => KindModel::Array(dhall_items(uri, a@)),
                DhallNode::Record(o) => KindModel::Table(
                    insert_all(Seq::empty(), dhall_members(uri, o@)),
                ),
                _ => KindModel::Nil,
            },
        },
    }
}

pub open spec fn dhall_items(uri: Option<Seq<char>>, a: Seq<DhallNode>) -> Seq<ValueModel>
    decreases a, 0int,
{
    Seq::new(
        a.len(),
        |i: int|
            if 0 <= i < a.len() {
                dhall_model(uri, a[i])
            } else {
                ValueModel { origin: None, kind: KindModel::Nil }
            },
    )
}

pub open spec fn dhall_members(uri: Option<Seq<char>>, o: Seq<(String, DhallNode)>) -> Seq<
    (Seq<char>, ValueModel),
>
    decreases o, 0int,
{
    Seq::new(
        o.len(),
        |i: int|
            if 0 <= i < o.len() {
                (o[i].0@, dhall_model(uri, o[i].1))
            } else {
                (Seq::empty(), ValueModel { origin: None, kind: KindModel::Nil })
            },
    )
}

/// A Dhall record converts to a table whose keys are exactly the record's
/// field names.
pub proof fn law_dhall_record_keys(uri: Option<Seq<char>>, fields: Vec<(String, DhallNode)>, k: Seq<char>)
    ensures
        dhall_model(uri, DhallNode::Record(fields)).kind matches KindModel::Table(t) && (lookup(t, k) is Some
            <==> exists|i: int| 0 <= i < fields@.len() && #[trigger] fields@[i].0@ == k),
{
    let ms = dhall_members(uri, fields@);
    lemma_insert_all_has_key(Seq::<(Seq<char>, ValueModel)>::empty(), ms, k);
    if exists|i: int| 0 <= i < fields@.len() && #[trigger] fields@[i].0@ == k {
        let i = choose|i: int| 0 <= i < fields@.len() && #[trigger] fields@[i].0@ == k;
        assert(ms[i].0 == k);
    }
    if exists|i: int| 0 <= i < ms.len() && #[trigger] ms[i].0 == k {
        let i = choose|i: int| 0 <= i < ms.len() && #[trigger] ms[i].0 == k;
        assert(fields@[i].0@ == k);
    }
}

/// Law: Dhall converts kind for kind, each value carrying the source's URI:
/// a boolean to the same boolean, an integer to the same integer, a
/// natural up to `i64::MAX` to the same integer, a double and a text to
/// the same text, an optional or a union with a payload as the payload and
/// one without to nil, a list element for element, and a record to a
/// table holding exactly its field names, each with the conversion of the
/// last field of that name.
pub proof fn law_dhall_conversion(uri: Option<Seq<char>>, n: DhallNode)
    ensures
        dhall_model(uri, n).origin == uri,
        n matches DhallNode::Bool(b) ==> dhall_model(uri, n).kind == KindModel::Boolean(b),
        n matches DhallNode::Integer(i) ==> dhall_model(uri, n).kind == KindModel::I64(i),
        n matches DhallNode::Natural(x) ==> (x <= i64::MAX ==> dhall_model(uri, n).kind == KindModel::I64(x as i64)),
        n matches DhallNode::Double(f) ==> dhall_model(uri, n).kind == KindModel::Float(f@),
        n matches DhallNode::Text(s) ==> dhall_model(uri, n).kind == KindModel::Str(s@),
        n matches DhallNode::Optional(Some(b)) ==> dhall_model(uri, n) == dhall_model(uri, *b),
        n matches DhallNode::Union(_, Some(b)) ==> dhall_model(uri, n) == dhall_model(uri, *b),
        n matches DhallNode::Optional(None) ==> dhall_model(uri, n).kind == KindModel::Nil,
        n matches DhallNode::Union(_, None) ==> dhall_model(uri, n).kind == KindModel::Nil,
        n matches DhallNode::List(a) ==> (dhall_model(uri, n).kind matches KindModel::Array(ms)
            && ms.len() == a@.len() && forall|i: int|
            0 <= i < a@.len() ==> ms[i] == dhall_model(uri, #[trigger] a@[i])),
        n matches DhallNode::Record(o) ==> (dhall_model(uri, n).kind matches KindModel::Table(t)
            && forall|k: Seq<char>|
            #![trigger lookup(t, k)]
            (lookup(t, k) is None <==> forall|i: int| 0 <= i < o@.len() ==> (#[trigger] o@[i]).0@ != k)
                && forall|i: int|
                0 <= i < o@.len() && (#[trigger] o@[i]).0@ == k && (forall|j: int|
                    i < j < o@.len() ==> o@[j].0@ != k) ==> lookup(t, k) == Some(
                    dhall_model(uri, o@[i].1),
                )),
    decreases n,
{
    match n {
        DhallNode::Optional(Some(b)) => {
            assert(decreases_to!(n => n->Optional_0));
            assert(decreases_to!(n->Optional_0 => *b));
            law_dhall_conversion(uri, *b);
        },
        DhallNode::Union(_, Some(b)) => {
            assert(decreases_to!(n => n->Union_1));
            assert(decreases_to!(n->Union_1 => *b));
            law_dhall_conversion(uri, *b);
        },
        DhallNode::List(a) => {
            assert(dhall_model(uri, n).kind == KindModel::Array(dhall_items(uri, a@)));
        },
        _ => {},
    }
    if let DhallNode::Record(o) = n {
        let ms = dhall_members(uri, o@);
        assert forall|k: Seq<char>| #![trigger lookup(insert_all(Seq::empty(), ms), k)]
            (lookup(insert_all(Seq::empty(), ms), k) is None <==> forall|i: int|
                0 <= i < o@.len() ==> (#[trigger] o@[i]).0@ != k) && forall|i: int|
                0 <= i < o@.len() && (#[trigger] o@[i]).0@ == k && (forall|j: int|
                    i < j < o@.len() ==> o@[j].0@ != k) ==> lookup(insert_all(Seq::empty(), ms), k)
                    == Some(dhall_model(uri, o@[i].1)) by {
            lemma_members_table(
                o@,
                |e: (String, DhallNode)| e.0@,
                |e: (String, DhallNode)| dhall_model(uri, e.1),
                ms,
                k,
            );
        }
    }
}

/// Converts a Dhall value into a configuration value from source `uri`.
pub fn from_dhall_value(uri: Option<&String>, value: &DhallNode) -> (v: ConfigValue)
    ensures
        value_model(v) == dhall_model(opt_ref_view(uri), *value),
    decreases value,
{
    let ghost u = opt_ref_view(uri);
    match value {
        DhallNode::Bool(b) => ConfigValue::new(uri, ValueKind::Boolean(*b)),
        DhallNode::Natural(x) => ConfigValue::new(uri, ValueKind::I64(*x as i64)),
        DhallNode::Integer(i) => ConfigValue::new(uri, ValueKind::I64(*i)),
        DhallNode::Double(f) => ConfigValue::new(uri, ValueKind::Float(copy_string(f.as_str()))),
        DhallNode::Text(s) => ConfigValue::new(uri, ValueKind::String(copy_string(s.as_str()))),
        DhallNode::Optional(Some(b)) => {
            proof {
                assert(decreases_to!(*value => value->Optional_0));
                assert(decreases_to!(value->Optional_0 => value->Optional_0->0));
            }
            from_dhall_value(uri, &**b)
        },
        DhallNode::Union(_, Some(b)) => {
            proof {
                assert(decreases_to!(*value => value->Union_1));
                assert(decreases_to!(value->Union_1 => value->Union_1->0));
            }
            from_dhall_value(uri, &**b)
        },
        DhallNode::Optional(None) => ConfigValue::new(uri, ValueKind::Nil),
        DhallNode::Union(_, None) => ConfigValue::new(uri, ValueKind::Nil),
        DhallNode::Record(table) => {
            let mut m: Table<ConfigValue> = Table::new();
            let mut i: usize = 0;
            while i < table.len()
                invariant
                    i <= table.len(),
                    *value == DhallNode::Record(*table),
                    u == opt_ref_view(uri),
                    table_model(m) == insert_all(Seq::empty(), dhall_members(u, table@).take(i as int)),
                decreases table.len() - i,
            {
                proof {
                    assert(decreases_to!(*value => value->Record_0));
                    assert(decreases_to!(value->Record_0 => value->Record_0@));
                    assert(decreases_to!(value->Record_0@ => table@[i as int]));
                }
                let key = copy_string(table[i].0.as_str());
                let v = from_dhall_value(uri, &table[i].1);
                let ghost m0 = m;
                let ghost vv = v;
                m.insert(key, v);
                proof {
                    lemma_table_model_insert(m0, key@, vv, m);
                    lemma_insert_all_step(Seq::empty(), dhall_members(u, table@), i as int);
                }
                i = i + 1;
            }
            proof {
                assert(dhall_members(u, table@).take(table@.len() as int) == dhall_members(u, table@));
            }
            let r = ConfigValue::new(uri, ValueKind::Table(m));
            proof {
                lemma_value_model_table(r.origin, m);
            }
            r
        },
        DhallNode::List(array) => {
            let mut l: Vec<ConfigValue> = Vec::new();
            let mut i: usize = 0;
            while i < array.len()
                invariant
                    i <= array.len(),
                    *value == DhallNode::List(*array),
                    u == opt_ref_view(uri),
                    array_model(l@) == dhall_items(u, array@).take(i as int),
                decreases array.len() - i,
            {
                proof {
                    assert(decreases_to!(*value => value->List_0));
                    assert(decreases_to!(value->List_0 => value->List_0@));
                    assert(decreases_to!(value->List_0@ => array@[i as int]));
                }
                let v = from_dhall_value(uri, &array[i]);
                let ghost l0 = l@;
                l.push(v);
                proof {
                    assert(array_model(l@) =~= array_model(l0).push(value_model(v)));
                    assert(dhall_items(u, array@).take(i + 1) =~= dhall_items(u, array@).take(
                        i as int,
                    ).push(dhall_model(u, array@[i as int])));
                }
                i = i + 1;
            }
            proof {
                assert(dhall_items(u, array@).take(array@.len() as int) == dhall_items(u, array@));
            }
            let r = ConfigValue::new(uri, ValueKind::Array(l));
            proof {
                lemma_value_model_array(r.origin, l);
            }
            r
        },
    }
}

/// Parses a document: the table at its root, or the error that reports a
/// root of another kind.
pub fn parse_tree(uri: Option<&String>, root: &DhallNode) -> (r: Result<Table<ConfigValue>, FormatError>)
    ensures
        root_table_result(r, opt_ref_view(uri), dhall_model(opt_ref_view(uri), *root).kind),
{
    let value = from_dhall_value(uri, root);
    extract_root_table(uri, value)
}

/// A Dhall number or boolean as the library's node; a double by its
/// `Display` text.
#[verifier::external_body]
fn dhall_num(n: &NumKind) -> DhallNode {
    match n {
        NumKind::Bool(b) => DhallNode::Bool(*b),
        NumKind::Natural(n) => DhallNode::Natural(*n),
        NumKind::Integer(i) => DhallNode::Integer(*i),
        NumKind::Double(d) => DhallNode::Double(d.to_string()),
    }
}

/// A Dhall value as the library's tree, node for node.
#[verifier::external_body]
fn dhall_tree(v: &SimpleValue) -> DhallNode {
    match v {
        SimpleValue::Num(n) => dhall_num(n),
        SimpleValue::Text(s) => DhallNode::Text(s.clone()),
        SimpleValue::Optional(o) => DhallNode::Optional(o.as_ref().map(|b| Box::new(dhall_tree(b)))),
        SimpleValue::List(l) => DhallNode::List(l.iter().map(dhall_tree).collect()),
        SimpleValue::Record(r) => DhallNode::Record(r.iter().map(|(k, x)| (k.clone(), dhall_tree(x))).collect()),
        SimpleValue::Union(k, o) => DhallNode::Union(k.clone(), o.as_ref().map(|b| Box::new(dhall_tree(b)))),
    }
}

/// `serde_dhall::from_str(..).parse()` into a `SimpleValue`: the value or
/// the message of the error.  Nothing is stated of the value: Dhall text
/// may import files, environment variables and URLs.
#[verifier::external_body]
fn load_dhall(text: &str) -> (r: Result<DhallNode, String>) {
    match serde_dhall::from_str(text).parse::<SimpleValue>() {
        Ok(v) => Ok(dhall_tree(&v)),
        Err(e) => Err(e.to_string()),
    }
}

/// Parses Dhall text from source `uri`: the table at the root of the value
/// it evaluates to, the root error, or the parser's message.
pub fn parse(uri: Option<&String>, text: &str) -> (r: Result<Table<ConfigValue>, FormatError>)
    ensures
        match r {
            Err(FormatError::Parser(_)) => true,
            _ => exists|n: DhallNode|
                root_table_result(r, opt_ref_view(uri), dhall_model(opt_ref_view(uri), n).kind),
        },
{
    match load_dhall(text) {
        Ok(n) => {
            let r = parse_tree(uri, &n);
            assert(root_table_result(r, opt_ref_view(uri), dhall_model(opt_ref_view(uri), n).kind));
            r
        },
        Err(m) => Err(FormatError::Parser(m)),
    }
}

} // verus!

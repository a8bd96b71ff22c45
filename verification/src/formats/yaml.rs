//! YAML documents: the tree that yaml-rust2 loads, and its conversion
//! into configuration values.
use vstd::prelude::*;

use crate::format::{extract_root_table, root_table_result, FormatError};
use crate::text::{
    chars_of, copy_string, decimal_i128, float_text_ok, is_float_text, law_signed_decimal_reads_back,
    signed_decimal, signed_text,
};
use crate::value::{
    lemma_members_table, lookup,
    array_model, insert_all, lemma_table_model_insert, lemma_value_model_array,
    lemma_value_model_table, opt_ref_view, table_model, value_model, KindModel, Table, ConfigValue,
    ValueKind, ValueModel,
};

verus! {

/// A YAML node as yaml-rust2 loads it: reals by the text they were written
/// with, hash entries in the order the map yields them.
#[derive(Debug, PartialEq)]
pub enum YamlNode {
    Real(String),
    Integer(i64),
    String(String),
    Boolean(bool),
    Array(Vec<YamlNode>),
    Hash(Vec<(YamlNode, YamlNode)>),
    Alias(usize),
    Null,
    BadValue,
}

/// Every hash key that the conversion of the node reaches is a string or
/// an integer: arrays and hashes are converted in order and stop at the
/// first error, so what follows an error is not reached.
pub open spec fn yaml_keys_ok(uri: Option<Seq<char>>, n: YamlNode) -> bool
    decreases n,
{
    match n {
        YamlNode::Array(a) => forall|i: int|
            0 <= i < a@.len() && yaml_items(uri, a@.take(i)) is Ok ==> yaml_keys_ok(
                uri,
                #[trigger] a@[i],
            ),
        YamlNode::Hash(h) => forall|i: int|
            0 <= i < h@.len() && yaml_members(uri, h@.take(i)) is Ok ==> ((h@[i].0 is String || h@[i].0 is Integer) && yaml_keys_ok(uri, #[trigger] h@[i].1)),
        _ => true,
    }
}

/// A hash key of a kind that reads as a table key: a string or an integer.
pub open spec fn yaml_key_ok(k: YamlNode) -> bool {
    match k {
        YamlNode::String(_) => true,
        YamlNode::Integer(_) => true,
        _ => false,
    }
}

/// The table key a hash key becomes: a string as itself, an integer by
/// its decimal text.
pub open spec fn yaml_key(k: YamlNode) -> Seq<char> {
    match k {
        YamlNode::String(s) => s@,
        YamlNode::Integer(i) => signed_decimal(i as int),
        _ => Seq::empty(),
    }
}

/// The value a YAML node converts to, or the text of the first real (in
/// document order) that `f64::from_str` rejects.  Aliases, nulls and bad
/// values become nil; hashes become tables built by inserting their
/// entries in order.
pub open spec fn yaml_model(uri: Option<Seq<char>>, n: YamlNode) -> Result<ValueModel, Seq<char>>
    decreases n, 1int,
{
    match n {
        YamlNode::Real(t) => if is_float_text(t@) {
            Ok(ValueModel { origin: uri, kind: KindModel::Float(t@) })
        } else {
            Err(t@)
        },
        YamlNode::Integer(i) => Ok(ValueModel { origin: uri, kind: KindModel::I64(i) }),
        YamlNode::String(s) => Ok(ValueModel { origin: uri, kind: KindModel::Str(s@) }),
        YamlNode::Boolean(b) => Ok(ValueModel { origin: uri, kind: KindModel::Boolean(b) }),
        YamlNode::Array(a) => match yaml_items(uri, a@) {
            Ok(ms) => Ok(ValueModel { origin: uri, kind: KindModel::Array(ms) }),
            Err(e) => Err(e),
        },
        YamlNode::Hash(h) => match yaml_members(uri, h@) {
            Ok(es) => Ok(
                ValueModel { origin: uri, kind: KindModel::Table(insert_all(Seq::empty(), es)) },
            ),
            Err(e) => Err(e),
        },
        _ => Ok(ValueModel { origin: uri, kind: KindModel::Nil }),
    }
}

pub open spec fn yaml_items(uri: Option<Seq<char>>, a: Seq<YamlNode>) -> Result<
    Seq<ValueModel>,
    Seq<char>,
>
    decreases a, 0int,
{
    if a.len() == 0 {
        Ok(Seq::empty())
    } else {
        match yaml_items(uri, a.subrange(0, a.len() - 1)) {
            Err(e) => Err(e),
            Ok(ms) => match yaml_model(uri, a[a.len() - 1]) {
                Err(e) => Err(e),
                Ok(m) => Ok(ms.push(m)),
            },
        }
    }
}

pub open spec fn yaml_members(uri: Option<Seq<char>>, h: Seq<(YamlNode, YamlNode)>) -> Result<
    Seq<(Seq<char>, ValueModel)>,
    Seq<char>,
>
    decreases h, 0int,
{
    if h.len() == 0 {
        Ok(Seq::empty())
    } else {
        match yaml_members(uri, h.subrange(0, h.len() - 1)) {
            Err(e) => Err(e),
            Ok(es) => match yaml_model(uri, h[h.len() - 1].1) {
                Err(e) => Err(e),
                Ok(m) => Ok(es.push((yaml_key(h[h.len() - 1].0), m))),
            },
        }
    }
}

proof fn lemma_items_err(uri: Option<Seq<char>>, a: Seq<YamlNode>, j: int)
    requires
        0 <= j <= a.len(),
        yaml_items(uri, a.take(j)) is Err,
    ensures
        yaml_items(uri, a) == yaml_items(uri, a.take(j)),
    decreases a.len() - j,
{
    if j < a.len() {
        assert(a.take(j + 1).subrange(0, j) == a.take(j));
        lemma_items_err(uri, a, j + 1);
    } else {
        assert(a.take(j) == a);
    }
}

proof fn lemma_members_err(uri: Option<Seq<char>>, h: Seq<(YamlNode, YamlNode)>, j: int)
    requires
        0 <= j <= h.len(),
        yaml_members(uri, h.take(j)) is Err,
    ensures
        yaml_members(uri, h) == yaml_members(uri, h.take(j)),
    decreases h.len() - j,
{
    if j < h.len() {
        assert(h.take(j + 1).subrange(0, j) == h.take(j));
        lemma_members_err(uri, h, j + 1);
    } else {
        assert(h.take(j) == h);
    }
}

/// What converting `n` yields, as a result: the value or the error.
pub open spec fn yaml_result(r: Result<ConfigValue, FormatError>, uri: Option<Seq<char>>, n: YamlNode) -> bool {
    match yaml_model(uri, n) {
        Ok(m) => r matches Ok(v) && value_model(v) == m,
        Err(t) => r matches Err(FormatError::FloatParsing(s)) && s@ == t,
    }
}

/// Converting the items of an array: where every item converts, the
/// conversions in order; else the error of the first item that fails.
pub proof fn lemma_yaml_items(uri: Option<Seq<char>>, a: Seq<YamlNode>)
    ensures
        (forall|i: int| 0 <= i < a.len() ==> (#[trigger] yaml_model(uri, a[i])) is Ok) ==> (yaml_items(
            uri,
            a,
        ) matches Ok(ms) && ms.len() == a.len() && forall|i: int|
            0 <= i < a.len() ==> Ok::<ValueModel, Seq<char>>(#[trigger] ms[i]) == yaml_model(uri, a[i])),
        forall|i: int|
            0 <= i < a.len() && (#[trigger] yaml_model(uri, a[i])) is Err && (forall|j: int|
                0 <= j < i ==> yaml_model(uri, a[j]) is Ok) ==> yaml_items(uri, a) == Err::<Seq<ValueModel>, Seq<char>>(yaml_model(uri, a[i])->Err_0),
    decreases a.len(),
{
    if a.len() > 0 {
        let p = a.subrange(0, a.len() - 1);
        lemma_yaml_items(uri, p);
        assert forall|i: int| 0 <= i < p.len() implies p[i] == a[i] by {}
        if forall|i: int| 0 <= i < a.len() ==> (#[trigger] yaml_model(uri, a[i])) is Ok {
            assert forall|i: int| 0 <= i < p.len() implies (#[trigger] yaml_model(uri, p[i])) is Ok by {
                assert(p[i] == a[i]);
            }
            assert(yaml_model(uri, a[a.len() - 1]) is Ok);
            let ms = yaml_items(uri, a)->Ok_0;
            assert forall|i: int| 0 <= i < a.len() implies Ok::<ValueModel, Seq<char>>(#[trigger] ms[i])
                == yaml_model(uri, a[i]) by {
                if i < a.len() - 1 {
                    assert(p[i] == a[i]);
                }
            }
        }
        assert forall|i: int|
            0 <= i < a.len() && (#[trigger] yaml_model(uri, a[i])) is Err && (forall|j: int|
                0 <= j < i ==> yaml_model(uri, a[j]) is Ok) implies yaml_items(uri, a) == Err::<Seq<ValueModel>, Seq<char>>(yaml_model(uri, a[i])->Err_0) by {
            if i < a.len() - 1 {
                assert(p[i] == a[i]);
                assert forall|j: int| 0 <= j < i implies yaml_model(uri, p[j]) is Ok by {
                    assert(p[j] == a[j]);
                }
            } else {
                assert forall|j: int| 0 <= j < p.len() implies (#[trigger] yaml_model(uri, p[j])) is Ok by {
                    assert(p[j] == a[j]);
                }
            }
        }
    }
}

/// Converting the entries of a hash: where every value converts, one
/// entry per hash entry, in order, under its key's text; else the error of
/// the first value that fails.
pub proof fn lemma_yaml_members(uri: Option<Seq<char>>, h: Seq<(YamlNode, YamlNode)>)
    ensures
        (forall|i: int| 0 <= i < h.len() ==> (#[trigger] yaml_model(uri, h[i].1)) is Ok) ==> (yaml_members(
            uri,
            h,
        ) matches Ok(es) && es.len() == h.len() && forall|i: int|
            0 <= i < h.len() ==> #[trigger] es[i] == (yaml_key(h[i].0), yaml_model(uri, h[i].1)->Ok_0)),
        forall|i: int|
            0 <= i < h.len() && (#[trigger] yaml_model(uri, h[i].1)) is Err && (forall|j: int|
                0 <= j < i ==> yaml_model(uri, h[j].1) is Ok) ==> yaml_members(uri, h) == Err::<
                Seq<(Seq<char>, ValueModel)>,
                Seq<char>,
            >(yaml_model(uri, h[i].1)->Err_0),
    decreases h.len(),
{
    if h.len() > 0 {
        let p = h.subrange(0, h.len() - 1);
        lemma_yaml_members(uri, p);
        if forall|i: int| 0 <= i < h.len() ==> (#[trigger] yaml_model(uri, h[i].1)) is Ok {
            assert forall|i: int| 0 <= i < p.len() implies (#[trigger] yaml_model(uri, p[i].1)) is Ok by {
                assert(p[i] == h[i]);
            }
            assert(yaml_model(uri, h[h.len() - 1].1) is Ok);
            let es = yaml_members(uri, h)->Ok_0;
            assert forall|i: int| 0 <= i < h.len() implies #[trigger] es[i] == (
                yaml_key(h[i].0),
                yaml_model(uri, h[i].1)->Ok_0,
            ) by {
                if i < h.len() - 1 {
                    assert(p[i] == h[i]);
                }
            }
        }
        assert forall|i: int|
            0 <= i < h.len() && (#[trigger] yaml_model(uri, h[i].1)) is Err && (forall|j: int|
                0 <= j < i ==> yaml_model(uri, h[j].1) is Ok) implies yaml_members(uri, h) == Err::<
            Seq<(Seq<char>, ValueModel)>,
            Seq<char>,
        >(yaml_model(uri, h[i].1)->Err_0) by {
            if i < h.len() - 1 {
                assert(p[i] == h[i]);
                assert forall|j: int| 0 <= j < i implies yaml_model(uri, p[j].1) is Ok by {
                    assert(p[j] == h[j]);
                }
            } else {
                assert forall|j: int| 0 <= j < p.len() implies (#[trigger] yaml_model(uri, p[j].1)) is Ok by {
                    assert(p[j] == h[j]);
                }
            }
        }
    }
}

/// Law: a string key is stored under its own text, and an integer key
/// under a decimal text that reads back as the integer.
pub proof fn law_yaml_key(k: YamlNode)
    ensures
        k matches YamlNode::String(s) ==> yaml_key(k) == s@,
        k matches YamlNode::Integer(i) ==> signed_text(yaml_key(k)) == Some(i as int),
{
    if let YamlNode::Integer(i) = k {
        law_signed_decimal_reads_back(i as int);
    }
}

/// Law: YAML converts kind for kind, each value carrying the source's URI:
/// a boolean to the same boolean, an integer to the same integer, a string
/// to the same string, a real to a float of the same text where
/// `f64::from_str` reads it and to that text as the error where it does
/// not, null to nil; an array element for element and a hash to a table
/// holding exactly the texts of its keys, each with the conversion of the
/// last value under it, where every item converts, and otherwise the error
/// of the first item that fails.
pub proof fn law_yaml_conversion(uri: Option<Seq<char>>, n: YamlNode)
    ensures
        yaml_model(uri, n) matches Ok(m) ==> m.origin == uri,
        n matches YamlNode::Boolean(b) ==> yaml_model(uri, n) == Ok::<ValueModel, Seq<char>>(
            ValueModel { origin: uri, kind: KindModel::Boolean(b) },
        ),
        n matches YamlNode::Integer(i) ==> yaml_model(uri, n) == Ok::<ValueModel, Seq<char>>(
            ValueModel { origin: uri, kind: KindModel::I64(i) },
        ),
        n matches YamlNode::String(t) ==> yaml_model(uri, n) == Ok::<ValueModel, Seq<char>>(
            ValueModel { origin: uri, kind: KindModel::Str(t@) },
        ),
        n matches YamlNode::Real(t) ==> yaml_model(uri, n) == if is_float_text(t@) {
            Ok::<ValueModel, Seq<char>>(ValueModel { origin: uri, kind: KindModel::Float(t@) })
        } else {
            Err(t@)
        },
        n is Null ==> yaml_model(uri, n) == Ok::<ValueModel, Seq<char>>(
            ValueModel { origin: uri, kind: KindModel::Nil },
        ),
        n matches YamlNode::Array(a) ==> ((forall|i: int|
            0 <= i < a@.len() ==> (#[trigger] yaml_model(uri, a@[i])) is Ok) ==> (yaml_model(uri, n) matches Ok(
            m,
        ) && m.kind matches KindModel::Array(ms) && ms.len() == a@.len() && forall|i: int|
            0 <= i < a@.len() ==> Ok::<ValueModel, Seq<char>>(#[trigger] ms[i]) == yaml_model(uri, a@[i]))),
        n matches YamlNode::Array(a) ==> forall|i: int|
            0 <= i < a@.len() && (#[trigger] yaml_model(uri, a@[i])) is Err && (forall|j: int|
                0 <= j < i ==> yaml_model(uri, a@[j]) is Ok) ==> yaml_model(uri, n) == yaml_model(uri, a@[i]),
        n matches YamlNode::Hash(h) ==> ((forall|i: int|
            0 <= i < h@.len() ==> (#[trigger] yaml_model(uri, h@[i].1)) is Ok) ==> (yaml_model(uri, n) matches Ok(
            m,
        ) && m.kind matches KindModel::Table(t) && forall|k: Seq<char>|
            #![trigger lookup(t, k)]
            (lookup(t, k) is None <==> forall|i: int| 0 <= i < h@.len() ==> yaml_key((#[trigger] h@[i]).0) != k)
                && forall|i: int|
                0 <= i < h@.len() && yaml_key((#[trigger] h@[i]).0) == k && (forall|j: int|
                    i < j < h@.len() ==> yaml_key(h@[j].0) != k) ==> lookup(t, k) == Some(
                    yaml_model(uri, h@[i].1)->Ok_0,
                ))),
        n matches YamlNode::Hash(h) ==> forall|i: int|
            0 <= i < h@.len() && (#[trigger] yaml_model(uri, h@[i].1)) is Err && (forall|j: int|
                0 <= j < i ==> yaml_model(uri, h@[j].1) is Ok) ==> yaml_model(uri, n) == yaml_model(uri, h@[i].1),
{
    match n {
        YamlNode::Array(a) => {
            lemma_yaml_items(uri, a@);
        },
        YamlNode::Hash(h) => {
            lemma_yaml_members(uri, h@);
            if forall|i: int| 0 <= i < h@.len() ==> (#[trigger] yaml_model(uri, h@[i].1)) is Ok {
                let es = yaml_members(uri, h@)->Ok_0;
                assert forall|k: Seq<char>| #![trigger lookup(insert_all(Seq::empty(), es), k)]
                    (lookup(insert_all(Seq::empty(), es), k) is None <==> forall|i: int|
                        0 <= i < h@.len() ==> yaml_key((#[trigger] h@[i]).0) != k) && forall|i: int|
                        0 <= i < h@.len() && yaml_key((#[trigger] h@[i]).0) == k && (forall|j: int|
                            i < j < h@.len() ==> yaml_key(h@[j].0) != k) ==> lookup(
                            insert_all(Seq::empty(), es),
                            k,
                        ) == Some(yaml_model(uri, h@[i].1)->Ok_0) by {
                    lemma_members_table(
                        h@,
                        |e: (YamlNode, YamlNode)| yaml_key(e.0),
                        |e: (YamlNode, YamlNode)| yaml_model(uri, e.1)->Ok_0,
                        es,
                        k,
                    );
                }
            }
        },
        _ => {},
    }
}

/// Converts a YAML node into a configuration value from source `uri`; a
/// real that does not read as a float is an error.
#[verifier::rlimit(100)]
pub fn from_yaml_value(uri: Option<&String>, value: &YamlNode) -> (r: Result<ConfigValue, FormatError>)
    requires
        yaml_keys_ok(opt_ref_view(uri), *value),
    ensures
        yaml_result(r, opt_ref_view(uri), *value),
    decreases value,
{
    let ghost u = opt_ref_view(uri);
    match value {
        YamlNode::String(s) => Ok(ConfigValue::new(uri, ValueKind::String(copy_string(s.as_str())))),
        YamlNode::Real(t) => {
            let cs = chars_of(t.as_str());
            if float_text_ok(cs.as_slice()) {
                Ok(ConfigValue::new(uri, ValueKind::Float(copy_string(t.as_str()))))
            } else {
                Err(FormatError::FloatParsing(copy_string(t.as_str())))
            }
        },
        YamlNode::Integer(i) => Ok(ConfigValue::new(uri, ValueKind::I64(*i))),
        YamlNode::Boolean(b) => Ok(ConfigValue::new(uri, ValueKind::Boolean(*b))),
        YamlNode::Hash(table) => {
            let mut m: Table<ConfigValue> = Table::new();
            let mut i: usize = 0;
            proof {
                assert(table@.take(0) =~= Seq::<(YamlNode, YamlNode)>::empty());
            }
            while i < table.len()
                invariant
                    i <= table.len(),
                    *value == YamlNode::Hash(*table),
                    yaml_keys_ok(u, *value),
                    u == opt_ref_view(uri),
                    yaml_members(u, table@.take(i as int)) matches Ok(es) && table_model(m)
                        == insert_all(Seq::empty(), es),
                decreases table.len() - i,
            {
                proof {
                    assert(decreases_to!(*value => value->Hash_0));
                    assert(decreases_to!(value->Hash_0 => value->Hash_0@));
                    assert(decreases_to!(value->Hash_0@ => table@[i as int]));
                    assert(yaml_keys_ok(u, table@[i as int].1));
                    assert(table@[i as int].0 is String || table@[i as int].0 is Integer);
                    assert(table@.take(i + 1).subrange(0, i as int) == table@.take(i as int));
                    assert(table@.take(i + 1)[i as int] == table@[i as int]);
                }
                let ghost es = yaml_members(u, table@.take(i as int))->Ok_0;
                let key = match &table[i].0 {
                    YamlNode::String(k) => copy_string(k.as_str()),
                    YamlNode::Integer(k) => decimal_i128(*k as i128),
                    _ => {
                        proof {
                            assert(false);
                        }
                        String::new()
                    },
                };
                let v = match from_yaml_value(uri, &table[i].1) {
                    Ok(v) => v,
                    Err(e) => {
                        proof {
                            lemma_members_err(u, table@, i + 1);
                        }
                        return Err(e);
                    },
                };
                let ghost m0 = m;
                let ghost vv = v;
                m.insert(key, v);
                proof {
                    lemma_table_model_insert(m0, key@, vv, m);
                    let t = table@.take(i + 1);
                    assert(yaml_key(t[t.len() - 1].0) == key@);
                    assert(es.push((key@, value_model(vv))).drop_last() == es);
                }
                i = i + 1;
            }
            proof {
                assert(table@.take(table@.len() as int) == table@);
            }
            let r = ConfigValue::new(uri, ValueKind::Table(m));
            proof {
                lemma_value_model_table(r.origin, m);
            }
            Ok(r)
        },
        YamlNode::Array(array) => {
            let mut l: Vec<ConfigValue> = Vec::new();
            let mut i: usize = 0;
            proof {
                assert(array@.take(0) =~= Seq::<YamlNode>::empty());
                assert(array_model(l@) =~= Seq::<ValueModel>::empty());
            }
            while i < array.len()
                invariant
                    i <= array.len(),
                    *value == YamlNode::Array(*array),
                    yaml_keys_ok(u, *value),
                    u == opt_ref_view(uri),
                    yaml_items(u, array@.take(i as int)) == Ok::<Seq<ValueModel>, Seq<char>>(
                        array_model(l@),
                    ),
                decreases array.len() - i,
            {
                proof {
                    assert(decreases_to!(*value => value->Array_0));
                    assert(decreases_to!(value->Array_0 => value->Array_0@));
                    assert(decreases_to!(value->Array_0@ => array@[i as int]));
                    assert(yaml_keys_ok(u, array@[i as int]));
                    assert(array@.take(i + 1).subrange(0, i as int) == array@.take(i as int));
                    assert(array@.take(i + 1)[i as int] == array@[i as int]);
                }
                let v = match from_yaml_value(uri, &array[i]) {
                    Ok(v) => v,
                    Err(e) => {
                        proof {
                            lemma_items_err(u, array@, i + 1);
                        }
                        return Err(e);
                    },
                };
                let ghost l0 = l@;
                l.push(v);
                proof {
                    assert(array_model(l@) =~= array_model(l0).push(value_model(v)));
                }
                i = i + 1;
            }
            proof {
                assert(array@.take(array@.len() as int) == array@);
            }
            let r = ConfigValue::new(uri, ValueKind::Array(l));
            proof {
                lemma_value_model_array(r.origin, l);
            }
            Ok(r)
        },
        _ => Ok(ConfigValue::new(uri, ValueKind::Nil)),
    }
}

/// What parsing the documents of a YAML text yields: no document reads as
/// an empty table, one document as its root table (or the root error),
/// more than one is an error.
pub open spec fn yaml_parse_result(
    r: Result<Table<ConfigValue>, FormatError>,
    uri: Option<Seq<char>>,
    docs: Seq<YamlNode>,
) -> bool {
    if docs.len() == 0 {
        r matches Ok(t) && t@.len() == 0
    } else if docs.len() == 1 {
        match yaml_model(uri, docs[0]) {
            Ok(m) => root_table_result(r, uri, m.kind),
            Err(t) => r matches Err(FormatError::FloatParsing(s)) && s@ == t,
        }
    } else {
        r matches Err(FormatError::MultipleDocuments(n)) && n == docs.len()
    }
}

/// Parses the documents of a YAML text.
pub fn parse_tree(uri: Option<&String>, docs: &Vec<YamlNode>) -> (r: Result<Table<ConfigValue>, FormatError>)
    requires
        docs@.len() == 1 ==> yaml_keys_ok(opt_ref_view(uri), docs@[0]),
    ensures
        yaml_parse_result(r, opt_ref_view(uri), docs@),
{
    if docs.len() == 0 {
        return Ok(Table::new());
    }
    if docs.len() > 1 {
        return Err(FormatError::MultipleDocuments(docs.len()));
    }
    match from_yaml_value(uri, &docs[0]) {
        Ok(value) => extract_root_table(uri, value),
        Err(e) => Err(e),
    }
}

/// Every hash key anywhere in the node is a string or an integer.
pub open spec fn yaml_all_keys_ok(n: YamlNode) -> bool
    decreases n,
{
    match n {
        YamlNode::Array(a) => forall|i: int|
            0 <= i < a@.len() ==> yaml_all_keys_ok(#[trigger] a@[i]),
        YamlNode::Hash(h) => (forall|i: int|
            0 <= i < h@.len() ==> yaml_key_ok(#[trigger] h@[i].0)) && (forall|i: int|
            0 <= i < h@.len() ==> yaml_all_keys_ok(#[trigger] h@[i].1)),
        _ => true,
    }
}

proof fn lemma_all_keys_ok(uri: Option<Seq<char>>, n: YamlNode)
    requires
        yaml_all_keys_ok(n),
    ensures
        yaml_keys_ok(uri, n),
    decreases n,
{
    match n {
        YamlNode::Array(a) => {
            assert forall|i: int|
                0 <= i < a@.len() && yaml_items(uri, a@.take(i)) is Ok implies yaml_keys_ok(
                uri,
                #[trigger] a@[i],
            ) by {
                assert(decreases_to!(n => a));
                assert(decreases_to!(a => a@));
                assert(decreases_to!(a@ => a@[i]));
                lemma_all_keys_ok(uri, a@[i]);
            }
            assert(yaml_keys_ok(uri, n));
        },
        YamlNode::Hash(h) => {
            assert forall|i: int|
                0 <= i < h@.len() && yaml_members(uri, h@.take(i)) is Ok implies ((h@[i].0 is String || h@[i].0 is Integer) && yaml_keys_ok(uri, #[trigger] h@[i].1)) by {
                assert(decreases_to!(n => h));
                assert(decreases_to!(h => h@));
                assert(decreases_to!(h@ => h@[i]));
                assert(0 <= i < h@.len());
                assert(yaml_key_ok(h@[i].0));
                assert(yaml_all_keys_ok(h@[i].1));
                lemma_all_keys_ok(uri, h@[i].1);
            }
            assert(yaml_keys_ok(uri, YamlNode::Hash(h)));
        },
        _ => {},
    }
}

/// Whether every hash key anywhere in the node is a string or an integer.
pub fn yaml_all_keys_check(n: &YamlNode) -> (b: bool)
    ensures
        b == yaml_all_keys_ok(*n),
    decreases n,
{
    match n {
        YamlNode::Array(a) => {
            let mut i: usize = 0;
            while i < a.len()
                invariant
                    i <= a.len(),
                    *n == YamlNode::Array(*a),
                    forall|j: int| 0 <= j < i ==> yaml_all_keys_ok(#[trigger] a@[j]),
                decreases a.len() - i,
            {
                proof {
                    assert(decreases_to!(*n => n->Array_0));
                    assert(decreases_to!(n->Array_0 => n->Array_0@));
                    assert(decreases_to!(n->Array_0@ => a@[i as int]));
                }
                if !yaml_all_keys_check(&a[i]) {
                    assert(!yaml_all_keys_ok(a@[i as int]));
                    assert(!yaml_all_keys_ok(YamlNode::Array(*a)));
                    assert(*n == YamlNode::Array(*a));
                    return false;
                }
                i = i + 1;
            }
            assert(forall|j: int| 0 <= j < a@.len() ==> yaml_all_keys_ok(#[trigger] a@[j]));
            assert(yaml_all_keys_ok(YamlNode::Array(*a)));
            true
        },
        YamlNode::Hash(h) => {
            let mut i: usize = 0;
            while i < h.len()
                invariant
                    i <= h.len(),
                    *n == YamlNode::Hash(*h),
                    forall|j: int| 0 <= j < i ==> yaml_key_ok(#[trigger] h@[j].0),
                    forall|j: int| 0 <= j < i ==> yaml_all_keys_ok(#[trigger] h@[j].1),
                decreases h.len() - i,
            {
                proof {
                    assert(decreases_to!(*n => n->Hash_0));
                    assert(decreases_to!(n->Hash_0 => n->Hash_0@));
                    assert(decreases_to!(n->Hash_0@ => h@[i as int]));
                }
                let key_ok = match &h[i].0 {
                    YamlNode::String(_) => true,
                    YamlNode::Integer(_) => true,
                    _ => false,
                };
                if !key_ok {
                    assert(!yaml_key_ok(h@[i as int].0));
                    assert(!yaml_all_keys_ok(YamlNode::Hash(*h)));
                    return false;
                }
                assert(yaml_key_ok(h@[i as int].0));
                if !yaml_all_keys_check(&h[i].1) {
                    assert(!yaml_all_keys_ok(h@[i as int].1));
                    assert(!yaml_all_keys_ok(YamlNode::Hash(*h)));
                    return false;
                }
                i = i + 1;
            }
            assert(yaml_all_keys_ok(YamlNode::Hash(*h)));
            true
        },
        _ => true,
    }
}

/// What yaml-rust2 loads from a text: its documents, or the message of the
/// error it reports.
pub uninterp spec fn yaml_loaded(text: Seq<char>) -> Result<Seq<YamlNode>, Seq<char>>;

/// A yaml-rust2 node as the library's tree, node for node.
#[verifier::external_body]
fn yaml_tree(v: &yaml_rust2::Yaml) -> YamlNode {
    match v {
        yaml_rust2::Yaml::Real(r) => YamlNode::Real(r.clone()),
        yaml_rust2::Yaml::Integer(i) => YamlNode::Integer(*i),
        yaml_rust2::Yaml::String(s) => YamlNode::String(s.clone()),
        yaml_rust2::Yaml::Boolean(b) => YamlNode::Boolean(*b),
        yaml_rust2::Yaml::Array(a) => YamlNode::Array(a.iter().map(yaml_tree).collect()),
        yaml_rust2::Yaml::Hash(h) => YamlNode::Hash(h.iter().map(|(k, x)| (yaml_tree(k), yaml_tree(x))).collect()),
        yaml_rust2::Yaml::Alias(n) => YamlNode::Alias(*n),
        yaml_rust2::Yaml::Null => YamlNode::Null,
        yaml_rust2::Yaml::BadValue => YamlNode::BadValue,
    }
}

/// `YamlLoader::load_from_str`: the result is named `yaml_loaded` of the
/// text.
#[verifier::external_body]
pub(crate) fn load_yaml(text: &str) -> (r: Result<Vec<YamlNode>, String>)
    ensures
        match yaml_loaded(text@) {
            Ok(d) => r matches Ok(v) && v@ == d,
            Err(m) => r matches Err(e) && e@ == m,
        },
{
    match yaml_rust2::YamlLoader::load_from_str(text) {
        Ok(d) => Ok(d.iter().map(yaml_tree).collect()),
        Err(e) => Err(e.to_string()),
    }
}

/// The text reads without reaching a hash key of another kind than a
/// string or an integer (where the reader stops).
pub open spec fn yaml_text_ok(uri: Option<Seq<char>>, text: Seq<char>) -> bool {
    match yaml_loaded(text) {
        Ok(d) => d.len() == 1 ==> yaml_keys_ok(uri, d[0]),
        Err(_) => true,
    }
}

/// Parses YAML text from source `uri`: no document reads as an empty
/// table, one as its root table (or the root or float error), more than
/// one is an error; a text that does not load gives the parser's message.
pub fn parse(uri: Option<&String>, text: &str) -> (r: Result<Table<ConfigValue>, FormatError>)
    requires
        yaml_text_ok(opt_ref_view(uri), text@),
    ensures
        match yaml_loaded(text@) {
            Ok(d) => yaml_parse_result(r, opt_ref_view(uri), d),
            Err(m) => r matches Err(FormatError::Parser(e)) && e@ == m,
        },
{
    match load_yaml(text) {
        Ok(docs) => parse_tree(uri, &docs),
        Err(m) => Err(FormatError::Parser(m)),
    }
}

/// Parses YAML text as `parse` does where its only document has no hash
/// key anywhere of another kind than a string or an integer; `None` where
/// it has one.
pub fn parse_checked(uri: Option<&String>, text: &str) -> (r: Option<Result<Table<ConfigValue>, FormatError>>)
    ensures
        r is None <==> (yaml_loaded(text@) matches Ok(d) && d.len() == 1 && !yaml_all_keys_ok(d[0])),
        r matches Some(x) ==> match yaml_loaded(text@) {
            Ok(d) => yaml_parse_result(x, opt_ref_view(uri), d),
            Err(m) => x matches Err(FormatError::Parser(e)) && e@ == m,
        },
{
    match load_yaml(text) {
        Ok(docs) => {
            if docs.len() == 1 {
                if !yaml_all_keys_check(&docs[0]) {
                    return None;
                }
                proof {
                    lemma_all_keys_ok(opt_ref_view(uri), docs@[0]);
                }
            }
        },
        Err(_) => {},
    }
    Some(parse(uri, text))
}

} // verus!

//! RON documents: the tree that the ron crate reads, and its conversion
//! into configuration values.
use vstd::prelude::*;
use ron::{Number, Value};

use crate::format::{extract_root_table, root_table_result, FormatError};
use crate::text::{copy_string, string_of};
use crate::value::{
    lemma_members_table, lookup,
    array_model, insert_all, lemma_table_model_insert, lemma_value_model_array,
    lemma_value_model_table, opt_ref_view, table_model, value_model, KindModel, Table, ConfigValue,
    ValueKind, ValueModel,
};

verus! {

/// A RON number; floats by their decimal text (a 32-bit float widened to
/// 64 bits).
#[derive(Debug, Clone, PartialEq)]
pub enum RonNumber {
    I8(i8),
    I16(i16),
    I32(i32),
    I64(i64),
    U8(u8),
    U16(u16),
    U32(u32),
    U64(u64),
    F32(String),
    F64(String),
}

/// A RON value as the ron crate reads it.  A map key is given as what
/// ron's `into_rust::<String>` makes of it: the string, or the message of
/// the error it reports.  Map entries are in the order the map yields them.
#[derive(Debug, PartialEq)]
pub enum RonNode {
    Bool(bool),
    Char(char),
    Table(Vec<(Result<String, String>, RonNode)>),
    Number(RonNumber),
    Option(Option<Box<RonNode>>),
    String(String),
    Bytes(Vec<u8>),
    List(Vec<RonNode>),
    Unit,
}

/// The conversion of the node reaches no byte string (whose conversion is
/// left unimplemented): lists and maps are converted in order and stop at
/// the first error, so what follows an error is not reached.
pub open spec fn ron_no_bytes(uri: Option<Seq<char>>, n: RonNode) -> bool
    decreases n,
{
    match n {
        RonNode::Bytes(_) => false,
        RonNode::Option(Some(b)) => ron_no_bytes(uri, *b),
        RonNode::List(a) => forall|i: int|
            0 <= i < a@.len() && ron_items(uri, a@.take(i)) is Ok ==> ron_no_bytes(
                uri,
                #[trigger] a@[i],
            ),
        RonNode::Table(h) => forall|i: int|
            0 <= i < h@.len() && ron_members(uri, h@.take(i)) is Ok && h@[i].0 is Ok
                ==> ron_no_bytes(uri, #[trigger] h@[i].1),
        _ => true,
    }
}

pub open spec fn ron_number_kind(x: RonNumber) -> KindModel {
    match x {
        RonNumber::F32(f) => KindModel::Float(f@),
        RonNumber::F64(f) => KindModel::Float(f@),
        RonNumber::I8(v) => KindModel::I64(v as i64),
        RonNumber::I16(v) => KindModel::I64(v as i64),
        RonNumber::I32(v) => KindModel::I64(v as i64),
        RonNumber::I64(v) => KindModel::I64(v),
        RonNumber::U8(v) => KindModel::U64(v as u64),
        RonNumber::U16(v) => KindModel::U64(v as u64),
        RonNumber::U32(v) => KindModel::U64(v as u64),
        RonNumber::U64(v) => KindModel::U64(v),
    }
}

/// The value a RON node converts to, or the message of the first map key
/// (in document order) that does not convert to a string.  An option
/// converts as its content (nil when empty), unit as nil, a character as a
/// one-character string, small integers widen to `i64` or `u64`, and maps
/// become tables built by inserting their entries in order.
pub open spec fn ron_model(uri: Option<Seq<char>>, n: RonNode) -> Result<ValueModel, Seq<char>>
    decreases n, 1int,
{
    match n {
        RonNode::Option(Some(b)) => match ron_model(uri, *b) {
            Ok(m) => Ok(ValueModel { origin: uri, kind: m.kind }),
            Err(e) => Err(e),
        },
        RonNode::Option(None) => Ok(ValueModel { origin: uri, kind: KindModel::Nil }),
        RonNode::Unit => Ok(ValueModel { origin: uri, kind: KindModel::Nil }),
        RonNode::Bool(b) => Ok(ValueModel { origin: uri, kind: KindModel::Boolean(b) }),
        RonNode::Number(x) => Ok(ValueModel { origin: uri, kind: ron_number_kind(x) }),
        RonNode::Char(c) => Ok(ValueModel { origin: uri, kind: KindModel::Str(seq![c]) }),
        RonNode::String(s) => Ok(ValueModel { origin: uri, kind: KindModel::Str(s@) }),
        RonNode::List(a) => match ron_items(uri, a@) {
            Ok(ms) => Ok(ValueModel { origin: uri, kind: KindModel::Array(ms) }),
            Err(e) => Err(e),
        },
        RonNode::Table(h) => match ron_members(uri, h@) {
            Ok(es) => Ok(
                ValueModel { origin: uri, kind: KindModel::Table(insert_all(Seq::empty(), es)) },
            ),
            Err(e) => Err(e),
        },
        RonNode::Bytes(_) => Ok(ValueModel { origin: uri, kind: KindModel::Nil }),
    }
}

pub open spec fn ron_items(uri: Option<Seq<char>>, a: Seq<RonNode>) -> Result<
    Seq<ValueModel>,
    Seq<char>,
>
    decreases a, 0int,
{
    if a.len() == 0 {
        Ok(Seq::empty())
    } else {
        match ron_items(uri, a.subrange(0, a.len() - 1)) {
            Err(e) => Err(e),
            Ok(ms) => match ron_model(uri, a[a.len() - 1]) {
                Err(e) => Err(e),
                Ok(m) => Ok(ms.push(m)),
            },
        }
    }
}

pub open spec fn ron_members(uri: Option<Seq<char>>, h: Seq<(Result<String, String>, RonNode)>) -> Result<
    Seq<(Seq<char>, ValueModel)>,
    Seq<char>,
>
    decreases h, 0int,
{
    if h.len() == 0 {
        Ok(Seq::empty())
    } else {
        match ron_members(uri, h.subrange(0, h.len() - 1)) {
            Err(e) => Err(e),
            Ok(es) => match h[h.len() - 1].0 {
                Err(k) => Err(k@),
                Ok(k) => match ron_model(uri, h[h.len() - 1].1) {
                    Err(e) => Err(e),
                    Ok(m) => Ok(es.push((k@, m))),
                },
            },
        }
    }
}

proof fn lemma_items_err(uri: Option<Seq<char>>, a: Seq<RonNode>, j: int)
    requires
        0 <= j <= a.len(),
        ron_items(uri, a.take(j)) is Err,
    ensures
        ron_items(uri, a) == ron_items(uri, a.take(j)),
    decreases a.len() - j,
{
    if j < a.len() {
        assert(a.take(j + 1).subrange(0, j) == a.take(j));
        lemma_items_err(uri, a, j + 1);
    } else {
        assert(a.take(j) == a);
    }
}

proof fn lemma_members_err(uri: Option<Seq<char>>, h: Seq<(Result<String, String>, RonNode)>, j: int)
    requires
        0 <= j <= h.len(),
        ron_members(uri, h.take(j)) is Err,
    ensures
        ron_members(uri, h) == ron_members(uri, h.take(j)),
    decreases h.len() - j,
{
    if j < h.len() {
        assert(h.take(j + 1).subrange(0, j) == h.take(j));
        lemma_members_err(uri, h, j + 1);
    } else {
        assert(h.take(j) == h);
    }
}

/// What converting `n` yields, as a result: the value or the error.
pub open spec fn ron_result(r: Result<ConfigValue, FormatError>, uri: Option<Seq<char>>, n: RonNode) -> bool {
    match ron_model(uri, n) {
        Ok(m) => r matches Ok(v) && value_model(v) == m,
        Err(t) => r matches Err(FormatError::Parser(s)) && s@ == t,
    }
}

/// Converting the items of a list: where every item converts, the
/// conversions in order; else the error of the first item that fails.
pub proof fn lemma_ron_items(uri: Option<Seq<char>>, a: Seq<RonNode>)
    ensures
        (forall|i: int| 0 <= i < a.len() ==> (#[trigger] ron_model(uri, a[i])) is Ok) ==> (ron_items(
            uri,
            a,
        ) matches Ok(ms) && ms.len() == a.len() && forall|i: int|
            0 <= i < a.len() ==> Ok::<ValueModel, Seq<char>>(#[trigger] ms[i]) == ron_model(uri, a[i])),
        forall|i: int|
            0 <= i < a.len() && (#[trigger] ron_model(uri, a[i])) is Err && (forall|j: int|
                0 <= j < i ==> ron_model(uri, a[j]) is Ok) ==> ron_items(uri, a) == Err::<
                Seq<ValueModel>,
                Seq<char>,
            >(ron_model(uri, a[i])->Err_0),
    decreases a.len(),
{
    if a.len() > 0 {
        let p = a.subrange(0, a.len() - 1);
        lemma_ron_items(uri, p);
        if forall|i: int| 0 <= i < a.len() ==> (#[trigger] ron_model(uri, a[i])) is Ok {
            assert forall|i: int| 0 <= i < p.len() implies (#[trigger] ron_model(uri, p[i])) is Ok by {
                assert(p[i] == a[i]);
            }
            assert(ron_model(uri, a[a.len() - 1]) is Ok);
            let ms = ron_items(uri, a)->Ok_0;
            assert forall|i: int| 0 <= i < a.len() implies Ok::<ValueModel, Seq<char>>(#[trigger] ms[i])
                == ron_model(uri, a[i]) by {
                if i < a.len() - 1 {
                    assert(p[i] == a[i]);
                }
            }
        }
        assert forall|i: int|
            0 <= i < a.len() && (#[trigger] ron_model(uri, a[i])) is Err && (forall|j: int|
                0 <= j < i ==> ron_model(uri, a[j]) is Ok) implies ron_items(uri, a) == Err::<
            Seq<ValueModel>,
            Seq<char>,
        >(ron_model(uri, a[i])->Err_0) by {
            if i < a.len() - 1 {
                assert(p[i] == a[i]);
                assert forall|j: int| 0 <= j < i implies ron_model(uri, p[j]) is Ok by {
                    assert(p[j] == a[j]);
                }
            } else {
                assert forall|j: int| 0 <= j < p.len() implies (#[trigger] ron_model(uri, p[j])) is Ok by {
                    assert(p[j] == a[j]);
                }
            }
        }
    }
}

/// An entry of a map converts: its key converted to a string and its value
/// converts.
pub open spec fn ron_member_ok(uri: Option<Seq<char>>, e: (Result<String, String>, RonNode)) -> bool {
    e.0 is Ok && ron_model(uri, e.1) is Ok
}

/// Converting the entries of a map: where every entry converts, one entry
/// per map entry, in order, under its key; else, at the first entry that
/// fails, the key's error or, where the key converted, the value's error.
pub proof fn lemma_ron_members(uri: Option<Seq<char>>, h: Seq<(Result<String, String>, RonNode)>)
    ensures
        (forall|i: int| 0 <= i < h.len() ==> #[trigger] ron_member_ok(uri, h[i])) ==> (ron_members(
            uri,
            h,
        ) matches Ok(es) && es.len() == h.len() && forall|i: int|
            0 <= i < h.len() ==> #[trigger] es[i] == (h[i].0->Ok_0@, ron_model(uri, h[i].1)->Ok_0)),
        forall|i: int|
            0 <= i < h.len() && !#[trigger] ron_member_ok(uri, h[i]) && (forall|j: int|
                0 <= j < i ==> ron_member_ok(uri, h[j])) ==> ron_members(uri, h) == Err::<
                Seq<(Seq<char>, ValueModel)>,
                Seq<char>,
            >(
                match h[i].0 {
                    Err(k) => k@,
                    Ok(_) => ron_model(uri, h[i].1)->Err_0,
                },
            ),
    decreases h.len(),
{
    if h.len() > 0 {
        let p = h.subrange(0, h.len() - 1);
        lemma_ron_members(uri, p);
        if forall|i: int| 0 <= i < h.len() ==> #[trigger] ron_member_ok(uri, h[i]) {
            assert forall|i: int| 0 <= i < p.len() implies #[trigger] ron_member_ok(uri, p[i]) by {
                assert(p[i] == h[i]);
            }
            assert(ron_member_ok(uri, h[h.len() - 1]));
            let es = ron_members(uri, h)->Ok_0;
            assert forall|i: int| 0 <= i < h.len() implies #[trigger] es[i] == (
                h[i].0->Ok_0@,
                ron_model(uri, h[i].1)->Ok_0,
            ) by {
                if i < h.len() - 1 {
                    assert(p[i] == h[i]);
                }
            }
        }
        assert forall|i: int|
            0 <= i < h.len() && !#[trigger] ron_member_ok(uri, h[i]) && (forall|j: int|
                0 <= j < i ==> ron_member_ok(uri, h[j])) implies ron_members(uri, h) == Err::<
            Seq<(Seq<char>, ValueModel)>,
            Seq<char>,
        >(
            match h[i].0 {
                Err(k) => k@,
                Ok(_) => ron_model(uri, h[i].1)->Err_0,
            },
        ) by {
            if i < h.len() - 1 {
                assert(p[i] == h[i]);
                assert forall|j: int| 0 <= j < i implies ron_member_ok(uri, p[j]) by {
                    assert(p[j] == h[j]);
                }
            } else {
                assert forall|j: int| 0 <= j < p.len() implies #[trigger] ron_member_ok(uri, p[j]) by {
                    assert(p[j] == h[j]);
                }
            }
        }
    }
}

/// Law: RON converts kind for kind, each value carrying the source's URI:
/// a boolean to the same boolean, a character to the one-character string,
/// a string to the same string, unit and an empty option to nil, an option
/// with content as its content, signed integers to `i64` and unsigned ones
/// to `u64` of the same value; a list element for element and a map to a
/// table holding exactly its keys, each with the conversion of the last
/// value under it, where every entry converts, and otherwise the error of
/// the first entry that fails.
pub proof fn law_ron_conversion(uri: Option<Seq<char>>, n: RonNode)
    ensures
        ron_model(uri, n) matches Ok(m) ==> m.origin == uri,
        n matches RonNode::Bool(b) ==> ron_model(uri, n) == Ok::<ValueModel, Seq<char>>(
            ValueModel { origin: uri, kind: KindModel::Boolean(b) },
        ),
        n matches RonNode::Char(c) ==> ron_model(uri, n) == Ok::<ValueModel, Seq<char>>(
            ValueModel { origin: uri, kind: KindModel::Str(seq![c]) },
        ),
        n matches RonNode::String(t) ==> ron_model(uri, n) == Ok::<ValueModel, Seq<char>>(
            ValueModel { origin: uri, kind: KindModel::Str(t@) },
        ),
        n is Unit || n == RonNode::Option(None) ==> ron_model(uri, n) == Ok::<ValueModel, Seq<char>>(
            ValueModel { origin: uri, kind: KindModel::Nil },
        ),
        n matches RonNode::Option(Some(b)) ==> (match ron_model(uri, *b) {
            Ok(m) => ron_model(uri, n) == Ok::<ValueModel, Seq<char>>(ValueModel { origin: uri, kind: m.kind }),
            Err(e) => ron_model(uri, n) == Err::<ValueModel, Seq<char>>(e),
        }),
        n matches RonNode::Number(x) ==> (ron_model(uri, n) matches Ok(m) && match x {
            RonNumber::I8(v) => m.kind == KindModel::I64(v as i64),
            RonNumber::I16(v) => m.kind == KindModel::I64(v as i64),
            RonNumber::I32(v) => m.kind == KindModel::I64(v as i64),
            RonNumber::I64(v) => m.kind == KindModel::I64(v),
            RonNumber::U8(v) => m.kind == KindModel::U64(v as u64),
            RonNumber::U16(v) => m.kind == KindModel::U64(v as u64),
            RonNumber::U32(v) => m.kind == KindModel::U64(v as u64),
            RonNumber::U64(v) => m.kind == KindModel::U64(v),
            RonNumber::F32(f) => m.kind == KindModel::Float(f@),
            RonNumber::F64(f) => m.kind == KindModel::Float(f@),
        }),
        n matches RonNode::List(a) ==> ((forall|i: int|
            0 <= i < a@.len() ==> (#[trigger] ron_model(uri, a@[i])) is Ok) ==> (ron_model(uri, n) matches Ok(
            m,
        ) && m.kind matches KindModel::Array(ms) && ms.len() == a@.len() && forall|i: int|
            0 <= i < a@.len() ==> Ok::<ValueModel, Seq<char>>(#[trigger] ms[i]) == ron_model(uri, a@[i]))),
        n matches RonNode::List(a) ==> forall|i: int|
            0 <= i < a@.len() && (#[trigger] ron_model(uri, a@[i])) is Err && (forall|j: int|
                0 <= j < i ==> ron_model(uri, a@[j]) is Ok) ==> ron_model(uri, n) == ron_model(uri, a@[i]),
        n matches RonNode::Table(h) ==> ((forall|i: int|
            0 <= i < h@.len() ==> #[trigger] ron_member_ok(uri, h@[i])) ==> (ron_model(uri, n) matches Ok(m)
            && m.kind matches KindModel::Table(t) && forall|k: Seq<char>|
            #![trigger lookup(t, k)]
            (lookup(t, k) is None <==> forall|i: int| 0 <= i < h@.len() ==> (#[trigger] h@[i]).0->Ok_0@ != k)
                && forall|i: int|
                0 <= i < h@.len() && (#[trigger] h@[i]).0->Ok_0@ == k && (forall|j: int|
                    i < j < h@.len() ==> h@[j].0->Ok_0@ != k) ==> lookup(t, k) == Some(
                    ron_model(uri, h@[i].1)->Ok_0,
                ))),
        n matches RonNode::Table(h) ==> forall|i: int|
            0 <= i < h@.len() && !#[trigger] ron_member_ok(uri, h@[i]) && (forall|j: int|
                0 <= j < i ==> ron_member_ok(uri, h@[j])) ==> ron_model(uri, n) == Err::<ValueModel, Seq<char>>(
                match h@[i].0 {
                    Err(k) => k@,
                    Ok(_) => ron_model(uri, h@[i].1)->Err_0,
                },
            ),
{
    match n {
        RonNode::List(a) => {
            lemma_ron_items(uri, a@);
        },
        RonNode::Table(h) => {
            lemma_ron_members(uri, h@);
            if forall|i: int| 0 <= i < h@.len() ==> #[trigger] ron_member_ok(uri, h@[i]) {
                let es = ron_members(uri, h@)->Ok_0;
                assert forall|k: Seq<char>| #![trigger lookup(insert_all(Seq::empty(), es), k)]
                    (lookup(insert_all(Seq::empty(), es), k) is None <==> forall|i: int|
                        0 <= i < h@.len() ==> (#[trigger] h@[i]).0->Ok_0@ != k) && forall|i: int|
                        0 <= i < h@.len() && (#[trigger] h@[i]).0->Ok_0@ == k && (forall|j: int|
                            i < j < h@.len() ==> h@[j].0->Ok_0@ != k) ==> lookup(
                            insert_all(Seq::empty(), es),
                            k,
                        ) == Some(ron_model(uri, h@[i].1)->Ok_0) by {
                    lemma_members_table(
                        h@,
                        |e: (Result<String, String>, RonNode)| e.0->Ok_0@,
                        |e: (Result<String, String>, RonNode)| ron_model(uri, e.1)->Ok_0,
                        es,
                        k,
                    );
                }
            }
        },
        _ => {},
    }
}

/// Converts a RON value into a configuration value from source `uri`; a
/// map key that does not convert to a string is an error.
#[verifier::rlimit(100)]
pub fn from_ron_value(uri: Option<&String>, value: &RonNode) -> (r: Result<ConfigValue, FormatError>)
    requires
        ron_no_bytes(opt_ref_view(uri), *value),
    ensures
        ron_result(r, opt_ref_view(uri), *value),
    decreases value,
{
    let ghost u = opt_ref_view(uri);
    match value {
        RonNode::Option(Some(b)) => {
            proof {
                assert(decreases_to!(*value => value->Option_0));
                assert(decreases_to!(value->Option_0 => value->Option_0->0));
            }
            match from_ron_value(uri, &**b) {
                Ok(inner) => Ok(ConfigValue::new(uri, inner.kind)),
                Err(e) => Err(e),
            }
        },
        RonNode::Option(None) => Ok(ConfigValue::new(uri, ValueKind::Nil)),
        RonNode::Unit => Ok(ConfigValue::new(uri, ValueKind::Nil)),
        RonNode::Bool(b) => Ok(ConfigValue::new(uri, ValueKind::Boolean(*b))),
        RonNode::Number(x) => {
            let kind = match x {
                RonNumber::F32(f) => ValueKind::Float(copy_string(f.as_str())),
                RonNumber::F64(f) => ValueKind::Float(copy_string(f.as_str())),
                RonNumber::I8(v) => ValueKind::I64(*v as i64),
                RonNumber::I16(v) => ValueKind::I64(*v as i64),
                RonNumber::I32(v) => ValueKind::I64(*v as i64),
                RonNumber::I64(v) => ValueKind::I64(*v),
                RonNumber::U8(v) => ValueKind::U64(*v as u64),
                RonNumber::U16(v) => ValueKind::U64(*v as u64),
                RonNumber::U32(v) => ValueKind::U64(*v as u64),
                RonNumber::U64(v) => ValueKind::U64(*v),
            };
            Ok(ConfigValue::new(uri, kind))
        },
        RonNode::Bytes(_) => {
            proof {
                assert(false);
            }
            Ok(ConfigValue::new(uri, ValueKind::Nil))
        },
        RonNode::Char(c) => {
            let cs = [*c];
            let s = string_of(&cs);
            assert(cs@ == seq![*c]);
            Ok(ConfigValue::new(uri, ValueKind::String(s)))
        },
        RonNode::String(s) => Ok(ConfigValue::new(uri, ValueKind::String(copy_string(s.as_str())))),
        RonNode::Table(table) => {
            let mut m: Table<ConfigValue> = Table::new();
            let mut i: usize = 0;
            proof {
                assert(table@.take(0) =~= Seq::<(Result<String, String>, RonNode)>::empty());
            }
            while i < table.len()
                invariant
                    i <= table.len(),
                    *value == RonNode::Table(*table),
                    ron_no_bytes(u, *value),
                    u == opt_ref_view(uri),
                    ron_members(u, table@.take(i as int)) matches Ok(es) && table_model(m)
                        == insert_all(Seq::empty(), es),
                decreases table.len() - i,
            {
                proof {
                    assert(decreases_to!(*value => value->Table_0));
                    assert(decreases_to!(value->Table_0 => value->Table_0@));
                    assert(decreases_to!(value->Table_0@ => table@[i as int]));
                    assert(table@.take(i + 1).subrange(0, i as int) == table@.take(i as int));
                    assert(table@.take(i + 1)[i as int] == table@[i as int]);
                }
                let ghost es = ron_members(u, table@.take(i as int))->Ok_0;
                let key = match &table[i].0 {
                    Ok(k) => copy_string(k.as_str()),
                    Err(message) => {
                        proof {
                            lemma_members_err(u, table@, i + 1);
                        }
                        return Err(FormatError::Parser(copy_string(message.as_str())));
                    },
                };
                proof {
                    assert(ron_no_bytes(u, table@[i as int].1));
                }
                let v = match from_ron_value(uri, &table[i].1) {
                    Ok(v) => v,
                    Err(e) => {
                        proof {
                            lemma_members_err(u, table@, i + 1);
                        }
                        return Err(e);
                    },
                };
                let ghost m0 = m;
                let ghost vv = v;
                m.insert(key, v);
                proof {
                    lemma_table_model_insert(m0, key@, vv, m);
                    let t = table@.take(i + 1);
                    assert(t[t.len() - 1].0 matches Ok(k) && k@ == key@);
                    assert(es.push((key@, value_model(vv))).drop_last() == es);
                }
                i = i + 1;
            }
            proof {
                assert(table@.take(table@.len() as int) == table@);
            }
            let r = ConfigValue::new(uri, ValueKind::Table(m));
            proof {
                lemma_value_model_table(r.origin, m);
            }
            Ok(r)
        },
        RonNode::List(array) => {
            let mut l: Vec<ConfigValue> = Vec::new();
            let mut i: usize = 0;
            proof {
                assert(array@.take(0) =~= Seq::<RonNode>::empty());
                assert(array_model(l@) =~= Seq::<ValueModel>::empty());
            }
            while i < array.len()
                invariant
                    i <= array.len(),
                    *value == RonNode::List(*array),
                    ron_no_bytes(u, *value),
                    u == opt_ref_view(uri),
                    ron_items(u, array@.take(i as int)) == Ok::<Seq<ValueModel>, Seq<char>>(
                        array_model(l@),
                    ),
                decreases array.len() - i,
            {
                proof {
                    assert(decreases_to!(*value => value->List_0));
                    assert(decreases_to!(value->List_0 => value->List_0@));
                    assert(decreases_to!(value->List_0@ => array@[i as int]));
                    assert(array@.take(i + 1).subrange(0, i as int) == array@.take(i as int));
                    assert(array@.take(i + 1)[i as int] == array@[i as int]);
                }
                proof {
                    assert(ron_no_bytes(u, array@[i as int]));
                }
                let v = match from_ron_value(uri, &array[i]) {
                    Ok(v) => v,
                    Err(e) => {
                        proof {
                            lemma_items_err(u, array@, i + 1);
                        }
                        return Err(e);
                    },
                };
                let ghost l0 = l@;
                l.push(v);
                proof {
                    assert(array_model(l@) =~= array_model(l0).push(value_model(v)));
                }
                i = i + 1;
            }
            proof {
                assert(array@.take(array@.len() as int) == array@);
            }
            let r = ConfigValue::new(uri, ValueKind::Array(l));
            proof {
                lemma_value_model_array(r.origin, l);
            }
            Ok(r)
        },
    }
}

/// Parses a RON document: the table at its root, or the error.
pub fn parse_tree(uri: Option<&String>, root: &RonNode) -> (r: Result<Table<ConfigValue>, FormatError>)
    requires
        ron_no_bytes(opt_ref_view(uri), *root),
    ensures
        match ron_model(opt_ref_view(uri), *root) {
            Ok(m) => root_table_result(r, opt_ref_view(uri), m.kind),
            Err(t) => r matches Err(FormatError::Parser(s)) && s@ == t,
        },
{
    match from_ron_value(uri, root) {
        Ok(value) => extract_root_table(uri, value),
        Err(e) => Err(e),
    }
}

/// No byte string anywhere in the node.
pub open spec fn ron_all_no_bytes(n: RonNode) -> bool
    decreases n,
{
    match n {
        RonNode::Bytes(_) => false,
        RonNode::Option(Some(b)) => ron_all_no_bytes(*b),
        RonNode::List(a) => forall|i: int| 0 <= i < a@.len() ==> ron_all_no_bytes(#[trigger] a@[i]),
        RonNode::Table(h) => forall|i: int| 0 <= i < h@.len() ==> ron_all_no_bytes(#[trigger] h@[i].1),
        _ => true,
    }
}

proof fn lemma_all_no_bytes(uri: Option<Seq<char>>, n: RonNode)
    requires
        ron_all_no_bytes(n),
    ensures
        ron_no_bytes(uri, n),
    decreases n,
{
    match n {
        RonNode::Option(Some(b)) => {
            lemma_all_no_bytes(uri, *b);
        },
        RonNode::List(a) => {
            assert forall|i: int|
                0 <= i < a@.len() && ron_items(uri, a@.take(i)) is Ok implies ron_no_bytes(
                uri,
                #[trigger] a@[i],
            ) by {
                assert(decreases_to!(n => a));
                assert(decreases_to!(a => a@));
                assert(decreases_to!(a@ => a@[i]));
                lemma_all_no_bytes(uri, a@[i]);
            }
            assert(ron_no_bytes(uri, RonNode::List(a)));
        },
        RonNode::Table(h) => {
            assert forall|i: int|
                0 <= i < h@.len() && ron_members(uri, h@.take(i)) is Ok && h@[i].0 is Ok
                    implies ron_no_bytes(uri, #[trigger] h@[i].1) by {
                assert(decreases_to!(n => h));
                assert(decreases_to!(h => h@));
                assert(decreases_to!(h@ => h@[i]));
                assert(ron_all_no_bytes(h@[i].1));
                lemma_all_no_bytes(uri, h@[i].1);
            }
            assert(ron_no_bytes(uri, RonNode::Table(h)));
        },
        _ => {},
    }
}

/// Whether the node holds no byte string anywhere.
pub fn ron_all_no_bytes_check(n: &RonNode) -> (b: bool)
    ensures
        b == ron_all_no_bytes(*n),
    decreases n,
{
    match n {
        RonNode::Bytes(_) => false,
        RonNode::Option(Some(b)) => {
            proof {
                assert(decreases_to!(*n => n->Option_0));
                assert(decreases_to!(n->Option_0 => n->Option_0->0));
            }
            ron_all_no_bytes_check(&**b)
        },
        RonNode::List(a) => {
            let mut i: usize = 0;
            while i < a.len()
                invariant
                    i <= a.len(),
                    *n == RonNode::List(*a),
                    forall|j: int| 0 <= j < i ==> ron_all_no_bytes(#[trigger] a@[j]),
                decreases a.len() - i,
            {
                proof {
                    assert(decreases_to!(*n => n->List_0));
                    assert(decreases_to!(n->List_0 => n->List_0@));
                    assert(decreases_to!(n->List_0@ => a@[i as int]));
                }
                if !ron_all_no_bytes_check(&a[i]) {
                    assert(!ron_all_no_bytes(RonNode::List(*a)));
                    return false;
                }
                i = i + 1;
            }
            assert(ron_all_no_bytes(RonNode::List(*a)));
            true
        },
        RonNode::Table(h) => {
            let mut i: usize = 0;
            while i < h.len()
                invariant
                    i <= h.len(),
                    *n == RonNode::Table(*h),
                    forall|j: int| 0 <= j < i ==> ron_all_no_bytes(#[trigger] h@[j].1),
                decreases h.len() - i,
            {
                proof {
                    assert(decreases_to!(*n => n->Table_0));
                    assert(decreases_to!(n->Table_0 => n->Table_0@));
                    assert(decreases_to!(n->Table_0@ => h@[i as int]));
                }
                if !ron_all_no_bytes_check(&h[i].1) {
                    assert(!ron_all_no_bytes(RonNode::Table(*h)));
                    return false;
                }
                i = i + 1;
            }
            assert(ron_all_no_bytes(RonNode::Table(*h)));
            true
        },
        _ => true,
    }
}

/// What the ron crate reads from a text: the value, with each map key as
/// what `into_rust::<String>` makes of it, or the message of the error it
/// reports.
pub uninterp spec fn ron_loaded(text: Seq<char>) -> Result<RonNode, Seq<char>>;

/// A ron number as the library's number; a float by the `Debug` text of
/// `Number::into_f64`.
#[verifier::external_body]
fn ron_number(n: &Number) -> RonNumber {
    match n {
        Number::I8(x) => RonNumber::I8(*x),
        Number::I16(x) => RonNumber::I16(*x),
        Number::I32(x) => RonNumber::I32(*x),
        Number::I64(x) => RonNumber::I64(*x),
        Number::U8(x) => RonNumber::U8(*x),
        Number::U16(x) => RonNumber::U16(*x),
        Number::U32(x) => RonNumber::U32(*x),
        Number::U64(x) => RonNumber::U64(*x),
        Number::F32(_) => RonNumber::F32(format!("{:?}", n.clone().into_f64())),
        _ => RonNumber::F64(format!("{:?}", n.clone().into_f64())),
    }
}

/// `Value::into_rust::<String>` on a map key: the string, or the message
/// of ron's error.  Nothing is stated of which keys convert.
#[verifier::external_body]
fn ron_key(k: &Value) -> Result<String, String> {
    k.clone().into_rust::<String>().map_err(|e| e.to_string())
}

/// A ron value as the library's tree, node for node; a map key by
/// `ron_key`.
#[verifier::external_body]
fn ron_tree(v: &Value) -> RonNode {
    match v {
        Value::Bool(b) => RonNode::Bool(*b),
        Value::Char(c) => RonNode::Char(*c),
        Value::Map(m) => RonNode::Table(m.iter().map(|(k, x)| (ron_key(k), ron_tree(x))).collect()),
        Value::Number(x) => RonNode::Number(ron_number(x)),
        Value::Option(o) => RonNode::Option(o.as_ref().map(|b| Box::new(ron_tree(b)))),
        Value::String(s) => RonNode::String(s.clone()),
        Value::Bytes(b) => RonNode::Bytes(b.clone()),
        Value::Seq(s) => RonNode::List(s.iter().map(ron_tree).collect()),
        Value::Unit => RonNode::Unit,
    }
}

/// `ron::from_str` into ron's `Value`: the result is named `ron_loaded` of
/// the text.
#[verifier::external_body]
fn load_ron(text: &str) -> (r: Result<RonNode, String>)
    ensures
        match ron_loaded(text@) {
            Ok(n) => r == Ok::<RonNode, String>(n),
            Err(m) => r matches Err(e) && e@ == m,
        },
{
    match ron::from_str::<Value>(text) {
        Ok(v) => Ok(ron_tree(&v)),
        Err(e) => Err(e.to_string()),
    }
}

/// The text reads without reaching a byte string (where the reader stops).
pub open spec fn ron_text_ok(uri: Option<Seq<char>>, text: Seq<char>) -> bool {
    match ron_loaded(text) {
        Ok(n) => ron_no_bytes(uri, n),
        Err(_) => true,
    }
}

/// Parses RON text from source `uri`: the table at its root, the root
/// error, the error of a map key that is no string, or the parser's
/// message.
pub fn parse(uri: Option<&String>, text: &str) -> (r: Result<Table<ConfigValue>, FormatError>)
    requires
        ron_text_ok(opt_ref_view(uri), text@),
    ensures
        match ron_loaded(text@) {
            Ok(n) => match ron_model(opt_ref_view(uri), n) {
                Ok(m) => root_table_result(r, opt_ref_view(uri), m.kind),
                Err(t) => r matches Err(FormatError::Parser(s)) && s@ == t,
            },
            Err(m) => r matches Err(FormatError::Parser(e)) && e@ == m,
        },
{
    match load_ron(text) {
        Ok(n) => parse_tree(uri, &n),
        Err(m) => Err(FormatError::Parser(m)),
    }
}

/// Parses RON text as `parse` does where the value holds no byte string
/// anywhere; `None` where it holds one.
pub fn parse_checked(uri: Option<&String>, text: &str) -> (r: Option<Result<Table<ConfigValue>, FormatError>>)
    ensures
        r is None <==> (ron_loaded(text@) matches Ok(n) && !ron_all_no_bytes(n)),
        r matches Some(x) ==> match ron_loaded(text@) {
            Ok(n) => match ron_model(opt_ref_view(uri), n) {
                Ok(m) => root_table_result(x, opt_ref_view(uri), m.kind),
                Err(t) => x matches Err(FormatError::Parser(s)) && s@ == t,
            },
            Err(m) => x matches Err(FormatError::Parser(e)) && e@ == m,
        },
{
    match load_ron(text) {
        Ok(n) => {
            if !ron_all_no_bytes_check(&n) {
                return None;
            }
            proof {
                lemma_all_no_bytes(opt_ref_view(uri), n);
            }
        },
        Err(_) => {},
    }
    Some(parse(uri, text))
}

} // verus!

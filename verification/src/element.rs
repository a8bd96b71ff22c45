//! Configuration elements: the tree a source loads, and how a path reads
//! into it.
use vstd::prelude::*;

use crate::accessor::{AccessModel, AccessType, Accessor};
use crate::formats::json::{json_numbers_known, JsonNode};
use crate::formats::toml_format::TomlNode;
use crate::formats::toml_namespace::toml_no_datetime;
use crate::object::{access_error_model, AccessErrorModel, ConfigObjectAccessError};
use crate::text::copy_string;
use crate::value::{
    find_key, insert_all, insert_key, lemma_find_key, lemma_find_key_at, lemma_insert_all_step,
    lemma_insert_lookup, lookup, Table,
};

use crate::value::{lemma_members_table};

verus! {

/// A configuration element.  Floating-point numbers are carried as the
/// decimal text that denotes them.
#[derive(Debug, PartialEq)]
pub enum ConfigElement {
    Null,
    Bool(bool),
    I8(i8),
    I16(i16),
    I32(i32),
    I64(i64),
    U8(u8),
    U16(u16),
    U32(u32),
    U64(u64),
    F32(String),
    F64(String),
    Str(String),
    List(Vec<ConfigElement>),
    Mapping(Table<ConfigElement>),
}

/// The kind of an element, as the access errors name it.
#[derive(Debug, Clone, PartialEq)]
pub enum ElementTag {
    Null,
    Bool,
    I8,
    I16,
    I32,
    I64,
    U8,
    U16,
    U32,
    U64,
    F32,
    F64,
    Str,
    List,
    Mapping,
}

pub open spec fn element_tag(e: ConfigElement) -> ElementTag {
    match e {
        ConfigElement::Null => ElementTag::Null,
        ConfigElement::Bool(_) => ElementTag::Bool,
        ConfigElement::I8(_) => ElementTag::I8,
        ConfigElement::I16(_) => ElementTag::I16,
        ConfigElement::I32(_) => ElementTag::I32,
        ConfigElement::I64(_) => ElementTag::I64,
        ConfigElement::U8(_) => ElementTag::U8,
        ConfigElement::U16(_) => ElementTag::U16,
        ConfigElement::U32(_) => ElementTag::U32,
        ConfigElement::U64(_) => ElementTag::U64,
        ConfigElement::F32(_) => ElementTag::F32,
        ConfigElement::F64(_) => ElementTag::F64,
        ConfigElement::Str(_) => ElementTag::Str,
        ConfigElement::List(_) => ElementTag::List,
        ConfigElement::Mapping(_) => ElementTag::Mapping,
    }
}

/// What reading `path` in `e` gives: the element it leads to, `None` when
/// a key or index is absent, or the error of applying a key to something
/// other than a map, or an index to something other than a list.
pub open spec fn lookup_path(e: ConfigElement, path: Seq<AccessModel>) -> Result<
    Option<ConfigElement>,
    AccessErrorModel,
>
    decreases path.len(),
{
    if path.len() == 0 {
        Ok(Some(e))
    } else {
        match path[0] {
            AccessModel::Key(k) => match e {
                ConfigElement::Mapping(t) => match lookup(t@, k) {
                    Some(c) => lookup_path(c, path.drop_first()),
                    None => Ok(None),
                },
                _ => Err(AccessErrorModel::KeyOn(element_tag(e), k)),
            },
            AccessModel::Index(n) => match e {
                ConfigElement::List(l) => if n < l@.len() {
                    lookup_path(l@[n as int], path.drop_first())
                } else {
                    Ok(None)
                },
                _ => Err(AccessErrorModel::IndexOn(element_tag(e), n)),
            },
        }
    }
}

/// What reading `path` in `e` gives; an empty path is an error.
pub open spec fn element_get(e: ConfigElement, path: Seq<AccessModel>) -> Result<
    Option<ConfigElement>,
    AccessErrorModel,
> {
    if path.len() == 0 {
        Err(AccessErrorModel::NoAccessor)
    } else {
        lookup_path(e, path)
    }
}

/// The result of a lookup, as its model.
pub open spec fn get_result_model(r: Result<Option<&ConfigElement>, ConfigObjectAccessError>) -> Result<
    Option<ConfigElement>,
    AccessErrorModel,
> {
    match r {
        Ok(Some(x)) => Ok(Some(*x)),
        Ok(None) => Ok(None),
        Err(e) => Err(access_error_model(e)),
    }
}

fn key_error(e: &ConfigElement, k: &String) -> (r: ConfigObjectAccessError)
    requires
        !(*e is Mapping),
    ensures
        access_error_model(r) == AccessErrorModel::KeyOn(element_tag(*e), k@),
{
    let k = copy_string(k.as_str());
    match e {
        ConfigElement::Null => ConfigObjectAccessError::AccessWithKeyOnNull(k),
        ConfigElement::Bool(_) => ConfigObjectAccessError::AccessWithKeyOnBool(k),
        ConfigElement::I8(_) => ConfigObjectAccessError::AccessWithKeyOnI8(k),
        ConfigElement::I16(_) => ConfigObjectAccessError::AccessWithKeyOnI16(k),
        ConfigElement::I32(_) => ConfigObjectAccessError::AccessWithKeyOnI32(k),
        ConfigElement::I64(_) => ConfigObjectAccessError::AccessWithKeyOnI64(k),
        ConfigElement::U8(_) => ConfigObjectAccessError::AccessWithKeyOnU8(k),
        ConfigElement::U16(_) => ConfigObjectAccessError::AccessWithKeyOnU16(k),
        ConfigElement::U32(_) => ConfigObjectAccessError::AccessWithKeyOnU32(k),
        ConfigElement::U64(_) => ConfigObjectAccessError::AccessWithKeyOnU64(k),
        ConfigElement::F32(_) => ConfigObjectAccessError::AccessWithKeyOnF32(k),
        ConfigElement::F64(_) => ConfigObjectAccessError::AccessWithKeyOnF64(k),
        ConfigElement::Str(_) => ConfigObjectAccessError::AccessWithKeyOnStr(k),
        ConfigElement::List(_) => ConfigObjectAccessError::AccessWithKeyOnList(k),
        ConfigElement::Mapping(_) => ConfigObjectAccessError::NoAccessor,
    }
}

fn index_error(e: &ConfigElement, n: usize) -> (r: ConfigObjectAccessError)
    requires
        !(*e is List),
    ensures
        access_error_model(r) == AccessErrorModel::IndexOn(element_tag(*e), n),
{
    match e {
        ConfigElement::Null => ConfigObjectAccessError::AccessWithIndexOnNull(n),
        ConfigElement::Bool(_) => ConfigObjectAccessError::AccessWithIndexOnBool(n),
        ConfigElement::I8(_) => ConfigObjectAccessError::AccessWithIndexOnI8(n),
        ConfigElement::I16(_) => ConfigObjectAccessError::AccessWithIndexOnI16(n),
        ConfigElement::I32(_) => ConfigObjectAccessError::AccessWithIndexOnI32(n),
        ConfigElement::I64(_) => ConfigObjectAccessError::AccessWithIndexOnI64(n),
        ConfigElement::U8(_) => ConfigObjectAccessError::AccessWithIndexOnU8(n),
        ConfigElement::U16(_) => ConfigObjectAccessError::AccessWithIndexOnU16(n),
        ConfigElement::U32(_) => ConfigObjectAccessError::AccessWithIndexOnU32(n),
        ConfigElement::U64(_) => ConfigObjectAccessError::AccessWithIndexOnU64(n),
        ConfigElement::F32(_) => ConfigObjectAccessError::AccessWithIndexOnF32(n),
        ConfigElement::F64(_) => ConfigObjectAccessError::AccessWithIndexOnF64(n),
        ConfigElement::Str(_) => ConfigObjectAccessError::AccessWithIndexOnStr(n),
        ConfigElement::Mapping(_) => ConfigObjectAccessError::AccessWithIndexOnMap(n),
        ConfigElement::List(_) => ConfigObjectAccessError::NoAccessor,
    }
}

impl ConfigElement {
    /// Reads `accessor` in this element.
    pub fn get(&self, accessor: &Accessor) -> (r: Result<
        Option<&ConfigElement>,
        ConfigObjectAccessError,
    >)
        ensures
            get_result_model(r) == element_get(*self, accessor@),
    {
        let n = accessor.len();
        if n == 0 {
            return Err(ConfigObjectAccessError::NoAccessor);
        }
        let ghost path = accessor@;
        let mut cur: &ConfigElement = self;
        let mut i: usize = 0;
        assert(path.skip(0) == path);
        while i < n
            invariant
                i <= n,
                n == path.len(),
                path == accessor@,
                lookup_path(*self, path) == lookup_path(*cur, path.skip(i as int)),
            decreases n - i,
        {
            let ghost rest = path.skip(i as int);
            proof {
                assert(rest[0] == path[i as int]);
                assert(rest.drop_first() == path.skip(i + 1));
            }
            match accessor.step(i) {
                AccessType::Key(k) => {
                    match cur {
                        ConfigElement::Mapping(t) => {
                            match t.get(k.as_str()) {
                                Some(c) => {
                                    cur = c;
                                },
                                None => {
                                    return Ok(None);
                                },
                            }
                        },
                        _ => {
                            return Err(key_error(cur, k));
                        },
                    }
                },
                AccessType::Index(idx) => {
                    match cur {
                        ConfigElement::List(l) => {
                            if *idx < l.len() {
                                cur = &l[*idx];
                            } else {
                                return Ok(None);
                            }
                        },
                        _ => {
                            return Err(index_error(cur, *idx));
                        },
                    }
                },
            }
            i = i + 1;
        }
        proof {
            assert(path.skip(n as int).len() == 0);
        }
        Ok(Some(cur))
    }
}

/// Law: once `k` is inserted into a map, a path that starts with `k`
/// reads on in the inserted element, and a path that starts with another
/// key reads what it read before the insert.
pub proof fn law_read_after_insert(
    t: Table<ConfigElement>,
    t2: Table<ConfigElement>,
    k: Seq<char>,
    v: ConfigElement,
    k2: Seq<char>,
    rest: Seq<AccessModel>,
)
    requires
        t2@ == insert_key(t@, k, v),
    ensures
        lookup_path(ConfigElement::Mapping(t2), seq![AccessModel::Key(k)] + rest) == lookup_path(
            v,
            rest,
        ),
        k2 != k ==> lookup_path(ConfigElement::Mapping(t2), seq![AccessModel::Key(k2)] + rest)
            == lookup_path(ConfigElement::Mapping(t), seq![AccessModel::Key(k2)] + rest),
{
    lemma_insert_lookup(t@, k, v, k2);
    let p = seq![AccessModel::Key(k)] + rest;
    let p2 = seq![AccessModel::Key(k2)] + rest;
    assert(p[0] == AccessModel::Key(k));
    assert(p.drop_first() =~= rest);
    assert(p2[0] == AccessModel::Key(k2));
    assert(p2.drop_first() =~= rest);
}

// ---------------------------------------------------------------------
// Elements from documents
// ---------------------------------------------------------------------
/// Model of an element: strings by their characters.
pub enum ElementModel {
    Null,
    Bool(bool),
    I8(i8),
    I16(i16),
    I32(i32),
    I64(i64),
    U8(u8),
    U16(u16),
    U32(u32),
    U64(u64),
    F32(Seq<char>),
    F64(Seq<char>),
    Str(Seq<char>),
    List(Seq<ElementModel>),
    Mapping(Seq<(Seq<char>, ElementModel)>),
}

pub open spec fn element_model(e: ConfigElement) -> ElementModel
    decreases e,
{
    match e {
        ConfigElement::Null => ElementModel::Null,
        ConfigElement::Bool(b) => ElementModel::Bool(b),
        ConfigElement::I8(v) => ElementModel::I8(v),
        ConfigElement::I16(v) => ElementModel::I16(v),
        ConfigElement::I32(v) => ElementModel::I32(v),
        ConfigElement::I64(v) => ElementModel::I64(v),
        ConfigElement::U8(v) => ElementModel::U8(v),
        ConfigElement::U16(v) => ElementModel::U16(v),
        ConfigElement::U32(v) => ElementModel::U32(v),
        ConfigElement::U64(v) => ElementModel::U64(v),
        ConfigElement::F32(s) => ElementModel::F32(s@),
        ConfigElement::F64(s) => ElementModel::F64(s@),
        ConfigElement::Str(s) => ElementModel::Str(s@),
        ConfigElement::List(l) => ElementModel::List(
            Seq::new(
                l@.len(),
                |i: int|
                    if 0 <= i < l@.len() {
                        element_model(l@[i])
                    } else {
                        ElementModel::Null
                    },
            ),
        ),
        ConfigElement::Mapping(t) => ElementModel::Mapping(
            Seq::new(
                t.entries@.len(),
                |i: int|
                    if 0 <= i < t.entries@.len() {
                        (t.entries@[i].0@, element_model(t.entries@[i].1))
                    } else {
                        (Seq::empty(), ElementModel::Null)
                    },
            ),
        ),
    }
}

pub open spec fn element_pairs_model(s: Seq<(Seq<char>, ConfigElement)>) -> Seq<
    (Seq<char>, ElementModel),
> {
    s.map_values(|e: (Seq<char>, ConfigElement)| (e.0, element_model(e.1)))
}

pub open spec fn element_list_model(s: Seq<ConfigElement>) -> Seq<ElementModel> {
    s.map_values(|e: ConfigElement| element_model(e))
}

proof fn lemma_element_model_mapping(t: Table<ConfigElement>)
    ensures
        element_model(ConfigElement::Mapping(t)) == ElementModel::Mapping(element_pairs_model(t@)),
{
    let s = element_model(ConfigElement::Mapping(t))->Mapping_0;
    assert(s =~= element_pairs_model(t@));
}

proof fn lemma_element_model_list(l: Vec<ConfigElement>)
    ensures
        element_model(ConfigElement::List(l)) == ElementModel::List(element_list_model(l@)),
{
    let s = element_model(ConfigElement::List(l))->List_0;
    assert(s =~= element_list_model(l@));
}

proof fn lemma_element_pairs_insert(s: Seq<(Seq<char>, ConfigElement)>, k: Seq<char>, v: ConfigElement)
    ensures
        element_pairs_model(insert_key(s, k, v)) == insert_key(
            element_pairs_model(s),
            k,
            element_model(v),
        ),
{
    let m = element_pairs_model(s);
    lemma_find_key(s, k);
    lemma_find_key_at(m, k, find_key(s, k));
    assert(element_pairs_model(insert_key(s, k, v)) =~= insert_key(m, k, element_model(v)));
}

/// The element a JSON node converts to: numbers as `i64` where they fit,
/// else as `u64`, else as `f64`; objects as maps built by inserting their
/// members in order.
pub open spec fn json_element(n: JsonNode) -> ElementModel
    decreases n, 1int,
{
    match n {
        JsonNode::Null => ElementModel::Null,
        JsonNode::Bool(b) => ElementModel::Bool(b),
        JsonNode::Number(x) => if x.as_i64 is Some {
            ElementModel::I64(x.as_i64->0)
        } else if x.as_u64 is Some {
            ElementModel::U64(x.as_u64->0)
        } else {
            ElementModel::F64(x.as_f64->0@)
        },
        JsonNode::String(s) => ElementModel::Str(s@),
        JsonNode::Array(a) => ElementModel::List(json_element_items(a@)),
        JsonNode::Object(o) => ElementModel::Mapping(
            insert_all(Seq::empty(), json_element_members(o@)),
        ),
    }
}

pub open spec fn json_element_items(a: Seq<JsonNode>) -> Seq<ElementModel>
    decreases a, 0int,
{
    Seq::new(
        a.len(),
        |i: int|
            if 0 <= i < a.len() {
                json_element(a[i])
            } else {
                ElementModel::Null
            },
    )
}

pub open spec fn json_element_members(o: Seq<(String, JsonNode)>) -> Seq<(Seq<char>, ElementModel)>
    decreases o, 0int,
{
    Seq::new(
        o.len(),
        |i: int|
            if 0 <= i < o.len() {
                (o[i].0@, json_element(o[i].1))
            } else {
                (Seq::empty(), ElementModel::Null)
            },
    )
}

/// Law: a JSON node converts to an element kind for kind: null to null, a
/// boolean to the same boolean, a number to the same `i64` where it is
/// one, else to the same `u64`, else to an `f64` of its text, a string to
/// the same string, an array element for element, and an object to a
/// mapping holding exactly its keys, each with the conversion of the last
/// member under it.
pub proof fn law_json_element(n: JsonNode)
    ensures
        n is Null ==> json_element(n) == ElementModel::Null,
        n matches JsonNode::Bool(b) ==> json_element(n) == ElementModel::Bool(b),
        n matches JsonNode::Number(x) ==> (x.as_i64 matches Some(i) ==> json_element(n) == ElementModel::I64(i)),
        n matches JsonNode::Number(x) ==> (x.as_i64 is None && x.as_u64 is Some ==> json_element(n)
            == ElementModel::U64(x.as_u64->0)),
        n matches JsonNode::Number(x) ==> (x.as_i64 is None && x.as_u64 is None ==> json_element(n)
            == ElementModel::F64(x.as_f64->0@)),
        n matches JsonNode::String(t) ==> json_element(n) == ElementModel::Str(t@),
        n matches JsonNode::Array(a) ==> (json_element(n) matches ElementModel::List(ms)
            && ms.len() == a@.len() && forall|i: int|
            0 <= i < a@.len() ==> ms[i] == json_element(#[trigger] a@[i])),
        n matches JsonNode::Object(o) ==> (json_element(n) matches ElementModel::Mapping(t)
            && forall|k: Seq<char>|
            #![trigger lookup(t, k)]
            (lookup(t, k) is None <==> forall|i: int| 0 <= i < o@.len() ==> (#[trigger] o@[i]).0@ != k)
                && forall|i: int|
                0 <= i < o@.len() && (#[trigger] o@[i]).0@ == k && (forall|j: int|
                    i < j < o@.len() ==> o@[j].0@ != k) ==> lookup(t, k) == Some(
                    json_element(o@[i].1),
                )),
{
    if let JsonNode::Object(o) = n {
        let ms = json_element_members(o@);
        assert forall|k: Seq<char>| #![trigger lookup(insert_all(Seq::empty(), ms), k)]
            (lookup(insert_all(Seq::empty(), ms), k) is None <==> forall|i: int|
                0 <= i < o@.len() ==> (#[trigger] o@[i]).0@ != k) && forall|i: int|
                0 <= i < o@.len() && (#[trigger] o@[i]).0@ == k && (forall|j: int|
                    i < j < o@.len() ==> o@[j].0@ != k) ==> lookup(insert_all(Seq::empty(), ms), k)
                    == Some(json_element(o@[i].1)) by {
            lemma_members_table(
                o@,
                |e: (String, JsonNode)| e.0@,
                |e: (String, JsonNode)| json_element(e.1),
                ms,
                k,
            );
        }
    }
}

/// Converts a JSON node into an element.
pub fn json_as_config_element(value: &JsonNode) -> (e: ConfigElement)
    requires
        json_numbers_known(*value),
    ensures
        element_model(e) == json_element(*value),
    decreases value,
{
    match value {
        JsonNode::Null => ConfigElement::Null,
        JsonNode::Bool(b) => ConfigElement::Bool(*b),
        JsonNode::Number(x) => {
            if let Some(i) = x.as_i64 {
                ConfigElement::I64(i)
            } else if let Some(i) = x.as_u64 {
                ConfigElement::U64(i)
            } else if let Some(f) = &x.as_f64 {
                ConfigElement::F64(copy_string(f.as_str()))
            } else {
                proof {
                    assert(false);
                }
                ConfigElement::Null
            }
        },
        JsonNode::String(s) => ConfigElement::Str(copy_string(s.as_str())),
        JsonNode::Array(array) => {
            let mut l: Vec<ConfigElement> = Vec::new();
            let mut i: usize = 0;
            while i < array.len()
                invariant
                    i <= array.len(),
                    *value == JsonNode::Array(*array),
                    json_numbers_known(*value),
                    element_list_model(l@) == json_element_items(array@).take(i as int),
                decreases array.len() - i,
            {
                proof {
                    assert(decreases_to!(*value => value->Array_0));
                    assert(decreases_to!(value->Array_0 => value->Array_0@));
                    assert(decreases_to!(value->Array_0@ => array@[i as int]));
                    assert(json_numbers_known(array@[i as int]));
                }
                let v = json_as_config_element(&array[i]);
                let ghost l0 = l@;
                l.push(v);
                proof {
                    assert(element_list_model(l@) =~= element_list_model(l0).push(element_model(v)));
                    assert(json_element_items(array@).take(i + 1) =~= json_element_items(array@).take(
                        i as int,
                    ).push(json_element(array@[i as int])));
                }
                i = i + 1;
            }
            proof {
                assert(json_element_items(array@).take(array@.len() as int) == json_element_items(
                    array@,
                ));
                lemma_element_model_list(l);
            }
            ConfigElement::List(l)
        },
        JsonNode::Object(obj) => {
            let mut m: Table<ConfigElement> = Table::new();
            let mut i: usize = 0;
            while i < obj.len()
                invariant
                    i <= obj.len(),
                    *value == JsonNode::Object(*obj),
                    json_numbers_known(*value),
                    element_pairs_model(m@) == insert_all(
                        Seq::empty(),
                        json_element_members(obj@).take(i as int),
                    ),
                decreases obj.len() - i,
            {
                proof {
                    assert(decreases_to!(*value => value->Object_0));
                    assert(decreases_to!(value->Object_0 => value->Object_0@));
                    assert(decreases_to!(value->Object_0@ => obj@[i as int]));
                    assert(json_numbers_known(obj@[i as int].1));
                }
                let key = copy_string(obj[i].0.as_str());
                let v = json_as_config_element(&obj[i].1);
                let ghost m0 = m@;
                let ghost vv = v;
                m.insert(key, v);
                proof {
                    lemma_element_pairs_insert(m0, key@, vv);
                    lemma_insert_all_step(Seq::empty(), json_element_members(obj@), i as int);
                }
                i = i + 1;
            }
            proof {
                assert(json_element_members(obj@).take(obj@.len() as int) == json_element_members(
                    obj@,
                ));
                lemma_element_model_mapping(m);
            }
            ConfigElement::Mapping(m)
        },
    }
}

/// The element a TOML node converts to; tables become maps built by
/// inserting their entries in order.
pub open spec fn toml_element(n: TomlNode) -> ElementModel
    decreases n, 1int,
{
    match n {
        TomlNode::String(s) => ElementModel::Str(s@),
        TomlNode::Integer(i) => ElementModel::I64(i),
        TomlNode::Float(f) => ElementModel::F64(f@),
        TomlNode::Boolean(b) => ElementModel::Bool(b),
        TomlNode::Datetime(_) => ElementModel::Null,
        TomlNode::Array(a) => ElementModel::List(toml_element_items(a@)),
        TomlNode::Table(o) => ElementModel::Mapping(
            insert_all(Seq::empty(), toml_element_members(o@)),
        ),
    }
}

pub open spec fn toml_element_items(a: Seq<TomlNode>) -> Seq<ElementModel>
    decreases a, 0int,
{
    Seq::new(
        a.len(),
        |i: int|
            if 0 <= i < a.len() {
                toml_element(a[i])
            } else {
                ElementModel::Null
            },
    )
}

pub open spec fn toml_element_members(o: Seq<(String, TomlNode)>) -> Seq<(Seq<char>, ElementModel)>
    decreases o, 0int,
{
    Seq::new(
        o.len(),
        |i: int|
            if 0 <= i < o.len() {
                (o[i].0@, toml_element(o[i].1))
            } else {
                (Seq::empty(), ElementModel::Null)
            },
    )
}

/// Law: a TOML node converts to an element kind for kind: a boolean to the
/// same boolean, an integer to the same integer, a float and a string to
/// the same text, an array element for element, and a table to a mapping
/// holding exactly its keys, each with the conversion of the last entry
/// under it.
pub proof fn law_toml_element(n: TomlNode)
    ensures
        n matches TomlNode::Boolean(b) ==> toml_element(n) == ElementModel::Bool(b),
        n matches TomlNode::Integer(i) ==> toml_element(n) == ElementModel::I64(i),
        n matches TomlNode::Float(f) ==> toml_element(n) == ElementModel::F64(f@),
        n matches TomlNode::String(t) ==> toml_element(n) == ElementModel::Str(t@),
        n matches TomlNode::Array(a) ==> (toml_element(n) matches ElementModel::List(ms)
            && ms.len() == a@.len() && forall|i: int|
            0 <= i < a@.len() ==> ms[i] == toml_element(#[trigger] a@[i])),
        n matches TomlNode::Table(o) ==> (toml_element(n) matches ElementModel::Mapping(t)
            && forall|k: Seq<char>|
            #![trigger lookup(t, k)]
            (lookup(t, k) is None <==> forall|i: int| 0 <= i < o@.len() ==> (#[trigger] o@[i]).0@ != k)
                && forall|i: int|
                0 <= i < o@.len() && (#[trigger] o@[i]).0@ == k && (forall|j: int|
                    i < j < o@.len() ==> o@[j].0@ != k) ==> lookup(t, k) == Some(
                    toml_element(o@[i].1),
                )),
{
    if let TomlNode::Table(o) = n {
        let ms = toml_element_members(o@);
        assert forall|k: Seq<char>| #![trigger lookup(insert_all(Seq::empty(), ms), k)]
            (lookup(insert_all(Seq::empty(), ms), k) is None <==> forall|i: int|
                0 <= i < o@.len() ==> (#[trigger] o@[i]).0@ != k) && forall|i: int|
                0 <= i < o@.len() && (#[trigger] o@[i]).0@ == k && (forall|j: int|
                    i < j < o@.len() ==> o@[j].0@ != k) ==> lookup(insert_all(Seq::empty(), ms), k)
                    == Some(toml_element(o@[i].1)) by {
            lemma_members_table(
                o@,
                |e: (String, TomlNode)| e.0@,
                |e: (String, TomlNode)| toml_element(e.1),
                ms,
                k,
            );
        }
    }
}

/// Converts a TOML node (without datetimes, which this conversion leaves
/// unimplemented) into an element.
pub fn toml_into_config_element(value: &TomlNode) -> (e: ConfigElement)
    requires
        toml_no_datetime(*value),
    ensures
        element_model(e) == toml_element(*value),
    decreases value,
{
    match value {
        TomlNode::String(s) => ConfigElement::Str(copy_string(s.as_str())),
        TomlNode::Integer(i) => ConfigElement::I64(*i),
        TomlNode::Float(f) => ConfigElement::F64(copy_string(f.as_str())),
        TomlNode::Boolean(b) => ConfigElement::Bool(*b),
        TomlNode::Datetime(_) => {
            proof {
                assert(false);
            }
            ConfigElement::Null
        },
        TomlNode::Array(array) => {
            let mut l: Vec<ConfigElement> = Vec::new();
            let mut i: usize = 0;
            while i < array.len()
                invariant
                    i <= array.len(),
                    *value == TomlNode::Array(*array),
                    toml_no_datetime(*value),
                    element_list_model(l@) == toml_element_items(array@).take(i as int),
                decreases array.len() - i,
            {
                proof {
                    assert(decreases_to!(*value => value->Array_0));
                    assert(decreases_to!(value->Array_0 => value->Array_0@));
                    assert(decreases_to!(value->Array_0@ => array@[i as int]));
                    assert(toml_no_datetime(array@[i as int]));
                }
                let v = toml_into_config_element(&array[i]);
                let ghost l0 = l@;
                l.push(v);
                proof {
                    assert(element_list_model(l@) =~= element_list_model(l0).push(element_model(v)));
                    assert(toml_element_items(array@).take(i + 1) =~= toml_element_items(array@).take(
                        i as int,
                    ).push(toml_element(array@[i as int])));
                }
                i = i + 1;
            }
            proof {
                assert(toml_element_items(array@).take(array@.len() as int) == toml_element_items(
                    array@,
                ));
                lemma_element_model_list(l);
            }
            ConfigElement::List(l)
        },
        TomlNode::Table(obj) => {
            let mut m: Table<ConfigElement> = Table::new();
            let mut i: usize = 0;
            while i < obj.len()
                invariant
                    i <= obj.len(),
                    *value == TomlNode::Table(*obj),
                    toml_no_datetime(*value),
                    element_pairs_model(m@) == insert_all(
                        Seq::empty(),
                        toml_element_members(obj@).take(i as int),
                    ),
                decreases obj.len() - i,
            {
                proof {
                    assert(decreases_to!(*value => value->Table_0));
                    assert(decreases_to!(value->Table_0 => value->Table_0@));
                    assert(decreases_to!(value->Table_0@ => obj@[i as int]));
                    assert(toml_no_datetime(obj@[i as int].1));
                }
                let key = copy_string(obj[i].0.as_str());
                let v = toml_into_config_element(&obj[i].1);
                let ghost m0 = m@;
                let ghost vv = v;
                m.insert(key, v);
                proof {
                    lemma_element_pairs_insert(m0, key@, vv);
                    lemma_insert_all_step(Seq::empty(), toml_element_members(obj@), i as int);
                }
                i = i + 1;
            }
            proof {
                assert(toml_element_members(obj@).take(obj@.len() as int) == toml_element_members(
                    obj@,
                ));
                lemma_element_model_mapping(m);
            }
            ConfigElement::Mapping(m)
        },
    }
}

/// The error of converting JSON into elements.  Every JSON node whose
/// numbers are known converts, so no conversion produces it.
#[derive(Debug, Clone, PartialEq)]
pub struct JsonIntoConfigElementError;

/// The error of converting TOML into elements.  Every TOML node without a
/// datetime converts, so no conversion produces it.
#[derive(Debug, Clone, PartialEq)]
pub struct TomlIntoConfigElementError;

/// A tree that can be read as configuration elements.
pub trait AsConfigElement {
    type Error;

    /// Whether the conversion is defined on this tree.
    spec fn convertible(&self) -> bool;

    fn as_config_element(&self) -> (r: Result<ConfigElement, Self::Error>)
        requires
            self.convertible(),
    ;
}

/// A tree that can be turned into configuration elements.
pub trait IntoConfigElement: Sized {
    type Error;

    /// Whether the conversion is defined on this tree.
    spec fn convertible(&self) -> bool;

    fn into_config_element(self) -> (r: Result<ConfigElement, Self::Error>)
        requires
            self.convertible(),
    ;
}

impl AsConfigElement for JsonNode {
    type Error = JsonIntoConfigElementError;

    open spec fn convertible(&self) -> bool {
        json_numbers_known(*self)
    }

    fn as_config_element(&self) -> (r: Result<ConfigElement, JsonIntoConfigElementError>)
        ensures
            r matches Ok(e) && element_model(e) == json_element(*self),
    {
        Ok(json_as_config_element(self))
    }
}

impl IntoConfigElement for TomlNode {
    type Error = TomlIntoConfigElementError;

    open spec fn convertible(&self) -> bool {
        toml_no_datetime(*self)
    }

    fn into_config_element(self) -> (r: Result<ConfigElement, TomlIntoConfigElementError>)
        ensures
            r matches Ok(e) && element_model(e) == toml_element(self),
    {
        Ok(toml_into_config_element(&self))
    }
}

} // verus!

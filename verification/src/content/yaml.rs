//! A YAML document held as a source and collected into entries.
use vstd::prelude::*;
use vstd::string::StringExecFns;

use crate::content::{
    entry_list_model, entry_model, entry_pairs_model, lemma_entry_model_array,
    lemma_entry_model_table, lemma_entry_pairs_insert, Entry, EntryModel,
};
use crate::formats::yaml::{load_yaml, yaml_loaded, YamlNode};
use crate::text::{chars_of, copy_string, decimal, decimal_u128, float_text_ok, is_float_text};
use crate::value::{insert_key, lemma_find_key, lemma_insert_lookup, lookup, Table};

verus! {

/// Every node that the conversion reaches converts: reals are float
/// text, there is no alias, null or bad value, and only the values of
/// string keys are reached in a hash.
pub open spec fn yaml_entries_defined(n: YamlNode) -> bool
    decreases n,
{
    match n {
        YamlNode::Real(r) => is_float_text(r@),
        YamlNode::Integer(_) => true,
        YamlNode::String(_) => true,
        YamlNode::Boolean(_) => true,
        YamlNode::Array(a) => forall|i: int|
            0 <= i < a@.len() ==> yaml_entries_defined(#[trigger] a@[i]),
        YamlNode::Hash(h) => forall|i: int|
            0 <= i < h@.len() && h@[i].0 is String ==> yaml_entries_defined(#[trigger] h@[i].1),
        _ => false,
    }
}

/// Inserting, in order, the present entries of `t` into `s`.
pub open spec fn insert_present<K, M>(s: Seq<(K, M)>, t: Seq<Option<(K, M)>>) -> Seq<(K, M)>
    decreases t.len(),
{
    if t.len() == 0 {
        s
    } else {
        let p = insert_present(s, t.drop_last());
        match t.last() {
            Some(e) => insert_key(p, e.0, e.1),
            None => p,
        }
    }
}

/// The entry a YAML node converts to; a hash becomes a table built by
/// inserting, in order, its entries with string keys.
pub open spec fn yaml_entry(n: YamlNode) -> EntryModel
    decreases n, 1int,
{
    match n {
        YamlNode::String(s) => EntryModel::Str(s@),
        YamlNode::Real(r) => EntryModel::Float(r@),
        YamlNode::Integer(i) => EntryModel::Integer(i),
        YamlNode::Boolean(b) => EntryModel::Boolean(b),
        YamlNode::Hash(h) => EntryModel::Table(insert_present(Seq::empty(), yaml_entry_members(h@))),
        YamlNode::Array(a) => EntryModel::Array(yaml_entry_items(a@)),
        _ => EntryModel::Boolean(false),
    }
}

pub open spec fn yaml_entry_items(a: Seq<YamlNode>) -> Seq<EntryModel>
    decreases a, 0int,
{
    Seq::new(
        a.len(),
        |i: int|
            if 0 <= i < a.len() {
                yaml_entry(a[i])
            } else {
                EntryModel::Boolean(false)
            },
    )
}

/// The entries of a hash, each present only when its key is a string.
pub open spec fn yaml_entry_members(h: Seq<(YamlNode, YamlNode)>) -> Seq<
    Option<(Seq<char>, EntryModel)>,
>
    decreases h, 0int,
{
    Seq::new(
        h.len(),
        |i: int|
            if 0 <= i < h.len() {
                match h[i].0 {
                    YamlNode::String(k) => Some((k@, yaml_entry(h[i].1))),
                    _ => None,
                }
            } else {
                None
            },
    )
}

/// `n` is a string key whose text is `k`.
pub open spec fn yaml_string_key(n: YamlNode, k: Seq<char>) -> bool {
    n matches YamlNode::String(s) && s@ == k
}

/// The entry of `t` at `i` is present and has key `k`.
pub open spec fn present_key<K, M>(t: Seq<Option<(K, M)>>, i: int, k: K) -> bool {
    t[i] is Some && t[i]->Some_0.0 == k
}

/// After inserting the present entries of `t` into `s`, a key that no
/// present entry has keeps its value from `s`, and a key that present
/// entries have holds the value of the last of them.
pub proof fn lemma_insert_present_lookup<K, M>(s: Seq<(K, M)>, t: Seq<Option<(K, M)>>, k: K)
    ensures
        (forall|i: int| 0 <= i < t.len() ==> !#[trigger] present_key(t, i, k)) ==> lookup(
            insert_present(s, t),
            k,
        ) == lookup(s, k),
        forall|i: int|
            0 <= i < t.len() && #[trigger] present_key(t, i, k) && (forall|j: int|
                i < j < t.len() ==> !present_key(t, j, k)) ==> lookup(insert_present(s, t), k)
                == Some(t[i]->Some_0.1),
    decreases t.len(),
{
    if t.len() > 0 {
        let p = t.drop_last();
        lemma_insert_present_lookup(s, p, k);
        let q = insert_present(s, p);
        if let Some(e) = t.last() {
            lemma_insert_lookup(q, e.0, e.1, k);
        }
        assert forall|i: int| 0 <= i < p.len() implies present_key(p, i, k) == present_key(t, i, k) by {
            assert(p[i] == t[i]);
        }
        if forall|i: int| 0 <= i < t.len() ==> !#[trigger] present_key(t, i, k) {
            assert(!present_key(t, t.len() - 1, k));
            assert forall|i: int| 0 <= i < p.len() implies !#[trigger] present_key(p, i, k) by {
                assert(!present_key(t, i, k));
            }
        }
        assert forall|i: int|
            0 <= i < t.len() && #[trigger] present_key(t, i, k) && (forall|j: int|
                i < j < t.len() ==> !present_key(t, j, k)) implies lookup(insert_present(s, t), k)
            == Some(t[i]->Some_0.1) by {
            if i < t.len() - 1 {
                assert(!present_key(t, t.len() - 1, k));
                assert(present_key(p, i, k));
                assert forall|j: int| i < j < p.len() implies !present_key(p, j, k) by {
                    assert(!present_key(t, j, k));
                }
            }
        }
    }
}

/// Where a present entry has key `k`, a last one has it.
pub proof fn lemma_last_present<K, M>(t: Seq<Option<(K, M)>>, k: K, i: int)
    requires
        0 <= i < t.len(),
        present_key(t, i, k),
    ensures
        exists|j: int|
            i <= j < t.len() && #[trigger] present_key(t, j, k) && forall|l: int|
                j < l < t.len() ==> !present_key(t, l, k),
    decreases t.len() - i,
{
    if exists|l: int| i < l < t.len() && #[trigger] present_key(t, l, k) {
        let l = choose|l: int| i < l < t.len() && #[trigger] present_key(t, l, k);
        lemma_last_present(t, k, l);
    } else {
        assert(i <= i < t.len() && present_key(t, i, k));
    }
}

/// Law: a YAML node converts to an entry kind for kind: a boolean to the
/// same boolean, an integer to the same integer, a real and a string to
/// the same text, an array element for element, and a hash to a table
/// holding exactly its string keys, each with the conversion of the last
/// value under it; entries under other keys are left out.
pub proof fn law_yaml_entry(n: YamlNode)
    ensures
        n matches YamlNode::Boolean(b) ==> yaml_entry(n) == EntryModel::Boolean(b),
        n matches YamlNode::Integer(i) ==> yaml_entry(n) == EntryModel::Integer(i),
        n matches YamlNode::Real(r) ==> yaml_entry(n) == EntryModel::Float(r@),
        n matches YamlNode::String(t) ==> yaml_entry(n) == EntryModel::Str(t@),
        n matches YamlNode::Array(a) ==> (yaml_entry(n) matches EntryModel::Array(ms) && ms.len()
            == a@.len() && forall|i: int| 0 <= i < a@.len() ==> ms[i] == yaml_entry(#[trigger] a@[i])),
        n matches YamlNode::Hash(h) ==> (yaml_entry(n) matches EntryModel::Table(t) && forall|k: Seq<char>|
            #![trigger lookup(t, k)]
            (lookup(t, k) is None <==> forall|i: int|
                0 <= i < h@.len() ==> !yaml_string_key((#[trigger] h@[i]).0, k))
                && forall|i: int|
                0 <= i < h@.len() && yaml_string_key((#[trigger] h@[i]).0, k)
                    && (forall|j: int| i < j < h@.len() ==> !yaml_string_key((#[trigger] h@[j]).0, k))
                    ==> lookup(t, k) == Some(yaml_entry(h@[i].1))),
{
    if let YamlNode::Hash(h) = n {
        let ms = yaml_entry_members(h@);
        let e0 = Seq::<(Seq<char>, EntryModel)>::empty();
        assert forall|k: Seq<char>| #![trigger lookup(insert_present(e0, ms), k)]
            (lookup(insert_present(e0, ms), k) is None <==> forall|i: int|
                0 <= i < h@.len() ==> !yaml_string_key((#[trigger] h@[i]).0, k))
                && forall|i: int|
                0 <= i < h@.len() && yaml_string_key((#[trigger] h@[i]).0, k)
                    && (forall|j: int| i < j < h@.len() ==> !yaml_string_key((#[trigger] h@[j]).0, k))
                    ==> lookup(insert_present(e0, ms), k) == Some(yaml_entry(h@[i].1)) by {
            lemma_insert_present_lookup(e0, ms, k);
            lemma_find_key(e0, k);
            assert forall|i: int| 0 <= i < h@.len() implies #[trigger] present_key(ms, i, k) == yaml_string_key(
                h@[i].0,
                k,
            ) && (present_key(ms, i, k) ==> ms[i]->Some_0.1 == yaml_entry(h@[i].1)) by {
                assert(ms[i] == match h@[i].0 {
                    YamlNode::String(kk) => Some((kk@, yaml_entry(h@[i].1))),
                    _ => None,
                });
            }
            if exists|i: int| 0 <= i < h@.len() && yaml_string_key((#[trigger] h@[i]).0, k) {
                let i0 = choose|i: int| 0 <= i < h@.len() && yaml_string_key((#[trigger] h@[i]).0, k);
                assert(present_key(ms, i0, k));
                lemma_last_present(ms, k, i0);
                let j = choose|j: int|
                    i0 <= j < ms.len() && #[trigger] present_key(ms, j, k) && forall|l: int|
                        j < l < ms.len() ==> !present_key(ms, l, k);
                assert(lookup(insert_present(e0, ms), k) == Some(ms[j]->Some_0.1));
            } else {
                assert forall|i: int| 0 <= i < ms.len() implies !#[trigger] present_key(ms, i, k) by {
                    assert(!yaml_string_key(h@[i].0, k));
                }
            }
            assert forall|i: int|
                0 <= i < h@.len() && yaml_string_key((#[trigger] h@[i]).0, k) && (forall|j: int|
                    i < j < h@.len() ==> !yaml_string_key((#[trigger] h@[j]).0, k)) implies lookup(
                insert_present(e0, ms),
                k,
            ) == Some(yaml_entry(h@[i].1)) by {
                assert(present_key(ms, i, k));
                assert forall|j: int| i < j < ms.len() implies !present_key(ms, j, k) by {
                    assert(!yaml_string_key(h@[j].0, k));
                }
            }
        }
    }
}

/// Converts a YAML node into an entry.
pub fn from_yaml_value(value: &YamlNode) -> (e: Entry)
    requires
        yaml_entries_defined(*value),
    ensures
        entry_model(e) == yaml_entry(*value),
    decreases value,
{
    match value {
        YamlNode::String(s) => Entry::String(copy_string(s.as_str())),
        YamlNode::Real(r) => {
            let cs = chars_of(r.as_str());
            let ok = float_text_ok(cs.as_slice());
            if !ok {
                proof {
                    assert(false);
                }
            }
            Entry::Float(copy_string(r.as_str()))
        },
        YamlNode::Integer(i) => Entry::Integer(*i),
        YamlNode::Boolean(b) => Entry::Boolean(*b),
        YamlNode::Hash(h) => {
            let mut m: Table<Entry> = Table::new();
            let mut i: usize = 0;
            while i < h.len()
                invariant
                    i <= h.len(),
                    *value == YamlNode::Hash(*h),
                    yaml_entries_defined(*value),
                    entry_pairs_model(m@) == insert_present(
                        Seq::empty(),
                        yaml_entry_members(h@).take(i as int),
                    ),
                decreases h.len() - i,
            {
                proof {
                    assert(yaml_entry_members(h@).take(i + 1).drop_last() == yaml_entry_members(
                        h@,
                    ).take(i as int));
                }
                match &h[i].0 {
                    YamlNode::String(k) => {
                        proof {
                            assert(decreases_to!(*value => value->Hash_0));
                            assert(decreases_to!(value->Hash_0 => value->Hash_0@));
                            assert(decreases_to!(value->Hash_0@ => h@[i as int]));
                            assert(yaml_entries_defined(h@[i as int].1));
                        }
                        let key = copy_string(k.as_str());
                        let v = from_yaml_value(&h[i].1);
                        let ghost m0 = m@;
                        let ghost vv = v;
                        m.insert(key, v);
                        proof {
                            lemma_entry_pairs_insert(m0, key@, vv);
                        }
                    },
                    _ => {},
                }
                i = i + 1;
            }
            proof {
                assert(yaml_entry_members(h@).take(h@.len() as int) == yaml_entry_members(h@));
                lemma_entry_model_table(m);
            }
            Entry::Table(m)
        },
        YamlNode::Array(array) => {
            let mut l: Vec<Entry> = Vec::new();
            let mut i: usize = 0;
            while i < array.len()
                invariant
                    i <= array.len(),
                    *value == YamlNode::Array(*array),
                    yaml_entries_defined(*value),
                    entry_list_model(l@) == yaml_entry_items(array@).take(i as int),
                decreases array.len() - i,
            {
                proof {
                    assert(decreases_to!(*value => value->Array_0));
                    assert(decreases_to!(value->Array_0 => value->Array_0@));
                    assert(decreases_to!(value->Array_0@ => array@[i as int]));
                    assert(yaml_entries_defined(array@[i as int]));
                }
                let v = from_yaml_value(&array[i]);
                let ghost l0 = l@;
                l.push(v);
                proof {
                    assert(entry_list_model(l@) =~= entry_list_model(l0).push(entry_model(v)));
                    assert(yaml_entry_items(array@).take(i + 1) =~= yaml_entry_items(array@).take(
                        i as int,
                    ).push(yaml_entry(array@[i as int])));
                }
                i = i + 1;
            }
            proof {
                assert(yaml_entry_items(array@).take(array@.len() as int) == yaml_entry_items(
                    array@,
                ));
                lemma_entry_model_array(l);
            }
            Entry::Array(l)
        },
        _ => {
            proof {
                assert(false);
            }
            Entry::Boolean(false)
        },
    }
}

/// A text held more than one YAML document (how many it held).
#[derive(Debug, Clone, PartialEq)]
pub struct MultipleDocumentsError(pub usize);

impl MultipleDocumentsError {
    /// The text that `Display` prints.
    pub fn to_text(&self) -> (r: String)
        ensures
            r@ == "Got "@ + decimal(self.0 as nat) + " YAML documents, expected 1"@,
    {
        let mut r = String::from_str("Got ");
        let d = decimal_u128(self.0 as u128);
        r.append(d.as_str());
        r.append(" YAML documents, expected 1");
        r
    }

    /// The short description of the error.
    pub fn description(&self) -> (r: &'static str)
        ensures
            r@ == "More than one YAML document provided"@,
    {
        "More than one YAML document provided"
    }
}

/// A YAML document held as a source.
pub struct Content {
    root: YamlNode,
}

impl Content {
    /// The document the source holds.
    pub closed spec fn root(&self) -> YamlNode {
        self.root
    }

    /// Holds the only document of `docs`; no document holds an empty hash,
    /// more than one is an error.
    pub fn parse(docs: Vec<YamlNode>) -> (r: Result<Content, MultipleDocumentsError>)
        ensures
            docs@.len() == 0 ==> (r matches Ok(c) && c.root() matches YamlNode::Hash(h)
                && h@.len() == 0),
            docs@.len() == 1 ==> (r matches Ok(c) && c.root() == docs@[0]),
            docs@.len() > 1 ==> r == Err::<Content, MultipleDocumentsError>(
                MultipleDocumentsError(docs@.len() as usize),
            ),
    {
        let n = docs.len();
        if n == 0 {
            Ok(Content { root: YamlNode::Hash(Vec::new()) })
        } else if n == 1 {
            let mut docs = docs;
            let d = docs.remove(0);
            Ok(Content { root: d })
        } else {
            Err(MultipleDocumentsError(n))
        }
    }

    /// Holds `doc`.
    pub fn from_yaml(doc: YamlNode) -> (c: Content)
        ensures
            c.root() == doc,
    {
        Content { root: doc }
    }

    /// The entries of the root hash.
    pub fn collect(&self) -> (t: Table<Entry>)
        requires
            self.root() is Hash,
            yaml_entries_defined(self.root()),
        ensures
            entry_pairs_model(t@) == insert_present(
                Seq::empty(),
                yaml_entry_members(self.root()->Hash_0@),
            ),
    {
        match from_yaml_value(&self.root) {
            Entry::Table(t) => {
                proof {
                    lemma_entry_model_table(t);
                }
                t
            },
            _ => {
                proof {
                    assert(false);
                }
                Table::new()
            },
        }
    }
}

/// Why YAML text could not be held as a source: the loader's message, or
/// more than one document.
#[derive(Debug, Clone, PartialEq)]
pub enum YamlContentError {
    Load(String),
    Multiple(MultipleDocumentsError),
}

impl Content {
    /// Holds the only document that `text` loads as, as `parse` does; a
    /// text that does not load gives the loader's message.
    pub fn parse_text(text: &str) -> (r: Result<Content, YamlContentError>)
        ensures
            match yaml_loaded(text@) {
                Ok(docs) => if docs.len() == 0 {
                    r matches Ok(c) && c.root() matches YamlNode::Hash(h) && h@.len() == 0
                } else if docs.len() == 1 {
                    r matches Ok(c) && c.root() == docs[0]
                } else {
                    r matches Err(YamlContentError::Multiple(e)) && e.0 == docs.len()
                },
                Err(m) => r matches Err(YamlContentError::Load(e)) && e@ == m,
            },
    {
        match load_yaml(text) {
            Ok(docs) => {
                let n = docs.len();
                let ghost d = docs@;
                match Content::parse(docs) {
                    Ok(c) => Ok(c),
                    Err(e) => {
                        assert(e.0 == n && n == d.len());
                        Err(YamlContentError::Multiple(e))
                    },
                }
            },
            Err(m) => Err(YamlContentError::Load(m)),
        }
    }
}

} // verus!

//! A JSON document held as a source, limited to a namespace, and collected
//! into entries.
use vstd::prelude::*;

use crate::content::{
    entry_list_model, entry_model, entry_pairs_model, lemma_entry_model_array,
    lemma_entry_model_table, lemma_entry_pairs_insert, Entry, EntryModel,
};
use crate::formats::json::{json_loaded, load_json, JsonNode};
use crate::formats::toml_namespace::opt_string_ref_view;
use crate::text::copy_string;
use crate::value::{entries_view, find_entry, find_key, insert_all, lemma_insert_all_step, Table};

use crate::value::{lemma_members_table, lookup};

verus! {

/// Every node of the document converts: no null, and every number is an
/// `i64` or a float.
pub open spec fn json_entries_defined(n: JsonNode) -> bool
    decreases n,
{
    match n {
        JsonNode::Null => false,
        JsonNode::Number(x) => x.as_i64 is Some || x.as_f64 is Some,
        JsonNode::Array(a) => forall|i: int|
            0 <= i < a@.len() ==> json_entries_defined(#[trigger] a@[i]),
        JsonNode::Object(o) => forall|i: int|
            0 <= i < o@.len() ==> json_entries_defined(#[trigger] o@[i].1),
        _ => true,
    }
}

/// The entry a JSON node converts to: numbers as integers where they fit
/// an `i64`, else as floats; objects as tables built by inserting their
/// members in order.
pub open spec fn json_entry(n: JsonNode) -> EntryModel
    decreases n, 1int,
{
    match n {
        JsonNode::String(s) => EntryModel::Str(s@),
        JsonNode::Number(x) => if x.as_i64 is Some {
            EntryModel::Integer(x.as_i64->0)
        } else {
            EntryModel::Float(x.as_f64->0@)
        },
        JsonNode::Bool(b) => EntryModel::Boolean(b),
        JsonNode::Object(o) => EntryModel::Table(insert_all(Seq::empty(), json_entry_members(o@))),
        JsonNode::Array(a) => EntryModel::Array(json_entry_items(a@)),
        JsonNode::Null => EntryModel::Boolean(false),
    }
}

pub open spec fn json_entry_items(a: Seq<JsonNode>) -> Seq<EntryModel>
    decreases a, 0int,
{
    Seq::new(
        a.len(),
        |i: int|
            if 0 <= i < a.len() {
                json_entry(a[i])
            } else {
                EntryModel::Boolean(false)
            },
    )
}

pub open spec fn json_entry_members(o: Seq<(String, JsonNode)>) -> Seq<(Seq<char>, EntryModel)>
    decreases o, 0int,
{
    Seq::new(
        o.len(),
        |i: int|
            if 0 <= i < o.len() {
                (o[i].0@, json_entry(o[i].1))
            } else {
                (Seq::empty(), EntryModel::Boolean(false))
            },
    )
}

/// Law: a JSON node converts to an entry kind for kind: a boolean to the same
/// boolean, a number to the same `i64` where it is one and else to a
/// float of its text, a string to the same string,
/// an array element for element, and an object to a table holding exactly
/// its keys, each with the conversion of the last member under it.
pub proof fn law_json_entry(n: JsonNode)
    ensures
        n matches JsonNode::Bool(b) ==> json_entry(n) == EntryModel::Boolean(b),
        n matches JsonNode::Number(x) ==> (x.as_i64 matches Some(i) ==> json_entry(n) == EntryModel::Integer(i)),
        n matches JsonNode::Number(x) ==> (x.as_i64 is None ==> json_entry(n) == EntryModel::Float(x.as_f64->0@)),
        n matches JsonNode::String(t) ==> json_entry(n) == EntryModel::Str(t@),
        n matches JsonNode::Array(a) ==> (json_entry(n) matches EntryModel::Array(ms)
            && ms.len() == a@.len() && forall|i: int|
            0 <= i < a@.len() ==> ms[i] == json_entry(#[trigger] a@[i])),
        n matches JsonNode::Object(o) ==> (json_entry(n) matches EntryModel::Table(t)
            && forall|k: Seq<char>|
            #![trigger lookup(t, k)]
            (lookup(t, k) is None <==> forall|i: int| 0 <= i < o@.len() ==> (#[trigger] o@[i]).0@ != k)
                && forall|i: int|
                0 <= i < o@.len() && (#[trigger] o@[i]).0@ == k && (forall|j: int|
                    i < j < o@.len() ==> o@[j].0@ != k) ==> lookup(t, k) == Some(
                    json_entry(o@[i].1),
                )),
{
    if let JsonNode::Object(o) = n {
        let ms = json_entry_members(o@);
        assert forall|k: Seq<char>| #![trigger lookup(insert_all(Seq::empty(), ms), k)]
            (lookup(insert_all(Seq::empty(), ms), k) is None <==> forall|i: int|
                0 <= i < o@.len() ==> (#[trigger] o@[i]).0@ != k) && forall|i: int|
                0 <= i < o@.len() && (#[trigger] o@[i]).0@ == k && (forall|j: int|
                    i < j < o@.len() ==> o@[j].0@ != k) ==> lookup(insert_all(Seq::empty(), ms), k)
                    == Some(json_entry(o@[i].1)) by {
            lemma_members_table(
                o@,
                |e: (String, JsonNode)| e.0@,
                |e: (String, JsonNode)| json_entry(e.1),
                ms,
                k,
            );
        }
    }
}

/// Converts a JSON node into an entry.
pub fn from_json_value(value: &JsonNode) -> (e: Entry)
    requires
        json_entries_defined(*value),
    ensures
        entry_model(e) == json_entry(*value),
    decreases value,
{
    match value {
        JsonNode::String(s) => Entry::String(copy_string(s.as_str())),
        JsonNode::Number(x) => {
            if let Some(i) = x.as_i64 {
                Entry::Integer(i)
            } else if let Some(f) = &x.as_f64 {
                Entry::Float(copy_string(f.as_str()))
            } else {
                proof {
                    assert(false);
                }
                Entry::Boolean(false)
            }
        },
        JsonNode::Bool(b) => Entry::Boolean(*b),
        JsonNode::Object(obj) => {
            let mut m: Table<Entry> = Table::new();
            let mut i: usize = 0;
            while i < obj.len()
                invariant
                    i <= obj.len(),
                    *value == JsonNode::Object(*obj),
                    json_entries_defined(*value),
                    entry_pairs_model(m@) == insert_all(
                        Seq::empty(),
                        json_entry_members(obj@).take(i as int),
                    ),
                decreases obj.len() - i,
            {
                proof {
                    assert(decreases_to!(*value => value->Object_0));
                    assert(decreases_to!(value->Object_0 => value->Object_0@));
                    assert(decreases_to!(value->Object_0@ => obj@[i as int]));
                    assert(json_entries_defined(obj@[i as int].1));
                }
                let key = copy_string(obj[i].0.as_str());
                let v = from_json_value(&obj[i].1);
                let ghost m0 = m@;
                let ghost vv = v;
                m.insert(key, v);
                proof {
                    lemma_entry_pairs_insert(m0, key@, vv);
                    lemma_insert_all_step(Seq::empty(), json_entry_members(obj@), i as int);
                }
                i = i + 1;
            }
            proof {
                assert(json_entry_members(obj@).take(obj@.len() as int) == json_entry_members(
                    obj@,
                ));
                lemma_entry_model_table(m);
            }
            Entry::Table(m)
        },
        JsonNode::Array(array) => {
            let mut l: Vec<Entry> = Vec::new();
            let mut i: usize = 0;
            while i < array.len()
                invariant
                    i <= array.len(),
                    *value == JsonNode::Array(*array),
                    json_entries_defined(*value),
                    entry_list_model(l@) == json_entry_items(array@).take(i as int),
                decreases array.len() - i,
            {
                proof {
                    assert(decreases_to!(*value => value->Array_0));
                    assert(decreases_to!(value->Array_0 => value->Array_0@));
                    assert(decreases_to!(value->Array_0@ => array@[i as int]));
                    assert(json_entries_defined(array@[i as int]));
                }
                let v = from_json_value(&array[i]);
                let ghost l0 = l@;
                l.push(v);
                proof {
                    assert(entry_list_model(l@) =~= entry_list_model(l0).push(entry_model(v)));
                    assert(json_entry_items(array@).take(i + 1) =~= json_entry_items(array@).take(
                        i as int,
                    ).push(json_entry(array@[i as int])));
                }
                i = i + 1;
            }
            proof {
                assert(json_entry_items(array@).take(array@.len() as int) == json_entry_items(
                    array@,
                ));
                lemma_entry_model_array(l);
            }
            Entry::Array(l)
        },
        JsonNode::Null => {
            proof {
                assert(false);
            }
            Entry::Boolean(false)
        },
    }
}

/// The document a source holds for `root` under an optional namespace: a
/// root object is replaced by its member under the namespace, or by an
/// empty object when it has none.
pub open spec fn namespaced_root(root: JsonNode, ns: Option<Seq<char>>, held: JsonNode) -> bool {
    match ns {
        None => held == root,
        Some(n) => match root {
            JsonNode::Object(o) => {
                let i = find_key(entries_view(o@), n);
                if i >= 0 {
                    held == o@[i].1
                } else {
                    held matches JsonNode::Object(e) && e@.len() == 0
                }
            },
            _ => held == root,
        },
    }
}

/// A JSON document held as a source.
pub struct Content {
    root: JsonNode,
}

impl Content {
    /// The document the source holds.
    pub closed spec fn root(&self) -> JsonNode {
        self.root
    }

    /// Holds `root`; with a namespace, a root object is replaced by its
    /// member under that key, or by an empty object when it has none.
    pub fn parse(root: JsonNode, namespace: Option<&String>) -> (c: Content)
        ensures
            namespaced_root(root, opt_string_ref_view(namespace), c.root()),
    {
        match namespace {
            None => Content { root },
            Some(ns) => match root {
                JsonNode::Object(members) => {
                    let mut members = members;
                    match find_entry(&members, ns.as_str()) {
                        Some(i) => {
                            let (_, v) = members.remove(i);
                            Content { root: v }
                        },
                        None => Content { root: JsonNode::Object(Vec::new()) },
                    }
                },
                other => Content { root: other },
            },
        }
    }

    /// The entries of the root object.
    pub fn collect(&self) -> (t: Table<Entry>)
        requires
            self.root() is Object,
            json_entries_defined(self.root()),
        ensures
            entry_pairs_model(t@) == insert_all(
                Seq::empty(),
                json_entry_members(self.root()->Object_0@),
            ),
    {
        match from_json_value(&self.root) {
            Entry::Table(t) => {
                proof {
                    lemma_entry_model_table(t);
                }
                t
            },
            _ => {
                proof {
                    assert(false);
                }
                Table::new()
            },
        }
    }
}

impl Content {
    /// Holds the JSON document that `text` reads as, limited to the
    /// namespace as `parse` does; a text that does not read gives the
    /// parser's message.
    pub fn parse_text(text: &str, namespace: Option<&String>) -> (r: Result<Content, String>)
        ensures
            match json_loaded(text@) {
                Ok(root) => r matches Ok(c) && namespaced_root(
                    root,
                    opt_string_ref_view(namespace),
                    c.root(),
                ),
                Err(m) => r matches Err(e) && e@ == m,
            },
    {
        match load_json(text) {
            Ok(root) => Ok(Content::parse(root, namespace)),
            Err(m) => Err(m),
        }
    }
}

} // verus!

//! A TOML document held as a source, limited to a namespace, and collected
//! into entries.
use vstd::prelude::*;

use crate::content::{
    entry_list_model, entry_model, entry_pairs_model, lemma_entry_model_array,
    lemma_entry_model_table, lemma_entry_pairs_insert, Entry, EntryModel,
};
use crate::formats::toml_format::{load_toml, toml_loaded, TomlNode};
use crate::formats::toml_namespace::{namespace_entries, toml_no_datetime};
use crate::text::copy_string;
use crate::value::{insert_all, lemma_insert_all_step, find_entry, Table};

use crate::value::{lemma_members_table, lookup};

verus! {

/// The entry a TOML node converts to; tables become tables built by
/// inserting their entries in order.
pub open spec fn toml_entry(n: TomlNode) -> EntryModel
    decreases n, 1int,
{
    match n {
        TomlNode::String(s) => EntryModel::Str(s@),
        TomlNode::Float(f) => EntryModel::Float(f@),
        TomlNode::Integer(i) => EntryModel::Integer(i),
        TomlNode::Boolean(b) => EntryModel::Boolean(b),
        TomlNode::Table(o) => EntryModel::Table(insert_all(Seq::empty(), toml_entry_members(o@))),
        TomlNode::Array(a) => EntryModel::Array(toml_entry_items(a@)),
        TomlNode::Datetime(_) => EntryModel::Boolean(false),
    }
}

pub open spec fn toml_entry_items(a: Seq<TomlNode>) -> Seq<EntryModel>
    decreases a, 0int,
{
    Seq::new(
        a.len(),
        |i: int|
            if 0 <= i < a.len() {
                toml_entry(a[i])
            } else {
                EntryModel::Boolean(false)
            },
    )
}

pub open spec fn toml_entry_members(o: Seq<(String, TomlNode)>) -> Seq<(Seq<char>, EntryModel)>
    decreases o, 0int,
{
    Seq::new(
        o.len(),
        |i: int|
            if 0 <= i < o.len() {
                (o[i].0@, toml_entry(o[i].1))
            } else {
                (Seq::empty(), EntryModel::Boolean(false))
            },
    )
}

/// Law: a TOML node converts to an entry kind for kind: a boolean to the same
/// boolean, an integer to the same integer, a float and a string to the
/// same text, an array element for element, and a table to a table
/// holding exactly its keys, each with the conversion of the last entry
/// under it.
pub proof fn law_toml_entry(n: TomlNode)
    ensures
        n matches TomlNode::Boolean(b) ==> toml_entry(n) == EntryModel::Boolean(b),
        n matches TomlNode::Integer(i) ==> toml_entry(n) == EntryModel::Integer(i),
        n matches TomlNode::Float(f) ==> toml_entry(n) == EntryModel::Float(f@),
        n matches TomlNode::String(t) ==> toml_entry(n) == EntryModel::Str(t@),
        n matches TomlNode::Array(a) ==> (toml_entry(n) matches EntryModel::Array(ms)
            && ms.len() == a@.len() && forall|i: int|
            0 <= i < a@.len() ==> ms[i] == toml_entry(#[trigger] a@[i])),
        n matches TomlNode::Table(o) ==> (toml_entry(n) matches EntryModel::Table(t)
            && forall|k: Seq<char>|
            #![trigger lookup(t, k)]
            (lookup(t, k) is None <==> forall|i: int| 0 <= i < o@.len() ==> (#[trigger] o@[i]).0@ != k)
                && forall|i: int|
                0 <= i < o@.len() && (#[trigger] o@[i]).0@ == k && (forall|j: int|
                    i < j < o@.len() ==> o@[j].0@ != k) ==> lookup(t, k) == Some(
                    toml_entry(o@[i].1),
                )),
{
    if let TomlNode::Table(o) = n {
        let ms = toml_entry_members(o@);
        assert forall|k: Seq<char>| #![trigger lookup(insert_all(Seq::empty(), ms), k)]
            (lookup(insert_all(Seq::empty(), ms), k) is None <==> forall|i: int|
                0 <= i < o@.len() ==> (#[trigger] o@[i]).0@ != k) && forall|i: int|
                0 <= i < o@.len() && (#[trigger] o@[i]).0@ == k && (forall|j: int|
                    i < j < o@.len() ==> o@[j].0@ != k) ==> lookup(insert_all(Seq::empty(), ms), k)
                    == Some(toml_entry(o@[i].1)) by {
            lemma_members_table(
                o@,
                |e: (String, TomlNode)| e.0@,
                |e: (String, TomlNode)| toml_entry(e.1),
                ms,
                k,
            );
        }
    }
}

/// Converts a TOML node (without datetimes, which this reader leaves
/// unimplemented) into an entry.
pub fn from_toml_value(value: &TomlNode) -> (e: Entry)
    requires
        toml_no_datetime(*value),
    ensures
        entry_model(e) == toml_entry(*value),
    decreases value,
{
    match value {
        TomlNode::String(s) => Entry::String(copy_string(s.as_str())),
        TomlNode::Float(f) => Entry::Float(copy_string(f.as_str())),
        TomlNode::Integer(i) => Entry::Integer(*i),
        TomlNode::Boolean(b) => Entry::Boolean(*b),
        TomlNode::Table(obj) => {
            let mut m: Table<Entry> = Table::new();
            let mut i: usize = 0;
            while i < obj.len()
                invariant
                    i <= obj.len(),
                    *value == TomlNode::Table(*obj),
                    toml_no_datetime(*value),
                    entry_pairs_model(m@) == insert_all(
                        Seq::empty(),
                        toml_entry_members(obj@).take(i as int),
                    ),
                decreases obj.len() - i,
            {
                proof {
                    assert(decreases_to!(*value => value->Table_0));
                    assert(decreases_to!(value->Table_0 => value->Table_0@));
                    assert(decreases_to!(value->Table_0@ => obj@[i as int]));
                    assert(toml_no_datetime(obj@[i as int].1));
                }
                let key = copy_string(obj[i].0.as_str());
                let v = from_toml_value(&obj[i].1);
                let ghost m0 = m@;
                let ghost vv = v;
                m.insert(key, v);
                proof {
                    lemma_entry_pairs_insert(m0, key@, vv);
                    lemma_insert_all_step(Seq::empty(), toml_entry_members(obj@), i as int);
                }
                i = i + 1;
            }
            proof {
                assert(toml_entry_members(obj@).take(obj@.len() as int) == toml_entry_members(
                    obj@,
                ));
                lemma_entry_model_table(m);
            }
            Entry::Table(m)
        },
        TomlNode::Array(array) => {
            let mut l: Vec<Entry> = Vec::new();
            let mut i: usize = 0;
            while i < array.len()
                invariant
                    i <= array.len(),
                    *value == TomlNode::Array(*array),
                    toml_no_datetime(*value),
                    entry_list_model(l@) == toml_entry_items(array@).take(i as int),
                decreases array.len() - i,
            {
                proof {
                    assert(decreases_to!(*value => value->Array_0));
                    assert(decreases_to!(value->Array_0 => value->Array_0@));
                    assert(decreases_to!(value->Array_0@ => array@[i as int]));
                    assert(toml_no_datetime(array@[i as int]));
                }
                let v = from_toml_value(&array[i]);
                let ghost l0 = l@;
                l.push(v);
                proof {
                    assert(entry_list_model(l@) =~= entry_list_model(l0).push(entry_model(v)));
                    assert(toml_entry_items(array@).take(i + 1) =~= toml_entry_items(array@).take(
                        i as int,
                    ).push(toml_entry(array@[i as int])));
                }
                i = i + 1;
            }
            proof {
                assert(toml_entry_items(array@).take(array@.len() as int) == toml_entry_items(
                    array@,
                ));
                lemma_entry_model_array(l);
            }
            Entry::Array(l)
        },
        TomlNode::Datetime(_) => {
            proof {
                assert(false);
            }
            Entry::Boolean(false)
        },
    }
}

/// A TOML document held as a source: always a table.
pub struct Content {
    root: TomlNode,
}

impl Content {
    #[verifier::type_invariant]
    spec fn root_is_table(self) -> bool {
        self.root is Table
    }

    /// The document the source holds.
    pub closed spec fn root(&self) -> TomlNode {
        self.root
    }

    /// Holds the table `root`; with a namespace, only the table stored
    /// under that key of the root is kept (an empty table when there is
    /// none).
    pub fn parse(root: Vec<(String, TomlNode)>, namespace: Option<&String>) -> (c: Content)
        ensures
            c.root() is Table,
            c.root()->Table_0@ == match namespace {
                None => root@,
                Some(n) => namespace_entries(TomlNode::Table(root), n@),
            },
    {
        match namespace {
            None => Content { root: TomlNode::Table(root) },
            Some(ns) => {
                let ghost r0 = root;
                let mut t = root;
                let entries: Vec<(String, TomlNode)> = match find_entry(&t, ns.as_str()) {
                    Some(i) => {
                        let (_, sub) = t.remove(i);
                        match sub {
                            TomlNode::Table(tt) => tt,
                            _ => Vec::new(),
                        }
                    },
                    None => Vec::new(),
                };
                proof {
                    assert(entries@ == namespace_entries(TomlNode::Table(r0), ns@));
                }
                Content { root: TomlNode::Table(entries) }
            },
        }
    }

    /// The entries of the root table.
    pub fn collect(&self) -> (t: Table<Entry>)
        requires
            toml_no_datetime(self.root()),
        ensures
            self.root() is Table,
            entry_pairs_model(t@) == insert_all(
                Seq::empty(),
                toml_entry_members(self.root()->Table_0@),
            ),
    {
        proof {
            use_type_invariant(self);
        }
        match from_toml_value(&self.root) {
            Entry::Table(t) => {
                proof {
                    lemma_entry_model_table(t);
                }
                t
            },
            _ => {
                proof {
                    assert(false);
                }
                Table::new()
            },
        }
    }
}

impl Content {
    /// Holds the TOML document that `text` reads as, limited to the
    /// namespace as `parse` does; the text must read (the reader unwraps
    /// the parse).
    pub fn parse_text(text: &str, namespace: Option<&String>) -> (c: Content)
        requires
            toml_loaded(text@) is Ok,
        ensures
            c.root() is Table,
            c.root()->Table_0@ == match namespace {
                None => toml_loaded(text@)->Ok_0->Table_0@,
                Some(n) => namespace_entries(toml_loaded(text@)->Ok_0, n@),
            },
    {
        match load_toml(text) {
            Ok(TomlNode::Table(t)) => Content::parse(t, namespace),
            _ => {
                proof {
                    assert(false);
                }
                Content::parse(Vec::new(), None)
            },
        }
    }

    /// Holds the TOML document that `text` reads as, as `parse_text` does;
    /// `None` where the text does not read.
    pub fn parse_text_checked(text: &str, namespace: Option<&String>) -> (r: Option<Content>)
        ensures
            r is None <==> toml_loaded(text@) is Err,
            r matches Some(c) ==> c.root() is Table && c.root()->Table_0@ == match namespace {
                None => toml_loaded(text@)->Ok_0->Table_0@,
                Some(n) => namespace_entries(toml_loaded(text@)->Ok_0, n@),
            },
    {
        match load_toml(text) {
            Ok(_) => Some(Content::parse_text(text, namespace)),
            Err(_) => None,
        }
    }
}

} // verus!

//! Sources that hold a parsed document and collect it into a table of
//! entries: the JSON, TOML and YAML readers of the flat entry model.
use vstd::prelude::*;

use crate::value::{find_key, insert_key, lemma_find_key, lemma_find_key_at, Table};

pub mod json;
pub mod toml_content;
pub mod yaml;

verus! {

/// A collected entry: a scalar, a table of entries or an array of them.
/// Floats are carried as their decimal text.
#[derive(Debug, PartialEq)]
pub enum Entry {
    String(String),
    Integer(i64),
    Float(String),
    Boolean(bool),
    Table(Table<Entry>),
    Array(Vec<Entry>),
}

/// Model of an entry: strings by their characters, tables by their
/// entries in order.
pub enum EntryModel {
    Str(Seq<char>),
    Integer(i64),
    Float(Seq<char>),
    Boolean(bool),
    Table(Seq<(Seq<char>, EntryModel)>),
    Array(Seq<EntryModel>),
}

pub open spec fn entry_model(e: Entry) -> EntryModel
    decreases e,
{
    match e {
        Entry::String(s) => EntryModel::Str(s@),
        Entry::Integer(i) => EntryModel::Integer(i),
        Entry::Float(f) => EntryModel::Float(f@),
        Entry::Boolean(b) => EntryModel::Boolean(b),
        Entry::Table(t) => EntryModel::Table(
            Seq::new(
                t.entries@.len(),
                |i: int|
                    if 0 <= i < t.entries@.len() {
                        (t.entries@[i].0@, entry_model(t.entries@[i].1))
                    } else {
                        (Seq::empty(), EntryModel::Boolean(false))
                    },
            ),
        ),
        Entry::Array(a) => EntryModel::Array(
            Seq::new(
                a@.len(),
                |i: int|
                    if 0 <= i < a@.len() {
                        entry_model(a@[i])
                    } else {
                        EntryModel::Boolean(false)
                    },
            ),
        ),
    }
}

pub open spec fn entry_pairs_model(s: Seq<(Seq<char>, Entry)>) -> Seq<(Seq<char>, EntryModel)> {
    s.map_values(|e: (Seq<char>, Entry)| (e.0, entry_model(e.1)))
}

pub open spec fn entry_list_model(s: Seq<Entry>) -> Seq<EntryModel> {
    s.map_values(|e: Entry| entry_model(e))
}

pub proof fn lemma_entry_model_table(t: Table<Entry>)
    ensures
        entry_model(Entry::Table(t)) == EntryModel::Table(entry_pairs_model(t@)),
{
    let s = entry_model(Entry::Table(t))->Table_0;
    assert(s =~= entry_pairs_model(t@));
}

pub proof fn lemma_entry_model_array(a: Vec<Entry>)
    ensures
        entry_model(Entry::Array(a)) == EntryModel::Array(entry_list_model(a@)),
{
    let s = entry_model(Entry::Array(a))->Array_0;
    assert(s =~= entry_list_model(a@));
}

pub proof fn lemma_entry_pairs_insert(s: Seq<(Seq<char>, Entry)>, k: Seq<char>, v: Entry)
    ensures
        entry_pairs_model(insert_key(s, k, v)) == insert_key(
            entry_pairs_model(s),
            k,
            entry_model(v),
        ),
{
    let m = entry_pairs_model(s);
    lemma_find_key(s, k);
    lemma_find_key_at(m, k, find_key(s, k));
    assert(entry_pairs_model(insert_key(s, k, v)) =~= insert_key(m, k, entry_model(v)));
}

} // verus!

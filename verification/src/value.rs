//! Configuration values and the string-keyed tables that hold them.
//!
//! A `Table` keeps its entries in insertion order; inserting an existing
//! key replaces its value in place, and removing a key moves the last
//! entry into the vacated position (the behaviour of an insertion-ordered
//! hash map).
use vstd::prelude::*;

use crate::text::copy_string;

verus! {

// ---------------------------------------------------------------------
// Association sequences: the model of a table
// ---------------------------------------------------------------------
/// Position of the first entry with key `k`, or -1.
pub open spec fn find_key<K, M>(s: Seq<(K, M)>, k: K) -> int
    decreases s.len(),
{
    if s.len() == 0 {
        -1
    } else if s[0].0 == k {
        0
    } else {
        let r = find_key(s.drop_first(), k);
        if r < 0 {
            -1
        } else {
            r + 1
        }
    }
}

/// The value stored under `k`.
pub open spec fn lookup<K, M>(s: Seq<(K, M)>, k: K) -> Option<M> {
    let i = find_key(s, k);
    if i >= 0 {
        Some(s[i].1)
    } else {
        None
    }
}

/// Inserting `v` under `k`: replaces the value in place when `k` is
/// present, appends otherwise.
pub open spec fn insert_key<K, M>(s: Seq<(K, M)>, k: K, v: M) -> Seq<(K, M)> {
    let i = find_key(s, k);
    if i >= 0 {
        s.update(i, (k, v))
    } else {
        s.push((k, v))
    }
}

/// Removing `k`: the last entry takes the removed entry's place.
pub open spec fn remove_key<K, M>(s: Seq<(K, M)>, k: K) -> Seq<(K, M)> {
    let i = find_key(s, k);
    if i < 0 {
        s
    } else if i == s.len() - 1 {
        s.drop_last()
    } else {
        s.update(i, s.last()).drop_last()
    }
}

/// Inserting every entry of `t`, in order, into `s`.
pub open spec fn insert_all<K, M>(s: Seq<(K, M)>, t: Seq<(K, M)>) -> Seq<(K, M)>
    decreases t.len(),
{
    if t.len() == 0 {
        s
    } else {
        insert_key(insert_all(s, t.drop_last()), t.last().0, t.last().1)
    }
}

pub proof fn lemma_insert_all_step<K, M>(s: Seq<(K, M)>, t: Seq<(K, M)>, i: int)
    requires
        0 <= i < t.len(),
    ensures
        insert_all(s, t.take(i + 1)) == insert_key(insert_all(s, t.take(i)), t[i].0, t[i].1),
{
    assert(t.take(i + 1).drop_last() == t.take(i));
}

/// After inserting every entry of `t` into `s`, a key is present exactly
/// where it was present in `s` or is the key of an entry of `t`.
pub proof fn lemma_insert_all_has_key<K, M>(s: Seq<(K, M)>, t: Seq<(K, M)>, k: K)
    ensures
        (lookup(insert_all(s, t), k) is Some) == (lookup(s, k) is Some || exists|i: int|
            0 <= i < t.len() && #[trigger] t[i].0 == k),
    decreases t.len(),
{
    if t.len() > 0 {
        let p = t.drop_last();
        lemma_insert_all_has_key(s, p, k);
        lemma_insert_lookup(insert_all(s, p), t.last().0, t.last().1, k);
        if exists|i: int| 0 <= i < t.len() && #[trigger] t[i].0 == k {
            let i = choose|i: int| 0 <= i < t.len() && #[trigger] t[i].0 == k;
            if i < t.len() - 1 {
                assert(p[i].0 == k);
            }
        }
        if exists|i: int| 0 <= i < p.len() && #[trigger] p[i].0 == k {
            let i = choose|i: int| 0 <= i < p.len() && #[trigger] p[i].0 == k;
            assert(t[i].0 == k);
        }
        if t.last().0 == k {
            assert(t[t.len() - 1].0 == k);
        }
    }
}

/// After inserting every entry of `t` into `s`, a key that no entry of `t`
/// has keeps its value from `s`, and a key that entries of `t` have holds
/// the value of the last of them.
pub proof fn lemma_insert_all_lookup<K, M>(s: Seq<(K, M)>, t: Seq<(K, M)>, k: K)
    ensures
        (forall|i: int| 0 <= i < t.len() ==> (#[trigger] t[i]).0 != k) ==> lookup(insert_all(s, t), k)
            == lookup(s, k),
        forall|i: int|
            0 <= i < t.len() && (#[trigger] t[i]).0 == k && (forall|j: int| i < j < t.len() ==> t[j].0 != k)
                ==> lookup(insert_all(s, t), k) == Some(t[i].1),
    decreases t.len(),
{
    if t.len() > 0 {
        let p = t.drop_last();
        lemma_insert_all_lookup(s, p, k);
        lemma_insert_lookup(insert_all(s, p), t.last().0, t.last().1, k);
        if forall|i: int| 0 <= i < t.len() ==> (#[trigger] t[i]).0 != k {
            assert forall|i: int| 0 <= i < p.len() implies (#[trigger] p[i]).0 != k by {
                assert(p[i] == t[i]);
            }
        }
        assert forall|i: int|
            0 <= i < t.len() && (#[trigger] t[i]).0 == k && (forall|j: int| i < j < t.len() ==> t[j].0 != k)
            implies lookup(insert_all(s, t), k) == Some(t[i].1) by {
            if i < t.len() - 1 {
                assert(t[t.len() - 1].0 != k);
                assert(p[i] == t[i]);
                assert forall|j: int| i < j < p.len() implies p[j].0 != k by {
                    assert(p[j] == t[j]);
                }
            }
        }
    }
}

/// A table built by inserting, in order, one entry per element of `es`
/// (its key `key(e)`, its value `val(e)`) holds a key exactly when some
/// element has it, with the value of the last such element.
pub proof fn lemma_members_table<E, K, M>(
    es: Seq<E>,
    key: spec_fn(E) -> K,
    val: spec_fn(E) -> M,
    ms: Seq<(K, M)>,
    k: K,
)
    requires
        ms.len() == es.len(),
        forall|i: int| 0 <= i < es.len() ==> #[trigger] ms[i] == (key(es[i]), val(es[i])),
    ensures
        lookup(insert_all(Seq::empty(), ms), k) is None <==> forall|i: int|
            0 <= i < es.len() ==> key(#[trigger] es[i]) != k,
        forall|i: int|
            0 <= i < es.len() && key(#[trigger] es[i]) == k && (forall|j: int|
                i < j < es.len() ==> key(es[j]) != k) ==> lookup(insert_all(Seq::empty(), ms), k)
                == Some(val(es[i])),
{
    let e0 = Seq::<(K, M)>::empty();
    lemma_insert_all_has_key(e0, ms, k);
    lemma_insert_all_lookup(e0, ms, k);
    lemma_find_key(e0, k);
    assert forall|i: int| 0 <= i < es.len() && key(#[trigger] es[i]) == k implies ms[i].0 == k by {
        assert(ms[i] == (key(es[i]), val(es[i])));
    }
    if forall|i: int| 0 <= i < es.len() ==> key(#[trigger] es[i]) != k {
        assert forall|i: int| 0 <= i < ms.len() implies #[trigger] ms[i].0 != k by {
            assert(ms[i] == (key(es[i]), val(es[i])));
        }
    }
    if exists|i: int| 0 <= i < ms.len() && #[trigger] ms[i].0 == k {
        let i = choose|i: int| 0 <= i < ms.len() && #[trigger] ms[i].0 == k;
        assert(ms[i] == (key(es[i]), val(es[i])));
    }
    assert forall|i: int|
        0 <= i < es.len() && key(#[trigger] es[i]) == k && (forall|j: int|
            i < j < es.len() ==> key(es[j]) != k) implies lookup(insert_all(e0, ms), k) == Some(
        val(es[i]),
    ) by {
        assert(ms[i] == (key(es[i]), val(es[i])));
        assert forall|j: int| i < j < ms.len() implies ms[j].0 != k by {
            assert(ms[j] == (key(es[j]), val(es[j])));
        }
    }
}

/// No key occurs twice.
pub open spec fn keys_unique<K, M>(s: Seq<(K, M)>) -> bool {
    forall|i: int, j: int| 0 <= i < j < s.len() ==> s[i].0 != s[j].0
}

pub proof fn lemma_find_key<K, M>(s: Seq<(K, M)>, k: K)
    ensures
        -1 <= find_key(s, k) < s.len(),
        find_key(s, k) >= 0 ==> s[find_key(s, k)].0 == k,
        forall|j: int| 0 <= j < s.len() && (find_key(s, k) < 0 || j < find_key(s, k)) ==> s[j].0
            != k,
    decreases s.len(),
{
    if s.len() > 0 && s[0].0 != k {
        lemma_find_key(s.drop_first(), k);
        assert forall|j: int|
            0 <= j < s.len() && (find_key(s, k) < 0 || j < find_key(s, k)) implies s[j].0 != k by {
            if j > 0 {
                assert(s[j] == s.drop_first()[j - 1]);
            }
        }
    }
}

/// Characterises `find_key` by a first match found by scanning.
pub proof fn lemma_find_key_at<K, M>(s: Seq<(K, M)>, k: K, i: int)
    requires
        -1 <= i < s.len(),
        i >= 0 ==> s[i].0 == k,
        forall|j: int| 0 <= j < s.len() && (i < 0 || j < i) ==> s[j].0 != k,
    ensures
        find_key(s, k) == i,
{
    lemma_find_key(s, k);
}

/// Law: what a lookup reads after an insert of the same key is the
/// inserted value; other keys read what they read before.
pub proof fn lemma_insert_lookup<K, M>(s: Seq<(K, M)>, k: K, v: M, k2: K)
    ensures
        lookup(insert_key(s, k, v), k) == Some(v),
        k2 != k ==> lookup(insert_key(s, k, v), k2) == lookup(s, k2),
{
    lemma_find_key(s, k);
    lemma_find_key(s, k2);
    let t = insert_key(s, k, v);
    lemma_find_key(t, k);
    lemma_find_key(t, k2);
    let i = find_key(s, k);
    if i >= 0 {
        lemma_find_key_at(t, k, i);
        if k2 != k {
            lemma_find_key_at(t, k2, find_key(s, k2));
        }
    } else {
        lemma_find_key_at(t, k, s.len() as int);
        if k2 != k {
            lemma_find_key_at(t, k2, find_key(s, k2));
        }
    }
}

/// Law: inserting keeps keys unique.
pub proof fn lemma_insert_unique<K, M>(s: Seq<(K, M)>, k: K, v: M)
    requires
        keys_unique(s),
    ensures
        keys_unique(insert_key(s, k, v)),
{
    lemma_find_key(s, k);
}

/// Law: inserting a run of entries keeps keys unique.
pub proof fn lemma_insert_all_unique<K, M>(s: Seq<(K, M)>, t: Seq<(K, M)>)
    requires
        keys_unique(s),
    ensures
        keys_unique(insert_all(s, t)),
    decreases t.len(),
{
    if t.len() > 0 {
        lemma_insert_all_unique(s, t.drop_last());
        lemma_insert_unique(insert_all(s, t.drop_last()), t.last().0, t.last().1);
    }
}

/// Law: inserting entries with distinct keys into an empty table gives
/// them back as they are, in order.
pub proof fn lemma_insert_all_distinct<K, M>(t: Seq<(K, M)>)
    requires
        keys_unique(t),
    ensures
        insert_all(Seq::empty(), t) == t,
    decreases t.len(),
{
    if t.len() > 0 {
        let p = t.drop_last();
        assert forall|i: int, j: int| 0 <= i < j < p.len() implies p[i].0 != p[j].0 by {
            assert(p[i] == t[i] && p[j] == t[j]);
        }
        lemma_insert_all_distinct(p);
        assert forall|j: int| 0 <= j < p.len() implies p[j].0 != t.last().0 by {
            assert(p[j] == t[j]);
        }
        lemma_find_key_at(p, t.last().0, -1);
        assert(p.push(t.last()) == t);
    }
}

/// Law: removing a key makes it absent and leaves the other keys' values.
pub proof fn lemma_remove_lookup<K, M>(s: Seq<(K, M)>, k: K, k2: K)
    requires
        keys_unique(s),
    ensures
        lookup(remove_key(s, k), k) is None,
        k2 != k ==> lookup(remove_key(s, k), k2) == lookup(s, k2),
        keys_unique(remove_key(s, k)),
{
    lemma_find_key(s, k);
    lemma_find_key(s, k2);
    let t = remove_key(s, k);
    lemma_find_key(t, k);
    lemma_find_key(t, k2);
    let i = find_key(s, k);
    if i >= 0 {
        assert forall|j: int| 0 <= j < t.len() implies t[j].0 != k by {
            if j == i && i != s.len() - 1 {
                assert(t[j] == s.last());
            } else {
                assert(t[j] == s[j]);
            }
        }
        lemma_find_key_at(t, k, -1);
        if k2 != k {
            let i2 = find_key(s, k2);
            if i2 < 0 {
                assert forall|j: int| 0 <= j < t.len() implies t[j].0 != k2 by {
                    if j == i && i != s.len() - 1 {
                        assert(t[j] == s.last());
                    } else {
                        assert(t[j] == s[j]);
                    }
                }
                lemma_find_key_at(t, k2, -1);
            } else if i2 == s.len() - 1 && i != s.len() - 1 {
                assert forall|j: int| 0 <= j < t.len() && j < i implies t[j].0 != k2 by {
                    assert(t[j] == s[j]);
                }
                lemma_find_key_at(t, k2, i);
            } else {
                assert(i2 != i);
                assert forall|j: int| 0 <= j < t.len() && j < i2 implies t[j].0 != k2 by {
                    if j == i && i != s.len() - 1 {
                        assert(t[j] == s.last());
                    } else {
                        assert(t[j] == s[j]);
                    }
                }
                lemma_find_key_at(t, k2, i2);
            }
        }
    }
}

// ---------------------------------------------------------------------
// Tables
// ---------------------------------------------------------------------
/// An insertion-ordered table from string keys to values.
#[derive(Debug, PartialEq)]
pub struct Table<V> {
    pub entries: Vec<(String, V)>,
}

pub open spec fn entry_view<V>(e: (String, V)) -> (Seq<char>, V) {
    (e.0@, e.1)
}

impl<V> View for Table<V> {
    type V = Seq<(Seq<char>, V)>;

    open spec fn view(&self) -> Seq<(Seq<char>, V)> {
        self.entries@.map_values(|e: (String, V)| entry_view(e))
    }
}

/// Entries with their keys by characters.
pub open spec fn entries_view<X>(s: Seq<(String, X)>) -> Seq<(Seq<char>, X)> {
    s.map_values(|e: (String, X)| entry_view(e))
}

/// Position of the first entry with key `k`, as `find_key` defines it.
pub fn find_entry<X>(v: &Vec<(String, X)>, k: &str) -> (r: Option<usize>)
    ensures
        match r {
            Some(i) => i < v@.len() && find_key(entries_view(v@), k@) == i,
            None => find_key(entries_view(v@), k@) == -1,
        },
{
    let ks = copy_string(k);
    let ghost m = entries_view(v@);
    let mut i: usize = 0;
    while i < v.len()
        invariant
            i <= v.len(),
            ks@ == k@,
            m == entries_view(v@),
            forall|j: int| 0 <= j < i ==> m[j].0 != k@,
        decreases v.len() - i,
    {
        if v[i].0 == ks {
            proof {
                lemma_find_key_at(m, k@, i as int);
            }
            return Some(i);
        }
        i = i + 1;
    }
    proof {
        lemma_find_key_at(m, k@, -1);
    }
    None
}

impl<V> Table<V> {
    /// An empty table.
    pub fn new() -> (t: Self)
        ensures
            t@ == Seq::<(Seq<char>, V)>::empty(),
    {
        let t = Table { entries: Vec::new() };
        assert(t@ =~= Seq::<(Seq<char>, V)>::empty());
        t
    }

    /// Number of entries.
    pub fn len(&self) -> (n: usize)
        ensures
            n == self@.len(),
    {
        self.entries.len()
    }

    /// Position of `k`, as `find_key` defines it.
    pub fn position(&self, k: &str) -> (r: Option<usize>)
        ensures
            match r {
                Some(i) => i < self@.len() && find_key(self@, k@) == i,
                None => find_key(self@, k@) == -1,
            },
    {
        let ks = copy_string(k);
        let mut i: usize = 0;
        while i < self.entries.len()
            invariant
                i <= self.entries.len(),
                ks@ == k@,
                forall|j: int| 0 <= j < i ==> self@[j].0 != k@,
            decreases self.entries.len() - i,
        {
            if self.entries[i].0 == ks {
                proof {
                    lemma_find_key_at(self@, k@, i as int);
                }
                return Some(i);
            }
            i = i + 1;
        }
        proof {
            lemma_find_key_at(self@, k@, -1);
        }
        None
    }

    /// The value under `k`.
    pub fn get(&self, k: &str) -> (r: Option<&V>)
        ensures
            match r {
                Some(v) => lookup(self@, k@) == Some(*v),
                None => lookup(self@, k@) is None,
            },
    {
        match self.position(k) {
            Some(i) => Some(&self.entries[i].1),
            None => None,
        }
    }

    /// Whether `k` is present.
    pub fn contains_key(&self, k: &str) -> (r: bool)
        ensures
            r == (lookup(self@, k@) is Some),
    {
        self.position(k).is_some()
    }

    /// Inserts `v` under `k`; returns the value it replaces.
    pub fn insert(&mut self, k: String, v: V) -> (r: Option<V>)
        ensures
            final(self)@ == insert_key(old(self)@, k@, v),
            r == lookup(old(self)@, k@),
    {
        match self.position(k.as_str()) {
            Some(i) => {
                let (_, prev) = self.entries.remove(i);
                self.entries.insert(i, (k, v));
                proof {
                    assert(self@ =~= insert_key(old(self)@, k@, v));
                }
                Some(prev)
            },
            None => {
                self.entries.push((k, v));
                proof {
                    assert(self@ =~= insert_key(old(self)@, k@, v));
                }
                None
            },
        }
    }

    /// Removes `k`; the last entry takes its place.
    pub fn remove(&mut self, k: &str) -> (r: Option<V>)
        ensures
            final(self)@ == remove_key(old(self)@, k@),
            r == lookup(old(self)@, k@),
    {
        match self.position(k) {
            Some(i) => {
                let (_, v) = self.entries.swap_remove(i);
                proof {
                    assert(self@ =~= remove_key(old(self)@, k@));
                }
                Some(v)
            },
            None => None,
        }
    }

    /// Inserts every entry of `other`, in order.
    pub fn extend(&mut self, other: Table<V>)
        ensures
            final(self)@ == insert_all(old(self)@, other@),
    {
        let ghost start = self@;
        let ghost o = other@;
        let mut es = other.entries;
        let mut rev: Vec<(String, V)> = Vec::new();
        // reverse so that entries can be popped in order
        while es.len() > 0
            invariant
                o == es@.map_values(|e: (String, V)| entry_view(e)) + rev@.reverse().map_values(
                    |e: (String, V)| entry_view(e),
                ),
            decreases es.len(),
        {
            let e = es.pop().unwrap();
            rev.push(e);
            proof {
                assert(o =~= es@.map_values(|e: (String, V)| entry_view(e)) + rev@.reverse().map_values(
                    |e: (String, V)| entry_view(e),
                ));
            }
        }
        let ghost n = o.len();
        while rev.len() > 0
            invariant
                n == o.len(),
                rev@.len() <= n,
                o.skip(n - rev@.len()) == rev@.reverse().map_values(|e: (String, V)| entry_view(e)),
                self@ == insert_all(start, o.take(n - rev@.len())),
            decreases rev.len(),
        {
            let ghost before = rev@;
            let (k, v) = rev.pop().unwrap();
            let ghost m = n - before.len();
            proof {
                assert(o[m] == o.skip(m)[0]);
                assert(before.reverse()[0] == before.last());
                assert(o.take(m + 1).drop_last() == o.take(m));
                assert(o.skip(m + 1) =~= o.skip(m).drop_first());
                assert(rev@.reverse().map_values(|e: (String, V)| entry_view(e)) =~= before.reverse().map_values(
                    |e: (String, V)| entry_view(e),
                ).drop_first());
            }
            self.insert(k, v);
        }
        proof {
            assert(o.take(n as int) == o);
        }
    }
}

// ---------------------------------------------------------------------
// Values
// ---------------------------------------------------------------------
/// The kind of a configuration value.  A floating-point number is carried
/// as the decimal text that denotes it.
#[derive(Debug, PartialEq)]
pub enum ValueKind {
    Nil,
    Boolean(bool),
    I64(i64),
    I128(i128),
    U64(u64),
    U128(u128),
    Float(String),
    String(String),
    Table(Table<ConfigValue>),
    Array(Vec<ConfigValue>),
}

/// A configuration value and the URI of the source it came from.
#[derive(Debug, PartialEq)]
pub struct ConfigValue {
    pub origin: Option<String>,
    pub kind: ValueKind,
}

/// Mathematical model of a value's kind.
pub enum KindModel {
    Nil,
    Boolean(bool),
    I64(i64),
    I128(i128),
    U64(u64),
    U128(u128),
    Float(Seq<char>),
    Str(Seq<char>),
    Table(Seq<(Seq<char>, ValueModel)>),
    Array(Seq<ValueModel>),
}

/// Mathematical model of a value.
pub struct ValueModel {
    pub origin: Option<Seq<char>>,
    pub kind: KindModel,
}

pub open spec fn opt_view(o: Option<String>) -> Option<Seq<char>> {
    match o {
        Some(s) => Some(s@),
        None => None,
    }
}

pub open spec fn opt_ref_view(o: Option<&String>) -> Option<Seq<char>> {
    match o {
        Some(s) => Some(s@),
        None => None,
    }
}

/// The model of a value: strings by their characters, nested values by
/// their models.
pub open spec fn value_model(v: ConfigValue) -> ValueModel
    decreases v,
{
    ValueModel {
        origin: opt_view(v.origin),
        kind: match v.kind {
            ValueKind::Nil => KindModel::Nil,
            ValueKind::Boolean(b) => KindModel::Boolean(b),
            ValueKind::I64(i) => KindModel::I64(i),
            ValueKind::I128(i) => KindModel::I128(i),
            ValueKind::U64(i) => KindModel::U64(i),
            ValueKind::U128(i) => KindModel::U128(i),
            ValueKind::Float(f) => KindModel::Float(f@),
            ValueKind::String(s) => KindModel::Str(s@),
            ValueKind::Table(t) => KindModel::Table(
                Seq::new(
                    t.entries@.len(),
                    |i: int|
                        if 0 <= i < t.entries@.len() {
                            (t.entries@[i].0@, value_model(t.entries@[i].1))
                        } else {
                            (Seq::empty(), ValueModel { origin: None, kind: KindModel::Nil })
                        },
                ),
            ),
            ValueKind::Array(a) => KindModel::Array(
                Seq::new(
                    a@.len(),
                    |i: int|
                        if 0 <= i < a@.len() {
                            value_model(a@[i])
                        } else {
                            ValueModel { origin: None, kind: KindModel::Nil }
                        },
                ),
            ),
        },
    }
}

/// The model of a table of values.
pub open spec fn table_model(t: Table<ConfigValue>) -> Seq<(Seq<char>, ValueModel)> {
    pairs_model(t@)
}

pub open spec fn array_model(a: Seq<ConfigValue>) -> Seq<ValueModel> {
    a.map_values(|v: ConfigValue| value_model(v))
}

pub proof fn lemma_value_model_table(o: Option<String>, t: Table<ConfigValue>)
    ensures
        value_model(ConfigValue { origin: o, kind: ValueKind::Table(t) }) == (ValueModel {
            origin: opt_view(o),
            kind: KindModel::Table(table_model(t)),
        }),
{
    let m = value_model(ConfigValue { origin: o, kind: ValueKind::Table(t) });
    let s = m.kind->Table_0;
    assert(s =~= table_model(t));
}

pub proof fn lemma_value_model_array(o: Option<String>, a: Vec<ConfigValue>)
    ensures
        value_model(ConfigValue { origin: o, kind: ValueKind::Array(a) }) == (ValueModel {
            origin: opt_view(o),
            kind: KindModel::Array(array_model(a@)),
        }),
{
    let m = value_model(ConfigValue { origin: o, kind: ValueKind::Array(a) });
    let s = m.kind->Array_0;
    assert(s =~= array_model(a@));
}

/// The model of a table after inserting one more value.
pub proof fn lemma_table_model_insert(t: Table<ConfigValue>, k: Seq<char>, v: ConfigValue, t2: Table<ConfigValue>)
    requires
        t2@ == insert_key(t@, k, v),
    ensures
        table_model(t2) == insert_key(table_model(t), k, value_model(v)),
{
    let m = table_model(t);
    lemma_find_key_map(t@, k);
    lemma_find_key(t@, k);
    assert(table_model(t2) =~= insert_key(table_model(t), k, value_model(v)));
}

pub open spec fn pairs_model(s: Seq<(Seq<char>, ConfigValue)>) -> Seq<(Seq<char>, ValueModel)> {
    s.map_values(|e: (Seq<char>, ConfigValue)| (e.0, value_model(e.1)))
}

pub proof fn lemma_pairs_model_insert(s: Seq<(Seq<char>, ConfigValue)>, k: Seq<char>, v: ConfigValue)
    ensures
        pairs_model(insert_key(s, k, v)) == insert_key(pairs_model(s), k, value_model(v)),
{
    lemma_find_key_map(s, k);
    lemma_find_key(s, k);
    assert(pairs_model(insert_key(s, k, v)) =~= insert_key(pairs_model(s), k, value_model(v)));
}

/// The model of a table after inserting all entries of another.
pub proof fn lemma_pairs_model_insert_all(s: Seq<(Seq<char>, ConfigValue)>, t: Seq<(Seq<char>, ConfigValue)>)
    ensures
        pairs_model(insert_all(s, t)) == insert_all(pairs_model(s), pairs_model(t)),
    decreases t.len(),
{
    if t.len() > 0 {
        lemma_pairs_model_insert_all(s, t.drop_last());
        lemma_pairs_model_insert(insert_all(s, t.drop_last()), t.last().0, t.last().1);
        assert(pairs_model(t).drop_last() =~= pairs_model(t.drop_last()));
    }
}

proof fn lemma_find_key_map(s: Seq<(Seq<char>, ConfigValue)>, k: Seq<char>)
    ensures
        find_key(s.map_values(|e: (Seq<char>, ConfigValue)| (e.0, value_model(e.1))), k) == find_key(
            s,
            k,
        ),
{
    let m = s.map_values(|e: (Seq<char>, ConfigValue)| (e.0, value_model(e.1)));
    lemma_find_key(s, k);
    lemma_find_key_at(m, k, find_key(s, k));
}

impl ConfigValue {
    /// A value of the given kind from the source `origin`.
    pub fn new(origin: Option<&String>, kind: ValueKind) -> (v: ConfigValue)
        ensures
            v.kind == kind,
            opt_view(v.origin) == opt_ref_view(origin),
    {
        let o = match origin {
            Some(s) => Some(copy_string(s.as_str())),
            None => None,
        };
        ConfigValue { origin: o, kind }
    }
}

} // verus!

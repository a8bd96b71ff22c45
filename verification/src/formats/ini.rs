//! INI documents: the sections and properties that rust-ini reads, and
//! their conversion into a table of configuration values.
use vstd::prelude::*;

use crate::format::FormatError;
use crate::text::copy_string;
use crate::value::{
    find_key, insert_all, insert_key, lemma_find_key, lemma_find_key_at, lemma_insert_all_step,
    lemma_members_table,
    lemma_pairs_model_insert_all, lemma_table_model_insert, lemma_value_model_table, lookup,
    opt_ref_view, opt_view, pairs_model, remove_key, table_model, value_model, KindModel, Table,
    ConfigValue, ValueKind, ValueModel,
};

verus! {

/// An INI document as rust-ini reads it: its sections in order, each with
/// its name (`None` for the properties before the first section header)
/// and its properties in order.
#[derive(Debug, Clone, PartialEq)]
pub struct IniDoc {
    pub sections: Vec<(Option<String>, Vec<(String, String)>)>,
}

/// The table of a section's properties: every value a string.
pub open spec fn ini_props(uri: Option<Seq<char>>, props: Seq<(String, String)>) -> Seq<
    (Seq<char>, ValueModel),
> {
    insert_all(
        Seq::empty(),
        Seq::new(
            props.len(),
            |i: int| (props[i].0@, ValueModel { origin: uri, kind: KindModel::Str(props[i].1@) }),
        ),
    )
}

/// The sections by name, built by inserting them in order.
pub open spec fn ini_sections(
    uri: Option<Seq<char>>,
    secs: Seq<(Option<String>, Vec<(String, String)>)>,
) -> Seq<(Option<Seq<char>>, Seq<(Seq<char>, ValueModel)>)> {
    insert_all(
        Seq::empty(),
        Seq::new(secs.len(), |i: int| (opt_view(secs[i].0), ini_props(uri, secs[i].1@))),
    )
}

/// The table an INI document converts to: the properties outside any
/// section at the top level, then each named section as a table under its
/// name (after the unnamed one was taken out).
pub open spec fn ini_model(uri: Option<Seq<char>>, doc: IniDoc) -> Seq<(Seq<char>, ValueModel)> {
    let s = ini_sections(uri, doc.sections@);
    let top = match lookup(s, None::<Seq<char>>) {
        Some(t) => t,
        None => Seq::empty(),
    };
    let rest = remove_key(s, None::<Seq<char>>);
    insert_all(
        insert_all(Seq::empty(), top),
        Seq::new(
            rest.len(),
            |i: int|
                (
                    match rest[i].0 {
                        Some(k) => k,
                        None => Seq::empty(),
                    },
                    ValueModel { origin: uri, kind: KindModel::Table(rest[i].1) },
                ),
        ),
    )
}

pub open spec fn sections_model(v: Seq<(Option<String>, Table<ConfigValue>)>) -> Seq<
    (Option<Seq<char>>, Seq<(Seq<char>, ValueModel)>),
> {
    v.map_values(|e: (Option<String>, Table<ConfigValue>)| (opt_view(e.0), table_model(e.1)))
}

fn same_name(a: &Option<String>, b: &Option<String>) -> (r: bool)
    ensures
        r == (opt_view(*a) == opt_view(*b)),
{
    match (a, b) {
        (Some(x), Some(y)) => *x == *y,
        (None, None) => true,
        _ => false,
    }
}

fn section_position(v: &Vec<(Option<String>, Table<ConfigValue>)>, name: &Option<String>) -> (r: Option<
    usize,
>)
    ensures
        match r {
            Some(i) => i < v@.len() && find_key(sections_model(v@), opt_view(*name)) == i,
            None => find_key(sections_model(v@), opt_view(*name)) == -1,
        },
{
    let ghost m = sections_model(v@);
    let mut i: usize = 0;
    while i < v.len()
        invariant
            i <= v.len(),
            m == sections_model(v@),
            forall|j: int| 0 <= j < i ==> m[j].0 != opt_view(*name),
        decreases v.len() - i,
    {
        if same_name(&v[i].0, name) {
            proof {
                lemma_find_key_at(m, opt_view(*name), i as int);
            }
            return Some(i);
        }
        i = i + 1;
    }
    proof {
        lemma_find_key_at(m, opt_view(*name), -1);
    }
    None
}

fn copy_name(name: &Option<String>) -> (r: Option<String>)
    ensures
        opt_view(r) == opt_view(*name),
{
    match name {
        Some(s) => Some(copy_string(s.as_str())),
        None => None,
    }
}

fn props_table(uri: Option<&String>, props: &Vec<(String, String)>) -> (t: Table<ConfigValue>)
    ensures
        table_model(t) == ini_props(opt_ref_view(uri), props@),
{
    let ghost u = opt_ref_view(uri);
    let ghost ps = Seq::new(
        props@.len(),
        |i: int| (props@[i].0@, ValueModel { origin: u, kind: KindModel::Str(props@[i].1@) }),
    );
    let mut t: Table<ConfigValue> = Table::new();
    let mut j: usize = 0;
    while j < props.len()
        invariant
            j <= props.len(),
            u == opt_ref_view(uri),
            ps == Seq::new(
                props@.len(),
                |i: int| (props@[i].0@, ValueModel { origin: u, kind: KindModel::Str(props@[i].1@) }),
            ),
            table_model(t) == insert_all(Seq::empty(), ps.take(j as int)),
        decreases props.len() - j,
    {
        let key = copy_string(props[j].0.as_str());
        let v = ConfigValue::new(uri, ValueKind::String(copy_string(props[j].1.as_str())));
        let ghost t0 = t;
        let ghost vv = v;
        t.insert(key, v);
        proof {
            lemma_table_model_insert(t0, key@, vv, t);
            lemma_insert_all_step(Seq::empty(), ps, j as int);
        }
        j = j + 1;
    }
    proof {
        assert(ps.take(props@.len() as int) == ps);
    }
    t
}

/// Law: a section's table holds exactly the keys of its properties, each
/// with the value of the last property under it, as a string carrying the
/// source's URI.
pub proof fn law_ini_properties(uri: Option<Seq<char>>, props: Seq<(String, String)>, k: Seq<char>)
    ensures
        lookup(ini_props(uri, props), k) is None <==> forall|i: int|
            0 <= i < props.len() ==> (#[trigger] props[i]).0@ != k,
        forall|i: int|
            0 <= i < props.len() && (#[trigger] props[i]).0@ == k && (forall|j: int|
                i < j < props.len() ==> props[j].0@ != k) ==> lookup(ini_props(uri, props), k) == Some(
                ValueModel { origin: uri, kind: KindModel::Str(props[i].1@) },
            ),
{
    lemma_members_table(
        props,
        |e: (String, String)| e.0@,
        |e: (String, String)| ValueModel { origin: uri, kind: KindModel::Str(e.1@) },
        Seq::new(
            props.len(),
            |i: int| (props[i].0@, ValueModel { origin: uri, kind: KindModel::Str(props[i].1@) }),
        ),
        k,
    );
}

/// Converts an INI document into a table value from source `uri`.
pub fn from_ini(uri: Option<&String>, data: &IniDoc) -> (v: ConfigValue)
    ensures
        value_model(v) == (ValueModel {
            origin: opt_ref_view(uri),
            kind: KindModel::Table(ini_model(opt_ref_view(uri), *data)),
        }),
{
    let ghost u = opt_ref_view(uri);
    let ghost ss = Seq::new(
        data.sections@.len(),
        |i: int| (opt_view(data.sections@[i].0), ini_props(u, data.sections@[i].1@)),
    );
    // sections by name
    let mut sections: Vec<(Option<String>, Table<ConfigValue>)> = Vec::new();
    let mut i: usize = 0;
    while i < data.sections.len()
        invariant
            i <= data.sections.len(),
            u == opt_ref_view(uri),
            ss == Seq::new(
                data.sections@.len(),
                |i: int| (opt_view(data.sections@[i].0), ini_props(u, data.sections@[i].1@)),
            ),
            sections_model(sections@) == insert_all(Seq::empty(), ss.take(i as int)),
        decreases data.sections.len() - i,
    {
        let name = copy_name(&data.sections[i].0);
        let props = props_table(uri, &data.sections[i].1);
        let ghost s0 = sections@;
        let ghost pm = table_model(props);
        proof {
            lemma_find_key(sections_model(s0), opt_view(name));
        }
        match section_position(&sections, &name) {
            Some(p) => {
                sections.remove(p);
                sections.insert(p, (name, props));
            },
            None => {
                sections.push((name, props));
            },
        }
        proof {
            assert(sections_model(sections@) =~= insert_key(sections_model(s0), opt_view(name), pm));
            lemma_insert_all_step(Seq::empty(), ss, i as int);
        }
        i = i + 1;
    }
    proof {
        assert(ss.take(data.sections@.len() as int) == ss);
    }
    let ghost smodel = sections_model(sections@);
    // hoist the properties outside any section to the top level
    let none_name: Option<String> = None;
    let top = match section_position(&sections, &none_name) {
        Some(p) => {
            let (_, t) = sections.swap_remove(p);
            t
        },
        None => Table::new(),
    };
    proof {
        lemma_find_key(smodel, None::<Seq<char>>);
        assert(sections_model(sections@) =~= remove_key(smodel, None::<Seq<char>>));
    }
    let ghost rest = sections_model(sections@);
    let mut map: Table<ConfigValue> = Table::new();
    let ghost empty_map = map;
    map.extend(top);
    proof {
        lemma_pairs_model_insert_all(empty_map@, top@);
        assert(pairs_model(empty_map@) =~= Seq::<(Seq<char>, ValueModel)>::empty());
    }
    // then each named section as a table under its name
    let ghost named = Seq::new(
        rest.len(),
        |i: int|
            (
                match rest[i].0 {
                    Some(k) => k,
                    None => Seq::empty(),
                },
                ValueModel { origin: u, kind: KindModel::Table(rest[i].1) },
            ),
    );
    let ghost base = table_model(map);
    let n_sections = sections.len();
    let ghost n = n_sections as nat;
    let mut k: usize = 0;
    while sections.len() > 0
        invariant
            u == opt_ref_view(uri),
            k + sections@.len() == n,
            n == rest.len(),
            n <= usize::MAX,
            sections_model(sections@) == rest.skip(k as int),
            named == Seq::new(
                rest.len(),
                |i: int|
                    (
                        match rest[i].0 {
                            Some(k) => k,
                            None => Seq::empty(),
                        },
                        ValueModel { origin: u, kind: KindModel::Table(rest[i].1) },
                    ),
            ),
            table_model(map) == insert_all(base, named.take(k as int)),
        decreases sections.len(),
    {
        let ghost before = sections@;
        let (name, t) = sections.remove(0);
        proof {
            assert(sections_model(before)[0] == rest[k as int]);
            assert forall|j: int| 0 <= j < sections@.len() implies sections_model(sections@)[j]
                == rest.skip(k + 1)[j] by {
                assert(sections@[j] == before[j + 1]);
                assert(sections_model(before)[j + 1] == rest.skip(k as int)[j + 1]);
            }
            assert(sections_model(sections@) =~= rest.skip(k + 1));
        }
        let key = match name {
            Some(s) => s,
            None => String::new(),
        };
        let v = ConfigValue::new(uri, ValueKind::Table(t));
        proof {
            lemma_value_model_table(v.origin, t);
        }
        let ghost m0 = map;
        let ghost vv = v;
        map.insert(key, v);
        proof {
            lemma_table_model_insert(m0, key@, vv, map);
            lemma_insert_all_step(base, named, k as int);
        }
        k = k + 1;
    }
    proof {
        assert(named.take(n as int) == named);
    }
    let r = ConfigValue::new(uri, ValueKind::Table(map));
    proof {
        lemma_value_model_table(r.origin, map);
    }
    r
}

/// Parses an INI document into its table.
pub fn parse_tree(uri: Option<&String>, data: &IniDoc) -> (r: Result<Table<ConfigValue>, FormatError>)
    ensures
        r matches Ok(t) && table_model(t) == ini_model(opt_ref_view(uri), *data),
{
    let value = from_ini(uri, data);
    match value.kind {
        ValueKind::Table(map) => {
            proof {
                lemma_value_model_table(value.origin, map);
            }
            Ok(map)
        },
        _ => Ok(Table::new()),
    }
}

/// What rust-ini reads from a text: its sections with their properties in
/// order, or the message of the error it reports.
pub uninterp spec fn ini_loaded(text: Seq<char>) -> Result<IniDoc, Seq<char>>;

/// `Ini::load_from_str`: the result is named `ini_loaded` of the text.
#[verifier::external_body]
fn load_ini(text: &str) -> (r: Result<IniDoc, String>)
    ensures
        match ini_loaded(text@) {
            Ok(d) => r == Ok::<IniDoc, String>(d),
            Err(m) => r matches Err(e) && e@ == m,
        },
{
    match ::ini::Ini::load_from_str(text) {
        Ok(i) => Ok(IniDoc {
            sections: i.iter().map(|(s, p)| (s.map(|x| x.to_string()), p.iter().map(|(k, v)| (k.to_string(), v.to_string())).collect())).collect(),
        }),
        Err(e) => Err(e.to_string()),
    }
}

/// Parses INI text from source `uri`: its table, or the parser's message.
pub fn parse(uri: Option<&String>, text: &str) -> (r: Result<Table<ConfigValue>, FormatError>)
    ensures
        match ini_loaded(text@) {
            Ok(d) => r matches Ok(t) && table_model(t) == ini_model(opt_ref_view(uri), d),
            Err(m) => r matches Err(FormatError::Parser(e)) && e@ == m,
        },
{
    match load_ini(text) {
        Ok(d) => parse_tree(uri, &d),
        Err(m) => Err(FormatError::Parser(m)),
    }
}

} // verus!

//! TOML documents read under a namespace: only the table stored under the
//! namespace key of the root is kept.
use vstd::prelude::*;

use crate::format::FormatError;
use crate::formats::toml_format::{from_toml_value, load_toml, toml_loaded, toml_members, toml_model, TomlNode};
use crate::value::{
    entries_view, find_entry, find_key, insert_all, lemma_find_key, opt_ref_view, value_model, KindModel, Table, ConfigValue, ValueModel,
};

verus! {

/// The node holds no datetime (this reader leaves them unimplemented).
pub open spec fn toml_no_datetime(n: TomlNode) -> bool
    decreases n,
{
    match n {
        TomlNode::Datetime(_) => false,
        TomlNode::Array(a) => forall|i: int| 0 <= i < a@.len() ==> toml_no_datetime(#[trigger] a@[i]),
        TomlNode::Table(o) => forall|i: int| 0 <= i < o@.len() ==> toml_no_datetime(#[trigger] o@[i].1),
        _ => true,
    }
}

/// The table entries kept under namespace `ns`: those of the table stored
/// under key `ns` of a root table; none when there is no such table.
pub open spec fn namespace_entries(root: TomlNode, ns: Seq<char>) -> Seq<(String, TomlNode)> {
    match root {
        TomlNode::Table(t) => {
            let i = find_key(entries_view(t@), ns);
            if i >= 0 && t@[i].1 is Table {
                t@[i].1->Table_0@
            } else {
                Seq::empty()
            }
        },
        _ => Seq::empty(),
    }
}

/// The value a TOML document reads as under an optional namespace.
pub open spec fn namespaced_model(uri: Option<Seq<char>>, root: TomlNode, ns: Option<Seq<char>>) -> ValueModel {
    match ns {
        None => toml_model(uri, root),
        Some(n) => ValueModel {
            origin: uri,
            kind: KindModel::Table(
                insert_all(Seq::empty(), toml_members(uri, namespace_entries(root, n))),
            ),
        },
    }
}

/// The view of an optional string.
pub open spec fn opt_string_ref_view(o: Option<&String>) -> Option<Seq<char>> {
    match o {
        Some(s) => Some(s@),
        None => None,
    }
}

/// No entry holds a datetime.
pub open spec fn toml_entries_no_datetime(s: Seq<(String, TomlNode)>) -> bool {
    forall|i: int| 0 <= i < s.len() ==> toml_no_datetime(#[trigger] s[i].1)
}

/// What is converted holds no datetime (which this reader leaves
/// unimplemented): the whole document, or with a namespace only the table
/// kept.
pub open spec fn namespace_no_datetime(root: TomlNode, ns: Option<Seq<char>>) -> bool {
    match ns {
        None => toml_no_datetime(root),
        Some(n) => toml_entries_no_datetime(namespace_entries(root, n)),
    }
}

/// Law: without a namespace the whole document is converted; with one,
/// the document reads as the table stored under the namespace key of the
/// root, converted as a table on its own, and as an empty table where the
/// root is no table, has no such key, or holds something else under it.
pub proof fn law_toml_namespace(uri: Option<Seq<char>>, root: TomlNode, ns: Seq<char>)
    ensures
        namespaced_model(uri, root, None) == toml_model(uri, root),
        root matches TomlNode::Table(t) ==> forall|i: int|
            0 <= i < t@.len() && (#[trigger] t@[i]).0@ == ns && (forall|j: int| 0 <= j < i ==> t@[j].0@ != ns)
                && (t@[i].1 is Table) ==> namespaced_model(uri, root, Some(ns)) == toml_model(uri, t@[i].1),
        (root matches TomlNode::Table(t) ==> forall|i: int|
            0 <= i < t@.len() && (#[trigger] t@[i]).0@ == ns && (forall|j: int| 0 <= j < i ==> t@[j].0@ != ns)
                ==> !(t@[i].1 is Table)) ==> namespaced_model(uri, root, Some(ns)) == (ValueModel {
            origin: uri,
            kind: KindModel::Table(Seq::empty()),
        }),
{
    if let TomlNode::Table(t) = root {
        let ev = entries_view(t@);
        lemma_find_key(ev, ns);
        assert forall|i: int| 0 <= i < t@.len() implies #[trigger] ev[i].0 == t@[i].0@ by {}
        let f = find_key(ev, ns);
        if f >= 0 {
            assert(t@[f].0@ == ns);
            assert forall|j: int| 0 <= j < f implies t@[j].0@ != ns by {
                assert(ev[j].0 == t@[j].0@);
            }
            assert forall|i: int|
                0 <= i < t@.len() && (#[trigger] t@[i]).0@ == ns && (forall|j: int| 0 <= j < i ==> t@[j].0@ != ns)
                implies i == f by {
                if i < f {
                    assert(ev[i].0 == ns);
                } else if i > f {
                    assert(t@[f].0@ != ns);
                }
            }
            if t@[f].1 is Table {
                assert(namespace_entries(root, ns) == t@[f].1->Table_0@);
            }
        } else {
            assert forall|i: int| 0 <= i < t@.len() implies (#[trigger] t@[i]).0@ != ns by {
                assert(ev[i].0 == t@[i].0@);
            }
        }
        assert(toml_members(uri, Seq::<(String, TomlNode)>::empty()) =~= Seq::<(Seq<char>, ValueModel)>::empty());
    } else {
        assert(toml_members(uri, Seq::<(String, TomlNode)>::empty()) =~= Seq::<(Seq<char>, ValueModel)>::empty());
    }
}

/// Reads a TOML document as a value from source `uri`; with a namespace,
/// only the table under that key of the root is kept (an empty table when
/// there is none).
pub fn parse_tree(uri: Option<&String>, root: TomlNode, namespace: Option<&String>) -> (v: ConfigValue)
    requires
        namespace_no_datetime(root, opt_string_ref_view(namespace)),
    ensures
        value_model(v) == namespaced_model(
            opt_ref_view(uri),
            root,
            match namespace {
                Some(n) => Some(n@),
                None => None,
            },
        ),
{
    match namespace {
        None => from_toml_value(uri, &root),
        Some(ns) => {
            let ghost r0 = root;
            let entries: Vec<(String, TomlNode)> = match root {
                TomlNode::Table(t) => {
                    let mut t = t;
                    match find_entry(&t, ns.as_str()) {
                        Some(i) => {
                            let (_, sub) = t.remove(i);
                            match sub {
                                TomlNode::Table(tt) => tt,
                                _ => Vec::new(),
                            }
                        },
                        None => Vec::new(),
                    }
                },
                _ => Vec::new(),
            };
            proof {
                assert(entries@ == namespace_entries(r0, ns@));
            }
            let node = TomlNode::Table(entries);
            let v = from_toml_value(uri, &node);
            v
        },
    }
}

/// Whether the node holds no datetime.
pub fn toml_no_datetime_check(n: &TomlNode) -> (b: bool)
    ensures
        b == toml_no_datetime(*n),
    decreases n,
{
    match n {
        TomlNode::Datetime(_) => false,
        TomlNode::Array(a) => {
            let mut i: usize = 0;
            while i < a.len()
                invariant
                    i <= a.len(),
                    *n == TomlNode::Array(*a),
                    forall|j: int| 0 <= j < i ==> toml_no_datetime(#[trigger] a@[j]),
                decreases a.len() - i,
            {
                proof {
                    assert(decreases_to!(*n => n->Array_0));
                    assert(decreases_to!(n->Array_0 => n->Array_0@));
                    assert(decreases_to!(n->Array_0@ => a@[i as int]));
                }
                if !toml_no_datetime_check(&a[i]) {
                    assert(!toml_no_datetime(TomlNode::Array(*a)));
                    return false;
                }
                i = i + 1;
            }
            assert(toml_no_datetime(TomlNode::Array(*a)));
            true
        },
        TomlNode::Table(t) => toml_entries_check(t),
        _ => true,
    }
}

/// Whether no entry holds a datetime.
pub fn toml_entries_check(t: &Vec<(String, TomlNode)>) -> (b: bool)
    ensures
        b == toml_entries_no_datetime(t@),
    decreases t, 0int,
{
    let mut i: usize = 0;
    while i < t.len()
        invariant
            i <= t.len(),
            forall|j: int| 0 <= j < i ==> toml_no_datetime(#[trigger] t@[j].1),
        decreases t.len() - i,
    {
        proof {
            assert(decreases_to!(*t => t@));
            assert(decreases_to!(t@ => t@[i as int]));
        }
        if !toml_no_datetime_check(&t[i].1) {
            return false;
        }
        i = i + 1;
    }
    true
}

/// Whether what is converted under `namespace` holds no datetime.
pub fn namespace_check(root: &TomlNode, namespace: Option<&String>) -> (b: bool)
    ensures
        b == namespace_no_datetime(*root, opt_string_ref_view(namespace)),
{
    match namespace {
        None => toml_no_datetime_check(root),
        Some(ns) => match root {
            TomlNode::Table(t) => match find_entry(t, ns.as_str()) {
                Some(i) => match &t[i].1 {
                    TomlNode::Table(tt) => toml_entries_check(tt),
                    _ => true,
                },
                None => true,
            },
            _ => true,
        },
    }
}

/// The TOML text reads without reaching a datetime (where the reader
/// panics).
pub open spec fn toml_text_ok(text: Seq<char>, ns: Option<Seq<char>>) -> bool {
    match toml_loaded(text) {
        Ok(root) => namespace_no_datetime(root, ns),
        Err(_) => true,
    }
}

/// Reads TOML text as a value from source `uri`, under an optional
/// namespace; a text that does not parse gives the parser's message.
pub fn parse(uri: Option<&String>, text: &str, namespace: Option<&String>) -> (r: Result<ConfigValue, FormatError>)
    requires
        toml_text_ok(text@, opt_string_ref_view(namespace)),
    ensures
        match toml_loaded(text@) {
            Ok(root) => r matches Ok(v) && value_model(v) == namespaced_model(
                opt_ref_view(uri),
                root,
                opt_string_ref_view(namespace),
            ),
            Err(m) => r matches Err(FormatError::Parser(e)) && e@ == m,
        },
{
    match load_toml(text) {
        Ok(root) => Ok(parse_tree(uri, root, namespace)),
        Err(m) => Err(FormatError::Parser(m)),
    }
}

/// Reads TOML text as `parse` does where what is converted holds no
/// datetime; `None` where it holds one.
pub fn parse_checked(uri: Option<&String>, text: &str, namespace: Option<&String>) -> (r: Option<Result<ConfigValue, FormatError>>)
    ensures
        r is None <==> !toml_text_ok(text@, opt_string_ref_view(namespace)),
        r matches Some(x) ==> match toml_loaded(text@) {
            Ok(root) => x matches Ok(v) && value_model(v) == namespaced_model(
                opt_ref_view(uri),
                root,
                opt_string_ref_view(namespace),
            ),
            Err(m) => x matches Err(FormatError::Parser(e)) && e@ == m,
        },
{
    match load_toml(text) {
        Ok(root) => {
            if !namespace_check(&root, namespace) {
                return None;
            }
        },
        Err(_) => {},
    }
    Some(parse(uri, text, namespace))
}

} // verus!

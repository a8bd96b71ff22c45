//! Configuration read from environment variables.
use vstd::prelude::*;

use crate::text::{
    chars_of, copy_string, float_text_ok, is_float_text, lowercase, parse_i64, replace_all,
    replace_chars, law_replace_all_absent, law_replace_all_split, signed_text, starts_with, starts_with_at, string_of, to_lowercase,
};
use crate::value::{
    insert_all, lemma_table_model_insert, table_model, value_model, KindModel, Table, ConfigValue,
    ValueKind, ValueModel,
};

verus! {

/// A source of configuration read from environment variables.
pub struct Environment {
    /// Optional prefix that limits the source to keys that begin with it
    /// (followed by the prefix separator); the prefix is removed from the
    /// keys.
    prefix: Option<String>,
    /// Optional character sequence that separates the prefix from the
    /// rest of the key.
    prefix_separator: Option<String>,
    /// Optional character sequence that separates the segments of a key;
    /// each occurrence becomes a `.`.
    separator: Option<String>,
    /// Ignore empty values (treat as unset).
    ignore_empty: bool,
    /// Read booleans, integers and floats where the value reads as one.
    try_parsing: bool,
    /// Alternate source of variables, used in place of the process
    /// environment.
    source: Option<Table<String>>,
}

/// The URI that values read from the environment carry.
pub open spec fn env_origin() -> Seq<char> {
    "the environment"@
}

pub open spec fn opt_string_view(o: Option<String>) -> Option<Seq<char>> {
    match o {
        Some(s) => Some(s@),
        None => None,
    }
}

impl Environment {
    pub closed spec fn prefix_view(&self) -> Option<Seq<char>> {
        opt_string_view(self.prefix)
    }

    pub closed spec fn prefix_separator_view(&self) -> Option<Seq<char>> {
        opt_string_view(self.prefix_separator)
    }

    pub closed spec fn separator_view(&self) -> Option<Seq<char>> {
        opt_string_view(self.separator)
    }

    pub closed spec fn ignore_empty_view(&self) -> bool {
        self.ignore_empty
    }

    pub closed spec fn try_parsing_view(&self) -> bool {
        self.try_parsing
    }

    pub closed spec fn source_view(&self) -> Option<Seq<(Seq<char>, String)>> {
        match self.source {
            Some(t) => Some(t@),
            None => None,
        }
    }

    /// The separator between prefix and key: the prefix separator, else
    /// the separator, else `_`.
    pub open spec fn prefix_separator_text(&self) -> Seq<char> {
        match self.prefix_separator_view() {
            Some(p) => p,
            None => match self.separator_view() {
                Some(s) => s,
                None => "_"@,
            },
        }
    }

    /// The key a variable is stored under, or `None` when it is skipped
    /// because its key lacks the prefix.
    pub open spec fn env_key(&self, key: Seq<char>) -> Option<Seq<char>> {
        let k = lowercase(key);
        let stripped = match self.prefix_view() {
            Some(p) => {
                let pattern = lowercase(p + self.prefix_separator_text());
                if starts_with(k, pattern) {
                    Some(k.skip(pattern.len() as int))
                } else {
                    None
                }
            },
            None => Some(k),
        };
        match stripped {
            None => None,
            Some(k) => match self.separator_view() {
                Some(sep) => if sep.len() > 0 {
                    Some(replace_all(k, sep, "."@))
                } else {
                    Some(k)
                },
                None => Some(k),
            },
        }
    }

    /// The kind of value a variable's value becomes: with `try_parsing`, a
    /// boolean when it reads `true` or `false` (in any case), else an
    /// integer when it reads as an `i64`, else a float when it reads as an
    /// `f64`; otherwise the string itself.
    pub open spec fn env_value(&self, value: Seq<char>) -> KindModel {
        if self.try_parsing_view() {
            if lowercase(value) == "true"@ {
                KindModel::Boolean(true)
            } else if lowercase(value) == "false"@ {
                KindModel::Boolean(false)
            } else if signed_text(value) matches Some(v) && i64::MIN <= v <= i64::MAX {
                KindModel::I64(signed_text(value)->0 as i64)
            } else if is_float_text(value) {
                KindModel::Float(value)
            } else {
                KindModel::Str(value)
            }
        } else {
            KindModel::Str(value)
        }
    }

    /// The entries read from `vars`, in order: skipped variables left out.
    pub open spec fn env_entries(&self, vars: Seq<(Seq<char>, Seq<char>)>) -> Seq<
        (Seq<char>, ValueModel),
    >
        decreases vars.len(),
    {
        if vars.len() == 0 {
            Seq::empty()
        } else {
            let prev = self.env_entries(vars.drop_last());
            let (key, value) = vars.last();
            if self.ignore_empty_view() && value.len() == 0 {
                prev
            } else {
                match self.env_key(key) {
                    None => prev,
                    Some(k) => prev.push(
                        (k, ValueModel { origin: Some(env_origin()), kind: self.env_value(value) }),
                    ),
                }
            }
        }
    }

    /// The variables read: those of the alternate source when it is set,
    /// else `system`.
    pub open spec fn env_vars(&self, system: Seq<(String, String)>) -> Seq<(Seq<char>, Seq<char>)> {
        match self.source_view() {
            Some(s) => s.map_values(|e: (Seq<char>, String)| (e.0, e.1@)),
            None => system.map_values(|e: (String, String)| (e.0@, e.1@)),
        }
    }

    /// A source with nothing set.
    pub fn new() -> (e: Self)
        ensures
            e.is_default(),
    {
        Self::default()
    }

    /// Whether nothing is set.
    pub open spec fn is_default(&self) -> bool {
        &&& self.prefix_view() is None
        &&& self.prefix_separator_view() is None
        &&& self.separator_view() is None
        &&& !self.ignore_empty_view()
        &&& !self.try_parsing_view()
        &&& self.source_view() is None
    }

    /// A source that only reads keys with the given prefix.
    pub fn with_prefix(s: &str) -> (e: Self)
        ensures
            e.prefix_view() == Some(s@),
            e.prefix_separator_view() is None,
            e.separator_view() is None,
            !e.ignore_empty_view(),
            !e.try_parsing_view(),
            e.source_view() is None,
    {
        let mut e = Self::default();
        e.prefix = Some(copy_string(s));
        e
    }

    /// Sets the prefix.
    pub fn prefix(self, s: &str) -> (e: Self)
        ensures
            e.prefix_view() == Some(s@),
            e.prefix_separator_view() == self.prefix_separator_view(),
            e.separator_view() == self.separator_view(),
            e.ignore_empty_view() == self.ignore_empty_view(),
            e.try_parsing_view() == self.try_parsing_view(),
            e.source_view() == self.source_view(),
    {
        let mut e = self;
        e.prefix = Some(copy_string(s));
        e
    }

    /// Sets the separator between prefix and key.
    pub fn prefix_separator(self, s: &str) -> (e: Self)
        ensures
            e.prefix_view() == self.prefix_view(),
            e.prefix_separator_view() == Some(s@),
            e.separator_view() == self.separator_view(),
            e.ignore_empty_view() == self.ignore_empty_view(),
            e.try_parsing_view() == self.try_parsing_view(),
            e.source_view() == self.source_view(),
    {
        let mut e = self;
        e.prefix_separator = Some(copy_string(s));
        e
    }

    /// Sets the separator between key segments.
    pub fn separator(self, s: &str) -> (e: Self)
        ensures
            e.prefix_view() == self.prefix_view(),
            e.prefix_separator_view() == self.prefix_separator_view(),
            e.separator_view() == Some(s@),
            e.ignore_empty_view() == self.ignore_empty_view(),
            e.try_parsing_view() == self.try_parsing_view(),
            e.source_view() == self.source_view(),
    {
        let mut e = self;
        e.separator = Some(copy_string(s));
        e
    }

    /// Sets whether empty values are ignored.
    pub fn ignore_empty(self, ignore: bool) -> (e: Self)
        ensures
            e.prefix_view() == self.prefix_view(),
            e.prefix_separator_view() == self.prefix_separator_view(),
            e.separator_view() == self.separator_view(),
            e.ignore_empty_view() == ignore,
            e.try_parsing_view() == self.try_parsing_view(),
            e.source_view() == self.source_view(),
    {
        let mut e = self;
        e.ignore_empty = ignore;
        e
    }

    /// Sets whether values are read as booleans, integers and floats.
    pub fn try_parsing(self, try_parsing: bool) -> (e: Self)
        ensures
            e.prefix_view() == self.prefix_view(),
            e.prefix_separator_view() == self.prefix_separator_view(),
            e.separator_view() == self.separator_view(),
            e.ignore_empty_view() == self.ignore_empty_view(),
            e.try_parsing_view() == try_parsing,
            e.source_view() == self.source_view(),
    {
        let mut e = self;
        e.try_parsing = try_parsing;
        e
    }

    /// Sets the alternate source of variables.
    pub fn source(self, source: Option<Table<String>>) -> (e: Self)
        ensures
            e.prefix_view() == self.prefix_view(),
            e.prefix_separator_view() == self.prefix_separator_view(),
            e.separator_view() == self.separator_view(),
            e.ignore_empty_view() == self.ignore_empty_view(),
            e.try_parsing_view() == self.try_parsing_view(),
            e.source_view() == match source {
                Some(t) => Some(t@),
                None => None,
            },
    {
        let mut e = self;
        e.source = source;
        e
    }

    fn prefix_pattern(&self) -> (r: Option<Vec<char>>)
        ensures
            match self.prefix_view() {
                Some(p) => r matches Some(v) && v@ == lowercase(p + self.prefix_separator_text()),
                None => r is None,
            },
    {
        match &self.prefix {
            None => None,
            Some(p) => {
                let mut pattern = copy_string(p.as_str());
                match &self.prefix_separator {
                    Some(ps) => pattern.append(ps.as_str()),
                    None => match &self.separator {
                        Some(s) => pattern.append(s.as_str()),
                        None => pattern.append("_"),
                    },
                }
                let lower = to_lowercase(pattern.as_str());
                Some(chars_of(lower.as_str()))
            },
        }
    }

    /// The key of a variable, as `env_key` defines it.
    fn key_of(&self, pattern: &Option<Vec<char>>, key: &str) -> (r: Option<String>)
        requires
            match self.prefix_view() {
                Some(p) => pattern matches Some(v) && v@ == lowercase(
                    p + self.prefix_separator_text(),
                ),
                None => pattern is None,
            },
        ensures
            match r {
                Some(k) => self.env_key(key@) == Some(k@),
                None => self.env_key(key@) is None,
            },
    {
        let lower = to_lowercase(key);
        let k = chars_of(lower.as_str());
        let stripped: Vec<char> = match pattern {
            Some(pp) => {
                if starts_with_at(k.as_slice(), 0, pp.as_slice()) {
                    proof {
                        assert(k@.skip(0) == k@);
                    }
                    chars_from(k.as_slice(), pp.len())
                } else {
                    proof {
                        assert(k@.skip(0) == k@);
                    }
                    return None;
                }
            },
            None => k,
        };
        match &self.separator {
            Some(sep) => {
                let sc = chars_of(sep.as_str());
                if sc.len() > 0 {
                    let dot = ['.'];
                    let replaced = replace_chars(stripped.as_slice(), sc.as_slice(), &dot);
                    assert(dot@ == "."@) by {
                        reveal_strlit(".");
                    }
                    Some(string_of(replaced.as_slice()))
                } else {
                    Some(string_of(stripped.as_slice()))
                }
            },
            None => Some(string_of(stripped.as_slice())),
        }
    }

    /// The value of a variable, as `env_value` defines it.
    fn value_of(&self, value: &str) -> (r: ValueKind)
        ensures
            value_model(ConfigValue { origin: None, kind: r }).kind == self.env_value(
                value@,
            ),
    {
        if self.try_parsing {
            let lower = to_lowercase(value);
            let t = String::from_str("true");
            let f = String::from_str("false");
            if lower == t {
                return ValueKind::Boolean(true);
            }
            if lower == f {
                return ValueKind::Boolean(false);
            }
            let cs = chars_of(value);
            match parse_i64(cs.as_slice()) {
                Some(v) => ValueKind::I64(v),
                None => {
                    if float_text_ok(cs.as_slice()) {
                        ValueKind::Float(copy_string(value))
                    } else {
                        ValueKind::String(copy_string(value))
                    }
                },
            }
        } else {
            ValueKind::String(copy_string(value))
        }
    }

    /// Reads the variables: those of the alternate source when it is set,
    /// else the given process environment, in order.  Each kept variable
    /// is inserted under its key, so a later variable whose key maps to
    /// the same key replaces an earlier one.
    pub fn collect(&self, system: &Vec<(String, String)>) -> (r: Table<ConfigValue>)
        ensures
            table_model(r) == insert_all(Seq::empty(), self.env_entries(self.env_vars(system@))),
    {
        let ghost vars = self.env_vars(system@);
        let vars_exec: Vec<(String, String)> = match &self.source {
            Some(t) => {
                let mut v: Vec<(String, String)> = Vec::new();
                let mut i: usize = 0;
                while i < t.entries.len()
                    invariant
                        i <= t.entries.len(),
                        v@.len() == i,
                        forall|j: int|
                            0 <= j < i ==> v@[j].0@ == (#[trigger] t.entries@[j]).0@ && v@[j].1@
                                == t.entries@[j].1@,
                    decreases t.entries.len() - i,
                {
                    v.push(
                        (
                            copy_string(t.entries[i].0.as_str()),
                            copy_string(t.entries[i].1.as_str()),
                        ),
                    );
                    i = i + 1;
                }
                proof {
                    assert(v@.map_values(|e: (String, String)| (e.0@, e.1@)) =~= vars);
                }
                v
            },
            None => {
                let mut v: Vec<(String, String)> = Vec::new();
                let mut i: usize = 0;
                while i < system.len()
                    invariant
                        i <= system.len(),
                        v@.len() == i,
                        forall|j: int|
                            0 <= j < i ==> v@[j].0@ == (#[trigger] system@[j]).0@ && v@[j].1@
                                == system@[j].1@,
                    decreases system.len() - i,
                {
                    v.push((copy_string(system[i].0.as_str()), copy_string(system[i].1.as_str())));
                    i = i + 1;
                }
                proof {
                    assert(v@.map_values(|e: (String, String)| (e.0@, e.1@)) =~= vars);
                }
                v
            },
        };
        let uri = String::from_str("the environment");
        let pattern = self.prefix_pattern();
        let mut m: Table<ConfigValue> = Table::new();
        let mut i: usize = 0;
        while i < vars_exec.len()
            invariant
                i <= vars_exec.len(),
                vars == vars_exec@.map_values(|e: (String, String)| (e.0@, e.1@)),
                uri@ == env_origin(),
                match self.prefix_view() {
                    Some(p) => pattern matches Some(v) && v@ == lowercase(
                        p + self.prefix_separator_text(),
                    ),
                    None => pattern is None,
                },
                table_model(m) == insert_all(Seq::empty(), self.env_entries(vars.take(i as int))),
            decreases vars_exec.len() - i,
        {
            proof {
                assert(vars.take(i + 1).drop_last() == vars.take(i as int));
                assert(vars.take(i + 1).last() == vars[i as int]);
            }
            let key: &str = vars_exec[i].0.as_str();
            let value: &str = vars_exec[i].1.as_str();
            let ghost prev = self.env_entries(vars.take(i as int));
            assert(key@ == vars[i as int].0 && value@ == vars[i as int].1);
            let empty = chars_of(value).len() == 0;
            if !(self.ignore_empty && empty) {
                match self.key_of(&pattern, key) {
                    Some(k) => {
                        let kind = self.value_of(value);
                        let v = ConfigValue::new(Some(&uri), kind);
                        let ghost m0 = m;
                        let ghost vv = v;
                        let ghost entry = (
                            k@,
                            ValueModel {
                                origin: Some(env_origin()),
                                kind: self.env_value(value@),
                            },
                        );
                        assert(value_model(vv) == entry.1);
                        m.insert(k, v);
                        proof {
                            lemma_table_model_insert(m0, k@, vv, m);
                            assert(self.env_entries(vars.take(i + 1)) == prev.push(entry));
                            assert(prev.push(entry).drop_last() == prev);
                        }
                    },
                    None => {},
                }
            }
            i = i + 1;
        }
        proof {
            assert(vars.take(vars_exec@.len() as int) == vars);
        }
        m
    }
}

/// Law: with a prefix, a variable is read only when its key, lowercased,
/// begins with the prefix followed by the prefix separator (lowercased);
/// without a separator, the key read is the rest of the key after them.
pub proof fn law_prefix_limits_keys(env: Environment, key: Seq<char>)
    requires
        env.prefix_view() is Some,
    ensures
        ({
            let pattern = lowercase(env.prefix_view()->0 + env.prefix_separator_text());
            &&& env.env_key(key) is Some ==> starts_with(lowercase(key), pattern)
            &&& env.separator_view() is None && starts_with(lowercase(key), pattern)
                ==> env.env_key(key) == Some(lowercase(key).skip(pattern.len() as int))
        }),
{
}

/// Law: with a non-empty separator, every occurrence of the separator in
/// the key (after the prefix and prefix separator are removed) becomes a
/// dot: a key made of segments `a`, `b` and `c` joined by the separator,
/// in which the separator occurs nowhere else, is read as `a.b.c`.
pub proof fn law_separator_becomes_dot(
    env: Environment,
    key: Seq<char>,
    a: Seq<char>,
    b: Seq<char>,
    c: Seq<char>,
)
    requires
        env.separator_view() matches Some(sep) && sep.len() > 0,
        ({
            let sep = env.separator_view()->0;
            let w = a + sep + b + sep + c;
            &&& match env.prefix_view() {
                Some(p) => lowercase(key) == lowercase(p + env.prefix_separator_text()) + w,
                None => lowercase(key) == w,
            }
            &&& forall|i: int|
                0 <= i < w.len() && starts_with(#[trigger] w.skip(i), sep) ==> i == a.len() || i
                    == a.len() + sep.len() + b.len()
        }),
    ensures
        env.env_key(key) == Some(a + "."@ + b + "."@ + c),
{
    let sep = env.separator_view()->0;
    let w = a + sep + b + sep + c;
    let dot = "."@;
    if let Some(p) = env.prefix_view() {
        let pattern = lowercase(p + env.prefix_separator_text());
        assert((pattern + w).take(pattern.len() as int) == pattern);
        assert((pattern + w).skip(pattern.len() as int) == w);
    }
    let t1 = b + sep + c;
    assert(w == a + sep + t1);
    assert forall|i: int| 0 <= i < a.len() implies !starts_with(#[trigger] (a + sep + t1).skip(i), sep) by {
        assert(w.skip(i) == (a + sep + t1).skip(i));
    }
    law_replace_all_split(a, sep, t1, dot);
    let off = a.len() + sep.len();
    assert forall|i: int| 0 <= i < b.len() implies !starts_with(#[trigger] (b + sep + c).skip(i), sep) by {
        assert(w.skip(off + i) == (b + sep + c).skip(i));
    }
    law_replace_all_split(b, sep, c, dot);
    let off2 = off + b.len() + sep.len();
    assert forall|i: int| 0 <= i < c.len() implies !starts_with(#[trigger] c.skip(i), sep) by {
        assert(w.skip(off2 + i) == c.skip(i));
    }
    law_replace_all_absent(c, sep, dot);
    assert(a + dot + (b + dot + c) == a + dot + b + dot + c);
}

/// Law: each variable is read on its own and in order: the entries read
/// from two runs of variables, one after the other, are those of the first
/// followed by those of the second.
pub proof fn law_env_entries_concat(
    env: Environment,
    a: Seq<(Seq<char>, Seq<char>)>,
    b: Seq<(Seq<char>, Seq<char>)>,
)
    ensures
        env.env_entries(a + b) == env.env_entries(a) + env.env_entries(b),
    decreases b.len(),
{
    if b.len() == 0 {
        assert(a + b == a);
        assert(env.env_entries(a) + Seq::<(Seq<char>, ValueModel)>::empty() == env.env_entries(a));
    } else {
        assert((a + b).drop_last() == a + b.drop_last());
        assert((a + b).last() == b.last());
        law_env_entries_concat(env, a, b.drop_last());
        let ea = env.env_entries(a);
        let eb = env.env_entries(b.drop_last());
        let (key, value) = b.last();
        if !(env.ignore_empty_view() && value.len() == 0) {
            if let Some(k) = env.env_key(key) {
                let e = (k, ValueModel { origin: Some(env_origin()), kind: env.env_value(value) });
                assert((ea + eb).push(e) == ea + eb.push(e));
            }
        }
    }
}

/// Law: what one variable gives: nothing when its value is empty and
/// empty values are ignored, or when its key lacks the prefix; else one
/// entry under the key read, whose value carries the environment as its
/// origin and the kind its value reads as.
pub proof fn law_env_single(env: Environment, key: Seq<char>, value: Seq<char>)
    ensures
        env.env_entries(seq![(key, value)]) == if env.ignore_empty_view() && value.len() == 0 {
            Seq::<(Seq<char>, ValueModel)>::empty()
        } else {
            match env.env_key(key) {
                None => Seq::empty(),
                Some(k) => seq![(k, ValueModel { origin: Some(env_origin()), kind: env.env_value(value) })],
            }
        },
{
    let v = seq![(key, value)];
    assert(v.drop_last() == Seq::<(Seq<char>, Seq<char>)>::empty());
    assert(v.last() == (key, value));
    assert(env.env_entries(Seq::<(Seq<char>, Seq<char>)>::empty()) == Seq::<(Seq<char>, ValueModel)>::empty());
    if let Some(k) = env.env_key(key) {
        let e = (k, ValueModel { origin: Some(env_origin()), kind: env.env_value(value) });
        assert(Seq::<(Seq<char>, ValueModel)>::empty().push(e) == seq![e]);
    }
}

/// Law: without `try_parsing` every value is read as the string itself;
/// with it, `true` and `false` in any case are read as booleans, a decimal
/// integer that fits an `i64` as that integer, other decimal numbers as
/// floats of the same text, and anything else as the string itself.
pub proof fn law_env_value(env: Environment, value: Seq<char>)
    ensures
        !env.try_parsing_view() ==> env.env_value(value) == KindModel::Str(value),
        env.try_parsing_view() && lowercase(value) == "true"@ ==> env.env_value(value)
            == KindModel::Boolean(true),
        env.try_parsing_view() && lowercase(value) == "false"@ ==> env.env_value(value)
            == KindModel::Boolean(false),
        env.try_parsing_view() && lowercase(value) != "true"@ && lowercase(value) != "false"@ 
            && signed_text(value) is Some && i64::MIN <= signed_text(value)->0 <= i64::MAX
            ==> env.env_value(value) == KindModel::I64(signed_text(value)->0 as i64),
        env.try_parsing_view() && lowercase(value) != "true"@ && lowercase(value) != "false"@
            && !(signed_text(value) is Some && i64::MIN <= signed_text(value)->0 <= i64::MAX)
            && !is_float_text(value)
            ==> env.env_value(value) == KindModel::Str(value),
{
    reveal_strlit("true");
    reveal_strlit("false");
    assert("true"@ != "false"@) by {
        assert("true"@.len() != "false"@.len());
    }
}

/// `Default`: nothing set.
impl Default for Environment {
    fn default() -> (e: Self)
        ensures
            e.is_default(),
    {
        Environment {
            prefix: None,
            prefix_separator: None,
            separator: None,
            ignore_empty: false,
            try_parsing: false,
            source: None,
        }
    }
}

/// The characters of `s` from `start` on.
fn chars_from(s: &[char], start: usize) -> (r: Vec<char>)
    requires
        start <= s.len(),
    ensures
        r@ == s@.skip(start as int),
{
    let mut r: Vec<char> = Vec::new();
    let mut i = start;
    while i < s.len()
        invariant
            start <= i <= s.len(),
            r@ == s@.subrange(start as int, i as int),
        decreases s.len() - i,
    {
        r.push(s[i]);
        proof {
            assert(s@.subrange(start as int, i + 1) == s@.subrange(start as int, i as int).push(
                s@[i as int],
            ));
        }
        i = i + 1;
    }
    r
}

} // verus!

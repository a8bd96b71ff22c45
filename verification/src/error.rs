//! Errors of configuration handling and the text they display.
use vstd::prelude::*;
use vstd::string::StringExecFns;

use crate::text::{
    copy_string, debug_string, debug_text, decimal, decimal_i128, decimal_u128,
    law_decimal_reads_back, law_signed_decimal_reads_back, signed_decimal, signed_text,
};
use crate::value::{opt_ref_view, opt_view};

verus! {

#[verifier::external_type_specification]
#[verifier::external_body]
pub struct ExErrorKind(nom::error::ErrorKind);

/// What was found where something else was expected.
#[derive(Debug, Clone, PartialEq)]
pub enum Unexpected {
    Bool(bool),
    I64(i64),
    I128(i128),
    U64(u64),
    U128(u128),
    /// A floating-point number, by its decimal text.
    Float(String),
    Str(String),
    Unit,
    Sequence,
    Mapping,
}

/// Represents all possible errors that can occur when working with
/// configuration.
#[derive(Debug)]
pub enum ConfigError {
    /// Configuration is frozen and no further mutations can be made.
    Frozen,
    /// Configuration property was not found.
    NotFound(String),
    /// Configuration path could not be parsed.
    PathParse(nom::error::ErrorKind),
    /// Configuration could not be parsed from file.
    FileParse {
        /// The URI used to access the file (if not loaded from a string).
        uri: Option<String>,
        /// The message of the error that the format's parser reported.
        cause: String,
    },
    /// A value could not be converted into the requested type.
    Type {
        /// The URI that references the source that the value came from.
        origin: Option<String>,
        /// What we found when parsing the value.
        unexpected: Unexpected,
        /// What was expected when parsing the value.
        expected: &'static str,
        /// The key in the configuration hash of this value (if available).
        key: Option<String>,
    },
    /// Custom message.
    Message(String),
    /// Unadorned error from a foreign origin, by its message.
    Foreign(String),
}

pub open spec fn bool_text(b: bool) -> Seq<char> {
    if b {
        "true"@
    } else {
        "false"@
    }
}

/// What `Display` prints for an `Unexpected`.
pub open spec fn unexpected_text(u: Unexpected) -> Seq<char> {
    match u {
        Unexpected::Bool(b) => "boolean `"@ + bool_text(b) + "`"@,
        Unexpected::I64(i) => "64-bit integer `"@ + signed_decimal(i as int) + "`"@,
        Unexpected::I128(i) => "128-bit integer `"@ + signed_decimal(i as int) + "`"@,
        Unexpected::U64(i) => "64-bit unsigned integer `"@ + decimal(i as nat) + "`"@,
        Unexpected::U128(i) => "128-bit unsigned integer `"@ + decimal(i as nat) + "`"@,
        Unexpected::Float(v) => "floating point `"@ + v@ + "`"@,
        Unexpected::Str(s) => "string "@ + debug_text(s@),
        Unexpected::Unit => "unit value"@,
        Unexpected::Sequence => "sequence"@,
        Unexpected::Mapping => "map"@,
    }
}

/// What `Display` prints for a `ConfigError`.
pub open spec fn error_text(e: ConfigError) -> Seq<char> {
    match e {
        ConfigError::Frozen => "configuration is frozen"@,
        ConfigError::PathParse(kind) => nom_kind_description(kind),
        ConfigError::Message(s) => s@,
        ConfigError::Foreign(s) => s@,
        ConfigError::NotFound(key) => "configuration property "@ + debug_text(key@)
            + " not found"@,
        ConfigError::Type { origin, unexpected, expected, key } => "invalid type: "@
            + unexpected_text(unexpected) + ", expected "@ + expected@ + match key {
            Some(k) => " for key `"@ + k@ + "`"@,
            None => Seq::empty(),
        } + match origin {
            Some(o) => " in "@ + o@,
            None => Seq::empty(),
        },
        ConfigError::FileParse { uri, cause } => cause@ + match uri {
            Some(u) => " in "@ + u@,
            None => Seq::empty(),
        },
    }
}

/// The key after prepending `segment`: a dot separates them when asked
/// for, unless the key is empty or starts with `[`.
pub open spec fn prepended_key(segment: Seq<char>, add_dot: bool, key: Option<Seq<char>>) -> Seq<
    char,
> {
    let k = match key {
        Some(k) => k,
        None => Seq::empty(),
    };
    let dot = add_dot && k.len() > 0 && k[0] != '[';
    segment + (if dot {
        "."@
    } else {
        Seq::empty()
    }) + k
}

/// The text nom's `ErrorKind::description` gives a kind of parse error:
/// one fixed text per kind, from nom's own table.
pub uninterp spec fn nom_kind_description(k: nom::error::ErrorKind) -> Seq<char>;

/// `ErrorKind::description` of nom: the text is named
/// `nom_kind_description` of the kind.
#[verifier::external_body]
fn error_kind_description(k: &nom::error::ErrorKind) -> (r: String)
    ensures
        r@ == nom_kind_description(*k),
{
    k.description().to_string()
}

impl Unexpected {
    /// The text that `Display` prints.
    pub fn to_text(&self) -> (r: String)
        ensures
            r@ == unexpected_text(*self),
    {
        match self {
            Unexpected::Bool(b) => {
                let mut r = String::from_str("boolean `");
                if *b {
                    r.append("true");
                } else {
                    r.append("false");
                }
                r.append("`");
                r
            },
            Unexpected::I64(i) => {
                let mut r = String::from_str("64-bit integer `");
                let d = decimal_i128(*i as i128);
                r.append(d.as_str());
                r.append("`");
                r
            },
            Unexpected::I128(i) => {
                let mut r = String::from_str("128-bit integer `");
                let d = decimal_i128(*i);
                r.append(d.as_str());
                r.append("`");
                r
            },
            Unexpected::U64(i) => {
                let mut r = String::from_str("64-bit unsigned integer `");
                let d = decimal_u128(*i as u128);
                r.append(d.as_str());
                r.append("`");
                r
            },
            Unexpected::U128(i) => {
                let mut r = String::from_str("128-bit unsigned integer `");
                let d = decimal_u128(*i);
                r.append(d.as_str());
                r.append("`");
                r
            },
            Unexpected::Float(v) => {
                let mut r = String::from_str("floating point `");
                r.append(v.as_str());
                r.append("`");
                r
            },
            Unexpected::Str(s) => {
                let mut r = String::from_str("string ");
                let d = debug_string(s.as_str());
                r.append(d.as_str());
                r
            },
            Unexpected::Unit => String::from_str("unit value"),
            Unexpected::Sequence => String::from_str("sequence"),
            Unexpected::Mapping => String::from_str("map"),
        }
    }
}

impl ConfigError {
    /// An error carrying a message of the data being read or written.
    pub fn custom(msg: &str) -> (r: Self)
        ensures
            r matches ConfigError::Message(m) && m@ == msg@,
    {
        ConfigError::Message(copy_string(msg))
    }

    /// A type error without a key.
    pub fn invalid_type(origin: Option<String>, unexpected: Unexpected, expected: &'static str) -> (r:
        Self)
        ensures
            r == (ConfigError::Type { origin, unexpected, expected, key: None }),
    {
        ConfigError::Type { origin, unexpected, expected, key: None }
    }

    /// The error for a document whose root is not a map.
    pub fn invalid_root(origin: Option<&String>, unexpected: Unexpected) -> (r: Box<Self>)
        ensures
            match *r {
                ConfigError::Type { origin: o, unexpected: u, expected, key } => opt_view(o)
                    == opt_ref_view(origin) && u == unexpected && expected@ == "a map"@ && key is None,
                _ => false,
            },
    {
        let o = match origin {
            Some(s) => Some(copy_string(s.as_str())),
            None => None,
        };
        Box::new(ConfigError::Type { origin: o, unexpected, expected: "a map", key: None })
    }

    /// Sets the key of a type error; other errors are returned unchanged.
    pub fn extend_with_key(self, key: &str) -> (r: Self)
        ensures
            match self {
                ConfigError::Type { origin, unexpected, expected, .. } => match r {
                    ConfigError::Type { origin: o2, unexpected: u2, expected: e2, key: k2 } => o2
                        == origin && u2 == unexpected && e2 == expected && opt_view(k2) == Some(
                        key@,
                    ),
                    _ => false,
                },
                _ => r == self,
            },
    {
        match self {
            ConfigError::Type { origin, unexpected, expected, .. } => ConfigError::Type {
                origin,
                unexpected,
                expected,
                key: Some(copy_string(key)),
            },
            _ => self,
        }
    }

    fn prepend(self, segment: &str, add_dot: bool) -> (r: Self)
        ensures
            match self {
                ConfigError::Type { origin, unexpected, expected, key } => match r {
                    ConfigError::Type { origin: o2, unexpected: u2, expected: e2, key: k2 } => o2
                        == origin && u2 == unexpected && e2 == expected && opt_view(k2) == Some(
                        prepended_key(segment@, add_dot, opt_view(key)),
                    ),
                    _ => false,
                },
                ConfigError::NotFound(key) => match r {
                    ConfigError::NotFound(k2) => k2@ == prepended_key(
                        segment@,
                        add_dot,
                        Some(key@),
                    ),
                    _ => false,
                },
                _ => r == self,
            },
    {
        match self {
            ConfigError::Type { origin, unexpected, expected, key } => ConfigError::Type {
                origin,
                unexpected,
                expected,
                key: Some(concat_key(segment, add_dot, key)),
            },
            ConfigError::NotFound(key) => ConfigError::NotFound(
                concat_key(segment, add_dot, Some(key)),
            ),
            _ => self,
        }
    }

    /// Prepends a table key to the key of a type or not-found error.
    pub fn prepend_key(self, key: &str) -> (r: Self)
        ensures
            match self {
                ConfigError::Type { origin, unexpected, expected, key: k } => match r {
                    ConfigError::Type { origin: o2, unexpected: u2, expected: e2, key: k2 } => o2
                        == origin && u2 == unexpected && e2 == expected && opt_view(k2) == Some(
                        prepended_key(key@, true, opt_view(k)),
                    ),
                    _ => false,
                },
                ConfigError::NotFound(k) => match r {
                    ConfigError::NotFound(k2) => k2@ == prepended_key(key@, true, Some(k@)),
                    _ => false,
                },
                _ => r == self,
            },
    {
        self.prepend(key, true)
    }

    /// Prepends an array index, written `[idx]`, to the key of a type or
    /// not-found error.
    pub fn prepend_index(self, idx: usize) -> (r: Self)
        ensures
            match self {
                ConfigError::Type { origin, unexpected, expected, key: k } => match r {
                    ConfigError::Type { origin: o2, unexpected: u2, expected: e2, key: k2 } => o2
                        == origin && u2 == unexpected && e2 == expected && opt_view(k2) == Some(
                        prepended_key(index_segment(idx as nat), false, opt_view(k)),
                    ),
                    _ => false,
                },
                ConfigError::NotFound(k) => match r {
                    ConfigError::NotFound(k2) => k2@ == prepended_key(
                        index_segment(idx as nat),
                        false,
                        Some(k@),
                    ),
                    _ => false,
                },
                _ => r == self,
            },
    {
        let mut seg = String::from_str("[");
        let d = decimal_u128(idx as u128);
        seg.append(d.as_str());
        seg.append("]");
        self.prepend(seg.as_str(), false)
    }

    /// The text that `Display` prints.
    pub fn to_text(&self) -> (r: String)
        ensures
            r@ == error_text(*self),
    {
        match self {
            ConfigError::Frozen => String::from_str("configuration is frozen"),
            ConfigError::PathParse(kind) => error_kind_description(kind),
            ConfigError::Message(s) => copy_string(s.as_str()),
            ConfigError::Foreign(s) => copy_string(s.as_str()),
            ConfigError::NotFound(key) => {
                let mut r = String::from_str("configuration property ");
                let d = debug_string(key.as_str());
                r.append(d.as_str());
                r.append(" not found");
                r
            },
            ConfigError::Type { origin, unexpected, expected, key } => {
                let mut r = String::from_str("invalid type: ");
                let u = unexpected.to_text();
                r.append(u.as_str());
                r.append(", expected ");
                r.append(*expected);
                if let Some(k) = key {
                    r.append(" for key `");
                    r.append(k.as_str());
                    r.append("`");
                }
                if let Some(o) = origin {
                    r.append(" in ");
                    r.append(o.as_str());
                }
                r
            },
            ConfigError::FileParse { uri, cause } => {
                let mut r = copy_string(cause.as_str());
                if let Some(u) = uri {
                    r.append(" in ");
                    r.append(u.as_str());
                }
                r
            },
        }
    }
}

/// The segment `[idx]` that `prepend_index` puts in front of a key.
pub open spec fn index_segment(idx: nat) -> Seq<char> {
    "["@ + decimal(idx) + "]"@
}

/// Law: prepending a table key to an error's key path: with no key yet,
/// the path is the table key; before a key that starts with a field name,
/// a dot joins them; before an index (`[`...) or an empty key they are
/// joined as they are.  An index is prepended as `[`, its decimal text and
/// `]`, joined to the rest without a dot, and its text reads back as the
/// index.
pub proof fn law_prepended_key(segment: Seq<char>, key: Seq<char>, idx: nat)
    ensures
        prepended_key(segment, true, None) == segment,
        key.len() > 0 && key[0] != '[' ==> prepended_key(segment, true, Some(key)) == segment + "."@
            + key,
        key.len() == 0 || key[0] == '[' ==> prepended_key(segment, true, Some(key)) == segment + key,
        prepended_key(segment, false, Some(key)) == segment + key,
        prepended_key(segment, false, None) == segment,
        ({
            let t = index_segment(idx);
            &&& t[0] == '['
            &&& t.last() == ']'
            &&& t.subrange(1, t.len() - 1) == decimal(idx)
            &&& signed_text(t.subrange(1, t.len() - 1)) == Some(idx as int)
        }),
{
    reveal_strlit("[");
    reveal_strlit("]");
    reveal_strlit(".");
    let d = decimal(idx);
    let t = index_segment(idx);
    law_decimal_reads_back(idx);
    law_signed_decimal_reads_back(idx as int);
    assert(t.subrange(1, t.len() - 1) =~= d);
    assert(segment + Seq::<char>::empty() + key == segment + key);
    assert(segment + Seq::<char>::empty() + Seq::<char>::empty() == segment);
    assert(segment + Seq::<char>::empty() == segment);
}

fn concat_key(segment: &str, add_dot: bool, key: Option<String>) -> (r: String)
    ensures
        r@ == prepended_key(segment@, add_dot, opt_view(key)),
{
    let k = match key {
        Some(k) => k,
        None => String::new(),
    };
    let kc = crate::text::chars_of(k.as_str());
    let dot = add_dot && kc.len() > 0 && kc[0] != '[';
    let mut r = copy_string(segment);
    if dot {
        r.append(".");
    }
    r.append(k.as_str());
    r
}

} // verus!

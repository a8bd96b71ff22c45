//! Formats of configuration source data and the check that a parsed
//! document's root is a table.
use vstd::prelude::*;
use vstd::string::StringExecFns;

use crate::error::{ConfigError, Unexpected};
use crate::text::{copy_string, decimal, decimal_u128};
use crate::value::{
    lemma_value_model_table, opt_ref_view, opt_view, table_model, value_model, KindModel, Table,
    ConfigValue, ValueKind,
};

verus! {

/// Why a format could not turn text into a table.
#[derive(Debug)]
pub enum FormatError {
    /// The document's root is not a table.
    Root(Box<ConfigError>),
    /// A YAML text held more than one document (how many it held).
    MultipleDocuments(usize),
    /// A YAML real number that `f64::from_str` rejects.
    FloatParsing(String),
    /// The outside parser rejected the text; its message.
    Parser(String),
}

/// `t` is the text that `Display` prints of `e`: a root error's own text,
/// the count of YAML documents, the real number that did not parse, or the
/// parser's message.
pub open spec fn format_error_text(e: FormatError, t: Seq<char>) -> bool {
    match e {
        FormatError::Root(e) => t == crate::error::error_text(*e),
        FormatError::MultipleDocuments(n) => t == "Got "@ + decimal(n as nat)
            + " YAML documents, expected 1"@,
        FormatError::FloatParsing(s) => t == "Parsing "@ + s@ + " as floating point number failed"@,
        FormatError::Parser(m) => t == m@,
    }
}

impl FormatError {
    /// The text that `Display` prints.
    pub fn to_text(&self) -> (r: String)
        ensures
            format_error_text(*self, r@),
    {
        match self {
            FormatError::Root(e) => e.to_text(),
            FormatError::MultipleDocuments(n) => {
                let mut r = String::from_str("Got ");
                let d = decimal_u128(*n as u128);
                r.append(d.as_str());
                r.append(" YAML documents, expected 1");
                r
            },
            FormatError::FloatParsing(s) => {
                let mut r = String::from_str("Parsing ");
                r.append(s.as_str());
                r.append(" as floating point number failed");
                r
            },
            FormatError::Parser(m) => copy_string(m.as_str()),
        }
    }
}

/// Describes a format of configuration source data: how text becomes a
/// table of values.  `uri` names the source, when there is one.
pub trait Format {
    /// Whether `r` is a result that parsing `text` from source `uri` gives
    /// with this format; each format says what its parser gives.
    spec fn parses_to(
        &self,
        uri: Option<&String>,
        text: &str,
        r: Result<Table<ConfigValue>, FormatError>,
    ) -> bool;

    fn parse(&self, uri: Option<&String>, text: &str) -> (r: Result<Table<ConfigValue>, FormatError>)
        ensures
            self.parses_to(uri, text, r),
    ;
}

/// Whether `u` reports a root of kind `k` (any kind but a table).
pub open spec fn unexpected_reports(u: Unexpected, k: KindModel) -> bool {
    match k {
        KindModel::Nil => u is Unit,
        KindModel::Array(_) => u is Sequence,
        KindModel::Boolean(b) => u == Unexpected::Bool(b),
        KindModel::I64(i) => u == Unexpected::I64(i),
        KindModel::I128(i) => u == Unexpected::I128(i),
        KindModel::U64(i) => u == Unexpected::U64(i),
        KindModel::U128(i) => u == Unexpected::U128(i),
        KindModel::Float(f) => u matches Unexpected::Float(x) && x@ == f,
        KindModel::Str(s) => u matches Unexpected::Str(x) && x@ == s,
        KindModel::Table(_) => u is Mapping,
    }
}

/// The error of a root that is not a table: a type error that expected
/// "a map", with the source's URI as origin, reporting what the root held.
pub open spec fn is_root_error(r: FormatError, uri: Option<Seq<char>>, k: KindModel) -> bool {
    match r {
        FormatError::Root(e) => match *e {
            ConfigError::Type { origin, unexpected, expected, key } => opt_view(origin) == uri
                && unexpected_reports(unexpected, k) && expected@ == "a map"@ && key is None,
            _ => false,
        },
        _ => false,
    }
}

/// What parsing a document whose root converted to `root` yields: its
/// table, or the root error.
pub open spec fn root_table_result(
    r: Result<Table<ConfigValue>, FormatError>,
    uri: Option<Seq<char>>,
    root: KindModel,
) -> bool {
    match root {
        KindModel::Table(m) => r matches Ok(t) && table_model(t) == m,
        _ => r matches Err(e) && is_root_error(e, uri, root),
    }
}

/// Returns the table at the root of a parsed document, or the error that
/// reports what the root held instead.
pub fn extract_root_table(uri: Option<&String>, value: ConfigValue) -> (r: Result<
    Table<ConfigValue>,
    FormatError,
>)
    ensures
        root_table_result(r, opt_ref_view(uri), value_model(value).kind),
{
    let ghost vm = value_model(value);
    let u = match value.kind {
        ValueKind::Table(map) => {
            proof {
                lemma_value_model_table(value.origin, map);
            }
            return Ok(map);
        },
        ValueKind::Nil => Unexpected::Unit,
        ValueKind::Array(_) => Unexpected::Sequence,
        ValueKind::Boolean(b) => Unexpected::Bool(b),
        ValueKind::I64(i) => Unexpected::I64(i),
        ValueKind::I128(i) => Unexpected::I128(i),
        ValueKind::U64(i) => Unexpected::U64(i),
        ValueKind::U128(i) => Unexpected::U128(i),
        ValueKind::Float(f) => Unexpected::Float(f),
        ValueKind::String(s) => Unexpected::Str(s),
    };
    Err(FormatError::Root(ConfigError::invalid_root(uri, u)))
}

} // verus!

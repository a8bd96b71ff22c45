//! Loaded configuration objects: an element with a description of where it
//! came from.
use vstd::prelude::*;

use vstd::string::StringExecFns;

use crate::accessor::Accessor;
use crate::text::{decimal, decimal_u128};
use crate::element::{element_get, get_result_model, ConfigElement, ElementTag};

verus! {

#[verifier::external_type_specification]
#[verifier::external_body]
pub struct ExPathBuf(std::path::PathBuf);

#[verifier::external_type_specification]
#[verifier::external_body]
pub struct ExUrl(url::Url);

/// Where a configuration object came from.
#[derive(Debug)]
pub enum ConfigSourceDescription {
    Unknown,
    Default,
    Overwrite,
    Path(std::path::PathBuf),
    Uri(url::Url),
    Custom(String),
}

/// An element loaded from a source.
#[derive(Debug)]
pub struct ConfigObject {
    element: ConfigElement,
    source: ConfigSourceDescription,
}

/// Why reading a path in an element failed.
#[derive(Debug, Clone, PartialEq)]
pub enum ConfigObjectAccessError {
    NoAccessor,
    AccessWithKeyOnNull(String),
    AccessWithKeyOnBool(String),
    AccessWithKeyOnI8(String),
    AccessWithKeyOnI16(String),
    AccessWithKeyOnI32(String),
    AccessWithKeyOnI64(String),
    AccessWithKeyOnU8(String),
    AccessWithKeyOnU16(String),
    AccessWithKeyOnU32(String),
    AccessWithKeyOnU64(String),
    AccessWithKeyOnF32(String),
    AccessWithKeyOnF64(String),
    AccessWithKeyOnStr(String),
    AccessWithKeyOnList(String),
    AccessWithIndexOnNull(usize),
    AccessWithIndexOnBool(usize),
    AccessWithIndexOnI8(usize),
    AccessWithIndexOnI16(usize),
    AccessWithIndexOnI32(usize),
    AccessWithIndexOnI64(usize),
    AccessWithIndexOnU8(usize),
    AccessWithIndexOnU16(usize),
    AccessWithIndexOnU32(usize),
    AccessWithIndexOnU64(usize),
    AccessWithIndexOnF32(usize),
    AccessWithIndexOnF64(usize),
    AccessWithIndexOnStr(usize),
    AccessWithIndexOnMap(usize),
}

/// Model of an access error: no path, a key applied to an element of the
/// given kind, or an index applied to one.
pub enum AccessErrorModel {
    NoAccessor,
    KeyOn(ElementTag, Seq<char>),
    IndexOn(ElementTag, usize),
}

pub open spec fn access_error_model(e: ConfigObjectAccessError) -> AccessErrorModel {
    match e {
        ConfigObjectAccessError::NoAccessor => AccessErrorModel::NoAccessor,
        ConfigObjectAccessError::AccessWithKeyOnNull(k) => AccessErrorModel::KeyOn(ElementTag::Null, k@),
        ConfigObjectAccessError::AccessWithKeyOnBool(k) => AccessErrorModel::KeyOn(ElementTag::Bool, k@),
        ConfigObjectAccessError::AccessWithKeyOnI8(k) => AccessErrorModel::KeyOn(ElementTag::I8, k@),
        ConfigObjectAccessError::AccessWithKeyOnI16(k) => AccessErrorModel::KeyOn(ElementTag::I16, k@),
        ConfigObjectAccessError::AccessWithKeyOnI32(k) => AccessErrorModel::KeyOn(ElementTag::I32, k@),
        ConfigObjectAccessError::AccessWithKeyOnI64(k) => AccessErrorModel::KeyOn(ElementTag::I64, k@),
        ConfigObjectAccessError::AccessWithKeyOnU8(k) => AccessErrorModel::KeyOn(ElementTag::U8, k@),
        ConfigObjectAccessError::AccessWithKeyOnU16(k) => AccessErrorModel::KeyOn(ElementTag::U16, k@),
        ConfigObjectAccessError::AccessWithKeyOnU32(k) => AccessErrorModel::KeyOn(ElementTag::U32, k@),
        ConfigObjectAccessError::AccessWithKeyOnU64(k) => AccessErrorModel::KeyOn(ElementTag::U64, k@),
        ConfigObjectAccessError::AccessWithKeyOnF32(k) => AccessErrorModel::KeyOn(ElementTag::F32, k@),
        ConfigObjectAccessError::AccessWithKeyOnF64(k) => AccessErrorModel::KeyOn(ElementTag::F64, k@),
        ConfigObjectAccessError::AccessWithKeyOnStr(k) => AccessErrorModel::KeyOn(ElementTag::Str, k@),
        ConfigObjectAccessError::AccessWithKeyOnList(k) => AccessErrorModel::KeyOn(ElementTag::List, k@),
        ConfigObjectAccessError::AccessWithIndexOnNull(n) => AccessErrorModel::IndexOn(ElementTag::Null, n),
        ConfigObjectAccessError::AccessWithIndexOnBool(n) => AccessErrorModel::IndexOn(ElementTag::Bool, n),
        ConfigObjectAccessError::AccessWithIndexOnI8(n) => AccessErrorModel::IndexOn(ElementTag::I8, n),
        ConfigObjectAccessError::AccessWithIndexOnI16(n) => AccessErrorModel::IndexOn(ElementTag::I16, n),
        ConfigObjectAccessError::AccessWithIndexOnI32(n) => AccessErrorModel::IndexOn(ElementTag::I32, n),
        ConfigObjectAccessError::AccessWithIndexOnI64(n) => AccessErrorModel::IndexOn(ElementTag::I64, n),
        ConfigObjectAccessError::AccessWithIndexOnU8(n) => AccessErrorModel::IndexOn(ElementTag::U8, n),
        ConfigObjectAccessError::AccessWithIndexOnU16(n) => AccessErrorModel::IndexOn(ElementTag::U16, n),
        ConfigObjectAccessError::AccessWithIndexOnU32(n) => AccessErrorModel::IndexOn(ElementTag::U32, n),
        ConfigObjectAccessError::AccessWithIndexOnU64(n) => AccessErrorModel::IndexOn(ElementTag::U64, n),
        ConfigObjectAccessError::AccessWithIndexOnF32(n) => AccessErrorModel::IndexOn(ElementTag::F32, n),
        ConfigObjectAccessError::AccessWithIndexOnF64(n) => AccessErrorModel::IndexOn(ElementTag::F64, n),
        ConfigObjectAccessError::AccessWithIndexOnStr(n) => AccessErrorModel::IndexOn(ElementTag::Str, n),
        ConfigObjectAccessError::AccessWithIndexOnMap(n) => AccessErrorModel::IndexOn(ElementTag::Mapping, n),
    }
}

impl ConfigObject {
    /// An object holding `element`, loaded from `source`.
    pub fn new(element: ConfigElement, source: ConfigSourceDescription) -> (o: Self)
        ensures
            o.element() == element,
            o.source() == source,
    {
        ConfigObject { element, source }
    }

    pub closed spec fn element(&self) -> ConfigElement {
        self.element
    }

    pub closed spec fn source(&self) -> ConfigSourceDescription {
        self.source
    }

    /// Reads `accessor` in the object's element.
    pub fn get(&self, accessor: &Accessor) -> (r: Result<
        Option<&ConfigElement>,
        ConfigObjectAccessError,
    >)
        ensures
            get_result_model(r) == element_get(self.element(), accessor@),
    {
        self.element.get(accessor)
    }
}

// ---------------------------------------------------------------------
// Messages
// ---------------------------------------------------------------------
/// How a key error names the kind of element it was applied to.
pub open spec fn key_kind_name(t: ElementTag) -> Seq<char> {
    match t {
        ElementTag::Null => "Null"@,
        ElementTag::Bool => "Bool"@,
        ElementTag::I8 => "i8"@,
        ElementTag::I16 => "i16"@,
        ElementTag::I32 => "i32"@,
        ElementTag::I64 => "i64"@,
        ElementTag::U8 => "u8"@,
        ElementTag::U16 => "u16"@,
        ElementTag::U32 => "u32"@,
        ElementTag::U64 => "u64"@,
        ElementTag::F32 => "f32"@,
        ElementTag::F64 => "f64"@,
        ElementTag::Str => "String"@,
        ElementTag::List => "List"@,
        _ => Seq::empty(),
    }
}

/// How an index error names the kind of element it was applied to.
pub open spec fn index_kind_name(t: ElementTag) -> Seq<char> {
    match t {
        ElementTag::Null => "Null"@,
        ElementTag::Bool => "Bool"@,
        ElementTag::I8 => "i8"@,
        ElementTag::I16 => "i16"@,
        ElementTag::I32 => "i32"@,
        ElementTag::I64 => "i64"@,
        ElementTag::U8 => "u8"@,
        ElementTag::U16 => "u16"@,
        ElementTag::U32 => "u32"@,
        ElementTag::U64 => "u64"@,
        ElementTag::F32 => "f32"@,
        ElementTag::F64 => "f64"@,
        ElementTag::Str => "usize"@,
        ElementTag::Mapping => "Map"@,
        _ => Seq::empty(),
    }
}

/// What `Display` prints for an access error.
pub open spec fn access_error_text(e: AccessErrorModel) -> Seq<char> {
    match e {
        AccessErrorModel::NoAccessor => "Tried to access with no accessor"@,
        AccessErrorModel::KeyOn(t, k) => "Accessed "@ + key_kind_name(t) + " with key '"@ + k + "'"@,
        AccessErrorModel::IndexOn(t, n) => "Accessed "@ + index_kind_name(t) + " with index '"@
            + decimal(n as nat) + "'"@,
    }
}

fn key_message(kind: &str, key: &String) -> (r: String)
    ensures
        r@ == "Accessed "@ + kind@ + " with key '"@ + key@ + "'"@,
{
    let mut r = String::from_str("Accessed ");
    r.append(kind);
    r.append(" with key '");
    r.append(key.as_str());
    r.append("'");
    r
}

fn index_message(kind: &str, n: usize) -> (r: String)
    ensures
        r@ == "Accessed "@ + kind@ + " with index '"@ + decimal(n as nat) + "'"@,
{
    let mut r = String::from_str("Accessed ");
    r.append(kind);
    r.append(" with index '");
    let d = decimal_u128(n as u128);
    r.append(d.as_str());
    r.append("'");
    r
}

impl ConfigObjectAccessError {
    /// The text that `Display` prints.
    pub fn to_text(&self) -> (r: String)
        ensures
            r@ == access_error_text(access_error_model(*self)),
    {
        match self {
            ConfigObjectAccessError::NoAccessor => String::from_str("Tried to access with no accessor"),
            ConfigObjectAccessError::AccessWithKeyOnNull(k) => key_message("Null", k),
            ConfigObjectAccessError::AccessWithKeyOnBool(k) => key_message("Bool", k),
            ConfigObjectAccessError::AccessWithKeyOnI8(k) => key_message("i8", k),
            ConfigObjectAccessError::AccessWithKeyOnI16(k) => key_message("i16", k),
            ConfigObjectAccessError::AccessWithKeyOnI32(k) => key_message("i32", k),
            ConfigObjectAccessError::AccessWithKeyOnI64(k) => key_message("i64", k),
            ConfigObjectAccessError::AccessWithKeyOnU8(k) => key_message("u8", k),
            ConfigObjectAccessError::AccessWithKeyOnU16(k) => key_message("u16", k),
            ConfigObjectAccessError::AccessWithKeyOnU32(k) => key_message("u32", k),
            ConfigObjectAccessError::AccessWithKeyOnU64(k) => key_message("u64", k),
            ConfigObjectAccessError::AccessWithKeyOnF32(k) => key_message("f32", k),
            ConfigObjectAccessError::AccessWithKeyOnF64(k) => key_message("f64", k),
            ConfigObjectAccessError::AccessWithKeyOnStr(k) => key_message("String", k),
            ConfigObjectAccessError::AccessWithKeyOnList(k) => key_message("List", k),
            ConfigObjectAccessError::AccessWithIndexOnNull(i) => index_message("Null", *i),
            ConfigObjectAccessError::AccessWithIndexOnBool(i) => index_message("Bool", *i),
            ConfigObjectAccessError::AccessWithIndexOnI8(i) => index_message("i8", *i),
            ConfigObjectAccessError::AccessWithIndexOnI16(i) => index_message("i16", *i),
            ConfigObjectAccessError::AccessWithIndexOnI32(i) => index_message("i32", *i),
            ConfigObjectAccessError::AccessWithIndexOnI64(i) => index_message("i64", *i),
            ConfigObjectAccessError::AccessWithIndexOnU8(i) => index_message("u8", *i),
            ConfigObjectAccessError::AccessWithIndexOnU16(i) => index_message("u16", *i),
            ConfigObjectAccessError::AccessWithIndexOnU32(i) => index_message("u32", *i),
            ConfigObjectAccessError::AccessWithIndexOnU64(i) => index_message("u64", *i),
            ConfigObjectAccessError::AccessWithIndexOnF32(i) => index_message("f32", *i),
            ConfigObjectAccessError::AccessWithIndexOnF64(i) => index_message("f64", *i),
            ConfigObjectAccessError::AccessWithIndexOnStr(i) => index_message("usize", *i),
            ConfigObjectAccessError::AccessWithIndexOnMap(i) => index_message("Map", *i),
        }
    }
}

} // verus!

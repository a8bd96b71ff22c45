//! The outside parsers' document types, which the readers of the formats
//! hand over to the library.
use vstd::prelude::*;

verus! {

#[verifier::external_type_specification]
#[verifier::external_body]
pub struct ExJsonValue(serde_json::Value);

#[verifier::external_type_specification]
#[verifier::external_body]
pub struct ExTomlValue(::toml::Value);

#[verifier::external_type_specification]
#[verifier::external_body]
pub struct ExJsoncValue<'a>(jsonc_parser::JsonValue<'a>);

#[verifier::external_type_specification]
#[verifier::external_body]
pub struct ExYaml(yaml_rust2::Yaml);

#[verifier::external_type_specification]
#[verifier::external_body]
pub struct ExRonValue(::ron::Value);

#[verifier::external_type_specification]
#[verifier::external_body]
pub struct ExRonNumber(::ron::Number);

#[verifier::external_type_specification]
#[verifier::external_body]
pub struct ExDhallValue(serde_dhall::SimpleValue);

#[verifier::external_type_specification]
#[verifier::external_body]
pub struct ExDhallNumKind(serde_dhall::NumKind);

#[verifier::external_type_specification]
#[verifier::external_body]
pub struct ExGuraType(::gura::GuraType);

#[verifier::external_type_specification]
#[verifier::external_body]
pub struct ExHocon(::hocon::Hocon);

#[verifier::external_type_specification]
#[verifier::external_body]
pub struct ExHoconLoader(::hocon::HoconLoader);

} // verus!

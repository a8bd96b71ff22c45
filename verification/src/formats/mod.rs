//! The document trees of the supported file formats and their conversion
//! into configuration values.
pub mod json;
pub mod json5;
pub mod toml_format;
pub mod gura_format;
pub mod hocon_format;
pub mod dhall;
pub mod yaml;
pub mod ron_format;
pub mod jsonc;
pub mod ini;
pub mod toml_namespace;

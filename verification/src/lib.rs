//! Layered configuration: values gathered from files, strings and the
//! environment, merged by precedence and read back by path.
pub mod outside;
pub mod text;
pub mod value;
pub mod error;
pub mod format;
pub mod formats;
pub mod env;
pub mod accessor;
pub mod element;
pub mod object;
pub mod config;
pub mod file;
pub mod de;
pub mod content;
pub mod builder;

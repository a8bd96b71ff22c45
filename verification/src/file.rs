//! Configuration sources backed by a file, a string or a remote location,
//! read with a format.
use vstd::prelude::*;

use crate::error::{error_text, ConfigError};
use crate::format::{format_error_text, Format, FormatError};
use crate::formats::toml_format::{load_toml, toml_loaded};
use crate::formats::toml_namespace::{namespace_check, namespaced_model, opt_string_ref_view, toml_text_ok};
use crate::text::copy_string;
use crate::value::{opt_view, value_model, Table, ConfigValue};

verus! {

/// A format that is stored in files with known extensions.
pub trait FileStoredFormat: Format {
    /// The file extensions of the format, for instance `[yml, yaml]`.
    fn file_extensions(&self) -> &'static [&'static str];
}

/// Something that lists the file extensions it reads.
pub trait FileExtensions {
    fn extensions(&self) -> &Vec<&'static str>;
}

/// The formats that a file can be read with by name.
#[derive(Debug, Clone, PartialEq)]
pub enum FileFormat {
    /// TOML (parsed with toml).
    Toml,
}

impl FileFormat {
    /// The file extensions of the format.
    pub fn extensions(&self) -> (r: Vec<&'static str>)
        ensures
            match self {
                FileFormat::Toml => r@.len() == 1 && r@[0]@ == "toml"@,
            },
    {
        match self {
            FileFormat::Toml => {
                let mut v: Vec<&'static str> = Vec::new();
                v.push("toml");
                v
            },
        }
    }

    /// Reads text in this format as a value from source `uri`, under an
    /// optional namespace.
    pub fn parse(&self, uri: Option<&String>, text: &str, namespace: Option<&String>) -> (r: Result<
        ConfigValue,
        FormatError,
    >)
        requires
            toml_text_ok(text@, opt_string_ref_view(namespace)),
        ensures
            match self {
                FileFormat::Toml => match toml_loaded(text@) {
                    Ok(root) => r matches Ok(v) && value_model(v) == namespaced_model(
                        crate::value::opt_ref_view(uri),
                        root,
                        opt_string_ref_view(namespace),
                    ),
                    Err(m) => r matches Err(FormatError::Parser(e)) && e@ == m,
                },
            },
    {
        match self {
            FileFormat::Toml => crate::formats::toml_namespace::parse(uri, text, namespace),
        }
    }

    /// Reads text as `parse` does where what is converted holds no
    /// datetime; `None` where it holds one.
    pub fn parse_checked(&self, uri: Option<&String>, text: &str, namespace: Option<&String>) -> (r:
        Option<Result<ConfigValue, FormatError>>)
        ensures
            r is None <==> !toml_text_ok(text@, opt_string_ref_view(namespace)),
            r matches Some(x) ==> match self {
                FileFormat::Toml => match toml_loaded(text@) {
                    Ok(root) => x matches Ok(v) && value_model(v) == namespaced_model(
                        crate::value::opt_ref_view(uri),
                        root,
                        opt_string_ref_view(namespace),
                    ),
                    Err(m) => x matches Err(FormatError::Parser(e)) && e@ == m,
                },
            },
    {
        match load_toml(text) {
            Ok(root) => {
                if !namespace_check(&root, namespace) {
                    return None;
                }
            },
            Err(_) => {},
        }
        Some(self.parse(uri, text, namespace))
    }
}

/// A file named by its path (without extension when its format is to be
/// found by extension).
pub struct FileSourceFile {
    name: String,
}

impl FileSourceFile {
    pub fn new(name: &str) -> (f: Self)
        ensures
            f.name() == name@,
    {
        FileSourceFile { name: copy_string(name) }
    }

    pub closed spec fn name(&self) -> Seq<char> {
        self.name@
    }

    /// The path of the file.
    pub fn path(&self) -> (r: &String)
        ensures
            r@ == self.name(),
    {
        &self.name
    }
}

/// A file's content given as a string.
pub struct FileSourceString(String);

impl FileSourceString {
    pub closed spec fn text(&self) -> Seq<char> {
        self.0@
    }

    pub fn from_text(s: &str) -> (f: Self)
        ensures
            f.text() == s@,
    {
        FileSourceString(copy_string(s))
    }

    /// The content.
    pub fn content(&self) -> (r: &String)
        ensures
            r@ == self.text(),
    {
        &self.0
    }

    /// Where the file is: no URI, the content, and the format it is read
    /// with, which a string source must be given.
    pub fn resolve<F>(&self, format_hint: Option<F>) -> (r: Result<(Option<String>, String, F), String>)
        requires
            format_hint is Some,
        ensures
            r matches Ok((u, c, f)) && u is None && c@ == self.text() && f == format_hint->0,
    {
        match format_hint {
            Some(f) => Ok((None, copy_string(self.0.as_str()), f)),
            None => Err(String::new()),
        }
    }
}

/// A remote location that serves files.
pub trait Remote {
    /// Whether `u` is a URI that the remote gives for itself.
    spec fn has_uri(&self, u: String) -> bool;

    /// Whether `r` is what the remote serves for the file at `path`.
    spec fn serves(&self, path: &str, r: Result<String, String>) -> bool;

    /// The URI of the remote.
    fn uri(&self) -> (r: String)
        ensures
            self.has_uri(r),
    ;

    /// The content of the file at `path`, or the message of the failure.
    fn get(&self, path: &str) -> (r: Result<String, String>)
        ensures
            self.serves(path, r),
    ;
}

/// A file served by a remote location.
pub struct FileSourceRemote<R> {
    remote: R,
    path: String,
}

impl<R: Remote> FileSourceRemote<R> {
    pub closed spec fn path_view(&self) -> Seq<char> {
        self.path@
    }

    pub closed spec fn remote(&self) -> R {
        self.remote
    }

    pub fn new(remote: R, path: &str) -> (f: Self)
        ensures
            f.path_view() == path@,
            f.remote() == remote,
    {
        FileSourceRemote { remote, path: copy_string(path) }
    }

    /// Where the file is: the remote's URI, the file's content and the
    /// format it is read with; the failure to get the content is returned
    /// as its message.
    pub fn resolve(&self, format_hint: Option<FileFormat>) -> (r: Result<
        (Option<String>, String, FileFormat),
        String,
    >)
        requires
            format_hint is Some,
        ensures
            match r {
                Ok((u, c, f)) => u matches Some(x) && self.remote().has_uri(x) && (exists|p: &str|
                    p@ == self.path_view() && self.remote().serves(p, Ok::<String, String>(c)))
                    && f == format_hint->0,
                Err(e) => exists|p: &str|
                    p@ == self.path_view() && self.remote().serves(p, Err::<String, String>(e)),
            },
    {
        let uri = self.remote.uri();
        let path = self.path.as_str();
        let content = self.remote.get(path);
        let r = resolved_remote(uri, content, format_hint);
        proof {
            assert(path@ == self.path_view());
            assert(self.remote().serves(path, content));
        }
        r
    }
}

/// What resolving a remote file gives once the remote's URI and the
/// file's content, or the failure to get it, are known: the content with
/// the URI and the format hint, or the failure.
pub fn resolved_remote(
    uri: String,
    content: Result<String, String>,
    format_hint: Option<FileFormat>,
) -> (r: Result<(Option<String>, String, FileFormat), String>)
    requires
        content is Ok ==> format_hint is Some,
    ensures
        match content {
            Ok(c) => r matches Ok((u, c2, f)) && u == Some(uri) && c2 == c && f == format_hint->0,
            Err(e) => r == Err::<(Option<String>, String, FileFormat), String>(e),
        },
{
    match content {
        Ok(c) => match format_hint {
            Some(f) => Ok((Some(uri), c, f)),
            None => {
                proof {
                    assert(false);
                }
                Err(c)
            },
        },
        Err(e) => Err(e),
    }
}

/// What collecting a file yields once its content was (or could not be)
/// resolved to `(uri, content)` and the content was parsed to `parsed`.
pub open spec fn collected(
    required: bool,
    resolved: Result<Option<String>, String>,
    parsed: Result<Table<ConfigValue>, FormatError>,
    r: Result<Table<ConfigValue>, ConfigError>,
) -> bool {
    match resolved {
        Err(m) => if required {
            r matches Err(ConfigError::Foreign(m2)) && m2@ == m@
        } else {
            r matches Ok(t) && t@.len() == 0
        },
        Ok(uri) => match parsed {
            Ok(t) => r == Ok::<Table<ConfigValue>, ConfigError>(t),
            Err(cause) => r matches Err(ConfigError::FileParse { uri: u2, cause: c2 }) && opt_view(u2)
                == opt_view(uri) && format_error_text(cause, c2@),
        },
    }
}

/// A configuration source backed up by a file.
pub struct File<T, F> {
    source: T,
    /// Format of the file (which dictates what driver to use).
    format: Option<F>,
    /// A required file is an error when it cannot be found.
    required: bool,
}

impl<T, F> File<T, F> {
    pub closed spec fn source_spec(&self) -> T {
        self.source
    }

    pub closed spec fn format_spec(&self) -> Option<F> {
        self.format
    }

    pub closed spec fn required_spec(&self) -> bool {
        self.required
    }

    /// Sets the format.
    pub fn format(self, format: F) -> (r: Self)
        ensures
            r.format_spec() == Some(format),
            r.source_spec() == self.source_spec(),
            r.required_spec() == self.required_spec(),
    {
        let mut r = self;
        r.format = Some(format);
        r
    }

    /// Sets whether the file is required; an optional file that cannot be
    /// found reads as an empty table.
    pub fn required(self, required: bool) -> (r: Self)
        ensures
            r.required_spec() == required,
            r.source_spec() == self.source_spec(),
            r.format_spec() == self.format_spec(),
    {
        let mut r = self;
        r.required = required;
        r
    }

    /// What collecting the file yields once its content was (or could not
    /// be) resolved to `(uri, content)` and the content was parsed: a
    /// failure to resolve reads as an empty table when the file is not
    /// required, else as a foreign error with the failure's message; a
    /// parse error becomes a file-parse error with the URI.
    pub fn finish_collect(
        &self,
        resolved: Result<Option<String>, String>,
        parsed: Result<Table<ConfigValue>, FormatError>,
    ) -> (r: Result<Table<ConfigValue>, ConfigError>)
        ensures
            collected(self.required_spec(), resolved, parsed, r),
    {
        match resolved {
            Err(m) => {
                if !self.required {
                    Ok(Table::new())
                } else {
                    Err(ConfigError::Foreign(m))
                }
            },
            Ok(uri) => match parsed {
                Ok(t) => Ok(t),
                Err(cause) => Err(ConfigError::FileParse { uri, cause: cause.to_text() }),
            },
        }
    }
}

impl<F: FileStoredFormat> File<FileSourceString, F> {
    /// A required file whose content is `s`, read with `format`.
    pub fn from_str(s: &str, format: F) -> (f: Self)
        ensures
            f.source_spec().text() == s@,
            f.format_spec() == Some(format),
            f.required_spec(),
    {
        File { format: Some(format), required: true, source: FileSourceString::from_text(s) }
    }

    /// Reads the string with the file's format; a string source needs a
    /// format.
    pub fn collect(&self) -> (r: Result<Table<ConfigValue>, ConfigError>)
        requires
            self.format_spec() is Some,
        ensures
            exists|t: &str, p: Result<Table<ConfigValue>, FormatError>|
                t@ == self.source_spec().text() && self.format_spec()->0.parses_to(None, t, p)
                    && collected(self.required_spec(), Ok(None), p, r),
    {
        match &self.format {
            Some(format) => {
                let text = self.source.content().as_str();
                let parsed = format.parse(None, text);
                let r = self.finish_collect(Ok(None), parsed);
                assert(text@ == self.source_spec().text() && format.parses_to(None, text, parsed)
                    && collected(self.required_spec(), Ok(None), parsed, r));
                r
            },
            None => Ok(Table::new()),
        }
    }
}

impl<F: FileStoredFormat> File<FileSourceFile, F> {
    /// A required file at `name`, read with `format`.
    pub fn new(name: &str, format: F) -> (f: Self)
        ensures
            f.source_spec().name() == name@,
            f.format_spec() == Some(format),
            f.required_spec(),
    {
        File { format: Some(format), required: true, source: FileSourceFile::new(name) }
    }
}

impl File<FileSourceFile, FileFormat> {
    /// A required file with basename `name`, whose format is to be found by
    /// its extension.
    pub fn with_name(name: &str) -> (f: Self)
        ensures
            f.source_spec().name() == name@,
            f.format_spec() is None,
            f.required_spec(),
    {
        File { format: None, required: true, source: FileSourceFile::new(name) }
    }
}

/// A source with no values.
pub struct Nil {}

impl Nil {
    /// An empty table.
    pub fn collect(&self) -> (r: Table<ConfigValue>)
        ensures
            r@.len() == 0,
    {
        Table::new()
    }
}

} // verus!

//! Layered configuration: objects loaded from sources, read back by path
//! from the first layer that holds it.
use vstd::prelude::*;

use crate::accessor::{accessor_of, AccessModel, Accessor, AccessorParseError, ParsableAccessor};
use crate::element::{element_get, ConfigElement};
use crate::object::{access_error_model, AccessErrorModel, ConfigObject, ConfigObjectAccessError};

verus! {

/// Why reading a configuration failed.
#[derive(Debug, Clone, PartialEq)]
pub enum ConfigError {
    AccessorParseError(AccessorParseError),
    ConfigObjectAccessError(ConfigObjectAccessError),
}

impl ConfigError {
    /// The text that `Display` prints.
    pub fn to_text(&self) -> (r: &'static str)
        ensures
            match self {
                ConfigError::AccessorParseError(_) => r@ == "Accessor parser error"@,
                ConfigError::ConfigObjectAccessError(_) => r@ == "Config object access error"@,
            },
    {
        match self {
            ConfigError::AccessorParseError(_) => "Accessor parser error",
            ConfigError::ConfigObjectAccessError(_) => "Config object access error",
        }
    }
}

/// Why loading a source into a builder failed: the source's own error.
#[derive(Debug, Clone, PartialEq)]
pub enum ConfigBuilderError<E> {
    Wrapped(E),
}

/// A source of configuration: loading it yields an object or the
/// source's error.
pub trait ConfigSource {
    type Error;

    /// Whether `r` is a result that loading this source gives.
    spec fn loads(&self, r: Result<ConfigObject, Self::Error>) -> bool;

    fn load(&self) -> (r: Result<ConfigObject, Self::Error>)
        ensures
            self.loads(r),
    ;
}

/// A configuration: layers of loaded objects, in order of precedence.
pub struct Config {
    layers: Vec<ConfigObject>,
}

/// Holds the sources of a configuration in three groups: overwrites,
/// layers and defaults.  Nothing is loaded until the configuration is
/// built.
pub struct ConfigBuilder<S> {
    layers_builders: Vec<S>,
    defaults_builders: Vec<S>,
    overwrites_builders: Vec<S>,
}

/// Some result of loading `s` is an object.
pub open spec fn can_load<S: ConfigSource>(s: S) -> bool {
    exists|o: ConfigObject| s.loads(Ok(o))
}

/// Each object of `objects` is what loading the source at the same place
/// of `sources` gives.
pub open spec fn loaded_all<S: ConfigSource>(sources: Seq<S>, objects: Seq<ConfigObject>) -> bool {
    &&& objects.len() == sources.len()
    &&& forall|i: int| 0 <= i < sources.len() ==> #[trigger] sources[i].loads(Ok(objects[i]))
}

/// `e` is what loading one of `sources` gives, every source before it
/// having loaded.
pub open spec fn failed_at<S: ConfigSource>(sources: Seq<S>, e: S::Error) -> bool {
    exists|i: int|
        0 <= i < sources.len() && #[trigger] sources[i].loads(Err(e)) && forall|j: int|
            0 <= j < i ==> can_load(#[trigger] sources[j])
}

/// What building from `sources` gives: one layer per source, each what
/// that source loads; or, where a source fails, its error.
pub open spec fn built<S: ConfigSource>(
    sources: Seq<S>,
    r: Result<Config, ConfigBuilderError<S::Error>>,
) -> bool {
    match r {
        Ok(c) => loaded_all(sources, c.layers()),
        Err(ConfigBuilderError::Wrapped(e)) => failed_at(sources, e),
    }
}

proof fn lemma_failed_at_extend<S: ConfigSource>(sources: Seq<S>, more: Seq<S>, e: S::Error)
    requires
        failed_at(sources, e),
    ensures
        failed_at(sources + more, e),
{
    let all = sources + more;
    let i = choose|i: int|
        0 <= i < sources.len() && #[trigger] sources[i].loads(Err(e)) && forall|j: int|
            0 <= j < i ==> can_load(#[trigger] sources[j]);
    assert(all[i] == sources[i]);
    assert forall|j: int| 0 <= j < i implies can_load(#[trigger] all[j]) by {
        assert(all[j] == sources[j]);
    }
}

/// Loads each of `sources` in order, appending its object to `out`; stops
/// at the first source that fails.
fn load_all<S: ConfigSource>(done: Ghost<Seq<S>>, sources: &Vec<S>, out: &mut Vec<ConfigObject>) -> (r:
    Result<(), S::Error>)
    requires
        loaded_all(done@, old(out)@),
    ensures
        r is Ok ==> loaded_all(done@ + sources@, final(out)@),
        r matches Err(e) ==> failed_at(done@ + sources@, e),
{
    let mut i: usize = 0;
    while i < sources.len()
        invariant
            i <= sources.len(),
            loaded_all(done@ + sources@.take(i as int), out@),
        decreases sources.len() - i,
    {
        let ghost all = done@ + sources@;
        let ghost before = done@ + sources@.take(i as int);
        match sources[i].load() {
            Ok(o) => {
                let ghost prev = out@;
                out.push(o);
                proof {
                    let now = done@ + sources@.take(i + 1);
                    assert forall|k: int| 0 <= k < now.len() implies #[trigger] now[k].loads(Ok(out@[k])) by {
                        if k < before.len() {
                            assert(now[k] == before[k]);
                            assert(out@[k] == prev[k]);
                        } else {
                            assert(now[k] == sources@[i as int]);
                        }
                    }
                }
            },
            Err(e) => {
                proof {
                    let at = done@.len() + i;
                    assert(all[at] == sources@[i as int]);
                    assert forall|j: int| 0 <= j < at implies can_load(#[trigger] all[j]) by {
                        assert(all[j] == before[j]);
                        assert(before[j].loads(Ok(out@[j])));
                    }
                }
                return Err(e);
            },
        }
        i = i + 1;
    }
    proof {
        assert(sources@.take(sources@.len() as int) == sources@);
    }
    Ok(())
}

/// What reading `path` in the layers gives: the first layer, in order,
/// that holds the path or fails on it decides; when none does, `None`.
pub open spec fn layered_get(layers: Seq<ConfigObject>, path: Seq<AccessModel>) -> Result<
    Option<ConfigElement>,
    AccessErrorModel,
>
    decreases layers.len(),
{
    if layers.len() == 0 {
        Ok(None)
    } else {
        match element_get(layers[0].element(), path) {
            Ok(None) => layered_get(layers.drop_first(), path),
            r => r,
        }
    }
}

/// The result of reading a configuration, as its model.
pub open spec fn config_result_model(r: Result<Option<&ConfigElement>, ConfigError>) -> Result<
    Option<ConfigElement>,
    AccessErrorModel,
> {
    match r {
        Ok(Some(x)) => Ok(Some(*x)),
        Ok(None) => Ok(None),
        Err(ConfigError::ConfigObjectAccessError(e)) => Err(access_error_model(e)),
        Err(ConfigError::AccessorParseError(_)) => Err(AccessErrorModel::NoAccessor),
    }
}

/// Law: reading layers `a` followed by layers `b` reads `a` first, and `b`
/// only when no layer of `a` holds the path or fails on it.
pub proof fn lemma_layered_get_concat(
    a: Seq<ConfigObject>,
    b: Seq<ConfigObject>,
    path: Seq<AccessModel>,
)
    ensures
        layered_get(a + b, path) == match layered_get(a, path) {
            Ok(None) => layered_get(b, path),
            r => r,
        },
    decreases a.len(),
{
    if a.len() > 0 {
        assert((a + b).drop_first() == a.drop_first() + b);
        assert((a + b)[0] == a[0]);
        lemma_layered_get_concat(a.drop_first(), b, path);
    } else {
        assert(a + b == b);
    }
}

/// Law: an overwrite is read before any loaded layer, and a loaded layer
/// before any default; defaults are read only when no overwrite and no
/// layer holds the path or fails on it.
pub proof fn law_precedence(
    overwrites: Seq<ConfigObject>,
    layers: Seq<ConfigObject>,
    defaults: Seq<ConfigObject>,
    path: Seq<AccessModel>,
)
    ensures
        layered_get(overwrites + layers + defaults, path) == match layered_get(overwrites, path) {
            Ok(None) => match layered_get(layers, path) {
                Ok(None) => layered_get(defaults, path),
                r => r,
            },
            r => r,
        },
{
    lemma_layered_get_concat(overwrites + layers, defaults, path);
    lemma_layered_get_concat(overwrites, layers, path);
}

impl Config {
    /// The layers, in order of precedence.
    pub closed spec fn layers(&self) -> Seq<ConfigObject> {
        self.layers@
    }

    /// A builder with no sources.
    pub fn builder<S: ConfigSource>() -> (b: ConfigBuilder<S>)
        ensures
            b.layers() == Seq::<S>::empty(),
            b.defaults() == Seq::<S>::empty(),
            b.overwrites() == Seq::<S>::empty(),
    {
        ConfigBuilder::new()
    }

    /// Reads the configuration at the path that `accessor` reads as.
    pub fn get<A: ParsableAccessor>(&self, accessor: A) -> (r: Result<
        Option<&ConfigElement>,
        ConfigError,
    >)
        ensures
            !(r matches Err(ConfigError::AccessorParseError(_))),
            config_result_model(r) == layered_get(
                self.layers(),
                accessor_of(accessor.accessor_text()),
            ),
    {
        match accessor.parse() {
            Ok(a) => self.get_with_accessor(a),
            Err(e) => Err(ConfigError::AccessorParseError(e)),
        }
    }

    /// Reads the configuration at the path of `accessor`: the first layer
    /// that holds it or fails on it decides.
    pub fn get_with_accessor(&self, accessor: Accessor) -> (r: Result<
        Option<&ConfigElement>,
        ConfigError,
    >)
        ensures
            !(r matches Err(ConfigError::AccessorParseError(_))),
            config_result_model(r) == layered_get(self.layers(), accessor@),
    {
        let mut i: usize = 0;
        let ghost path = accessor@;
        assert(self.layers@.skip(0) == self.layers@);
        while i < self.layers.len()
            invariant
                i <= self.layers.len(),
                path == accessor@,
                layered_get(self.layers@, path) == layered_get(self.layers@.skip(i as int), path),
            decreases self.layers.len() - i,
        {
            proof {
                let rest = self.layers@.skip(i as int);
                assert(rest[0] == self.layers@[i as int]);
                assert(rest.drop_first() == self.layers@.skip(i + 1));
            }
            match self.layers[i].get(&accessor) {
                Ok(Some(value)) => {
                    return Ok(Some(value));
                },
                Ok(None) => {},
                Err(e) => {
                    return Err(ConfigError::ConfigObjectAccessError(e));
                },
            }
            i = i + 1;
        }
        Ok(None)
    }
}

/// Law: a configuration built from a builder holds the overwrites'
/// objects first, then the layers', then the defaults', each group in the
/// order its sources were added; so a path is read from an overwrite
/// before any layer, and from a layer before any default.
pub proof fn law_built_precedence<S: ConfigSource>(b: ConfigBuilder<S>, c: Config, path: Seq<AccessModel>)
    requires
        built(b.sources(), Ok::<Config, ConfigBuilderError<S::Error>>(c)),
    ensures
        ({
            let no = b.overwrites().len() as int;
            let nl = b.layers().len() as int;
            let ls = c.layers();
            &&& loaded_all(b.overwrites(), ls.take(no))
            &&& loaded_all(b.layers(), ls.subrange(no, no + nl))
            &&& loaded_all(b.defaults(), ls.skip(no + nl))
            &&& layered_get(ls, path) == match layered_get(ls.take(no), path) {
                Ok(None) => match layered_get(ls.subrange(no, no + nl), path) {
                    Ok(None) => layered_get(ls.skip(no + nl), path),
                    r => r,
                },
                r => r,
            }
        }),
{
    let no = b.overwrites().len() as int;
    let nl = b.layers().len() as int;
    let ls = c.layers();
    let all = b.sources();
    assert(ls == ls.take(no) + ls.subrange(no, no + nl) + ls.skip(no + nl));
    law_precedence(ls.take(no), ls.subrange(no, no + nl), ls.skip(no + nl), path);
    assert forall|i: int| 0 <= i < no implies #[trigger] b.overwrites()[i].loads(Ok(ls.take(no)[i])) by {
        assert(all[i] == b.overwrites()[i]);
        assert(all[i].loads(Ok(ls[i])));
    }
    assert forall|i: int| 0 <= i < nl implies #[trigger] b.layers()[i].loads(Ok(ls.subrange(no, no + nl)[i])) by {
        assert(all[no + i] == b.layers()[i]);
        assert(all[no + i].loads(Ok(ls[no + i])));
    }
    assert forall|i: int| 0 <= i < b.defaults().len() implies #[trigger] b.defaults()[i].loads(Ok(ls.skip(no + nl)[i])) by {
        assert(all[no + nl + i] == b.defaults()[i]);
        assert(all[no + nl + i].loads(Ok(ls[no + nl + i])));
    }
}

impl<S: ConfigSource> ConfigBuilder<S> {
    pub closed spec fn layers(&self) -> Seq<S> {
        self.layers_builders@
    }

    pub closed spec fn defaults(&self) -> Seq<S> {
        self.defaults_builders@
    }

    pub closed spec fn overwrites(&self) -> Seq<S> {
        self.overwrites_builders@
    }

    /// All sources in order of precedence: overwrites, then layers, then
    /// defaults.
    pub open spec fn sources(&self) -> Seq<S> {
        self.overwrites() + self.layers() + self.defaults()
    }

    pub(crate) fn new() -> (b: Self)
        ensures
            b.layers() == Seq::<S>::empty(),
            b.defaults() == Seq::<S>::empty(),
            b.overwrites() == Seq::<S>::empty(),
    {
        ConfigBuilder {
            layers_builders: Vec::new(),
            defaults_builders: Vec::new(),
            overwrites_builders: Vec::new(),
        }
    }

    /// Adds `source` as a layer.
    pub fn load(self, source: S) -> (b: Self)
        ensures
            b.layers() == self.layers().push(source),
            b.defaults() == self.defaults(),
            b.overwrites() == self.overwrites(),
    {
        let mut b = self;
        b.layers_builders.push(source);
        b
    }

    /// Adds `source` as a default.
    pub fn load_default(self, source: S) -> (b: Self)
        ensures
            b.defaults() == self.defaults().push(source),
            b.layers() == self.layers(),
            b.overwrites() == self.overwrites(),
    {
        let mut b = self;
        b.defaults_builders.push(source);
        b
    }

    /// Adds `source` as an overwrite.
    pub fn load_overwrite(self, source: S) -> (b: Self)
        ensures
            b.overwrites() == self.overwrites().push(source),
            b.layers() == self.layers(),
            b.defaults() == self.defaults(),
    {
        let mut b = self;
        b.overwrites_builders.push(source);
        b
    }

    /// Loads every source, overwrites first, then layers, then defaults,
    /// and builds the configuration with one layer per source in that
    /// order; the first source that fails stops the build with its error.
    /// The builder is kept, so the configuration can be built again.
    pub fn build(&self) -> (r: Result<Config, ConfigBuilderError<S::Error>>)
        ensures
            built(self.sources(), r),
    {
        let ghost o = self.overwrites();
        let ghost l = self.layers();
        let ghost d = self.defaults();
        let mut out: Vec<ConfigObject> = Vec::new();
        proof {
            assert(Seq::<S>::empty() + o == o);
        }
        match load_all(Ghost(Seq::empty()), &self.overwrites_builders, &mut out) {
            Ok(()) => {},
            Err(e) => {
                proof {
                    lemma_failed_at_extend(o, l, e);
                    lemma_failed_at_extend(o + l, d, e);
                }
                return Err(ConfigBuilderError::Wrapped(e));
            },
        }
        match load_all(Ghost(o), &self.layers_builders, &mut out) {
            Ok(()) => {},
            Err(e) => {
                proof {
                    lemma_failed_at_extend(o + l, d, e);
                }
                return Err(ConfigBuilderError::Wrapped(e));
            },
        }
        match load_all(Ghost(o + l), &self.defaults_builders, &mut out) {
            Ok(()) => {},
            Err(e) => {
                return Err(ConfigBuilderError::Wrapped(e));
            },
        }
        Ok(Config { layers: out })
    }
}

} // verus!

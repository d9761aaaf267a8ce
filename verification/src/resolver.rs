//! The resolver: its configuration surface and the manifest cache it owns.
use vstd::prelude::*;
use crate::paths::PathV;
use crate::description::PkgFileInfo;

verus! {

/// Read-only configuration of a resolver.
pub struct ResolverOptions {
    /// Extensions probed in order by file resolution.
    pub extensions: Vec<String>,
    /// When true, the literal-path fast path of file resolution is skipped.
    pub enforce_extension: bool,
    /// Manifest keys read, in precedence order, as entry-point candidates.
    pub main_fields: Vec<String>,
    /// Manifest keys read, in order, as alias tables.
    pub alias_fields: Vec<String>,
    /// The manifest file name; `None` disables all manifest-driven work.
    pub description_file: Option<String>,
    /// The name of the package subdirectory searched upward.
    pub modules_dir: String,
    /// When false, the final step normalizes instead of splicing symlinks.
    pub symlinks: bool,
    /// Active condition names for `exports` / `imports` evaluation.
    pub condition_names: Vec<String>,
    /// Whether discovered manifests are cached.  Absent from the options'
    /// mathematical value: caching must not change any result.
    pub cache_manifests: bool,
}

/// The mathematical value of the options.  It deliberately omits the cache
/// switch: no resolution result may depend on it.
pub struct OptionsV {
    pub extensions: Seq<Seq<char>>,
    pub enforce_extension: bool,
    pub main_fields: Seq<Seq<char>>,
    pub alias_fields: Seq<Seq<char>>,
    pub description_file: Option<Seq<char>>,
    pub modules_dir: Seq<char>,
    pub symlinks: bool,
    pub condition_names: Seq<Seq<char>>,
}

impl ResolverOptions {
    pub open spec fn sem(self) -> OptionsV {
        OptionsV {
            extensions: self.extensions.deep_view(),
            enforce_extension: self.enforce_extension,
            main_fields: self.main_fields.deep_view(),
            alias_fields: self.alias_fields.deep_view(),
            description_file: self.description_file.deep_view(),
            modules_dir: self.modules_dir@,
            symlinks: self.symlinks,
            condition_names: self.condition_names.deep_view(),
        }
    }
}

/// The manifest cache: directories mapped to "no manifest governs here"
/// (`None`) or to an index into the arena of parsed manifests.  The arena
/// gives one parse many readers: entries are never mutated or removed.
pub struct ManifestCache {
    pub dirs: Vec<(Vec<String>, Option<usize>)>,
    pub arena: Vec<PkgFileInfo>,
}

/// A resolver instance: options plus the cache shared by its queries.
pub struct Resolver {
    pub options: ResolverOptions,
    pub cache: ManifestCache,
}

impl Resolver {
    /// A resolver with the given options and an empty cache.
    pub fn new(options: ResolverOptions) -> (r: Resolver)
        ensures
            r.options == options,
            r.cache.dirs@.len() == 0,
            r.cache.arena@.len() == 0,
    {
        Resolver { options, cache: ManifestCache { dirs: Vec::new(), arena: Vec::new() } }
    }
}

} // verus!

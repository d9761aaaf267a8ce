//! The unit threaded through the pipeline (a candidate path plus the
//! remaining request tail), the short-circuiting outcome of each step, and
//! the error taxonomy.
use vstd::prelude::*;
use crate::paths::PathV;

verus! {

/// Why a resolution, or a manifest parse, failed.
#[derive(Clone, Copy, Debug, PartialEq, Eq, Structural)]
pub enum ResolveError {
    /// The manifest file could not be opened.
    ManifestUnreadable,
    /// The manifest text is not valid structured data, or an alias entry
    /// holds the unsupported boolean `true`.
    ManifestMalformed,
    /// The `exports` value does not build a path tree.
    ExportsTreeMalformed,
    /// The `imports` value does not build a path tree.
    ImportsTreeMalformed,
    /// A matched exports target is not a relative path starting with `./`.
    ExportsTargetInvalid,
    /// A present `exports` map excludes the requested subpath.
    ExportsRestricted,
    /// Directory resolution was asked on something not a directory.
    NotADirectory,
    /// The upward package search exhausted every ancestor directory.
    ModuleNotFound,
}

/// The candidate: an absolute path and the not-yet-consumed request tail
/// (a relative fragment).
pub struct Info {
    pub path: Vec<String>,
    pub target: String,
}

/// The mathematical value of a candidate.
pub struct InfoV {
    pub path: PathV,
    pub target: Seq<char>,
}

impl Info {
    pub open spec fn sem(self) -> InfoV {
        InfoV { path: self.path.deep_view(), target: self.target@ }
    }
}

/// What a finished resolution produced: a final candidate, or the
/// intentionally-ignored terminal state an alias mapped to `false` gives.
pub enum ResolverResult {
    Info(Info),
    Ignored,
}

/// The mathematical value of a result.
pub enum ResultV {
    Info(InfoV),
    Ignored,
}

impl ResolverResult {
    pub open spec fn sem(self) -> ResultV {
        match self {
            ResolverResult::Info(i) => ResultV::Info(i.sem()),
            ResolverResult::Ignored => ResultV::Ignored,
        }
    }
}

/// The tri-state outcome of a step or stage: `Success` and `Error` are
/// terminal, `Resolving` feeds the next step.
pub enum ResolverStats {
    Success(ResolverResult),
    Resolving(Info),
    Error(ResolveError, Info),
}

/// The mathematical value of an outcome.
pub enum StatsV {
    Success(ResultV),
    Resolving(InfoV),
    Error(ResolveError, InfoV),
}

impl ResolverStats {
    pub open spec fn sem(self) -> StatsV {
        match self {
            ResolverStats::Success(r) => StatsV::Success(r.sem()),
            ResolverStats::Resolving(i) => StatsV::Resolving(i.sem()),
            ResolverStats::Error(e, i) => StatsV::Error(e, i.sem()),
        }
    }
}

} // verus!

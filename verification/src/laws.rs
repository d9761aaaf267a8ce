//! The library's laws, stated over the same spec functions that the
//! executable functions' contracts use.
use vstd::prelude::*;
use crate::description::{PkgInfoV, cache_wf, cache_entry_ok};
use crate::fsmodel::{FsV, fs_is_file, fs_link};
use crate::outcome::{InfoV, ResolveError, ResultV, StatsV};
use crate::paths::PathV;
use crate::plugin::{
    alias_lookup, alias_step, drop_segs, exports_step, splice, subpath_of,
};
use crate::resolver::{ManifestCache, OptionsV, Resolver};
use crate::resolve::{
    ext_path, file_probe, full_path, ie_steps, modules_attempt, modules_climb, real_target_spec,
    resolve_spec,
};
use crate::description::AliasV;
use crate::tree::{TreeV, exact_key, best_wild, subst_star, tree_lookup_spec};

verus! {

/// Idempotence: resolving the same (directory, request) against an
/// unmodified snapshot twice yields identical outcomes — the outcome is
/// the pure function `resolve_spec` of snapshot, options, directory and
/// request (see the `ensures` of `Resolver::resolve`), nothing else.
pub proof fn lemma_resolve_idempotent(
    fs1: FsV,
    fs2: FsV,
    o1: OptionsV,
    o2: OptionsV,
    d1: Seq<char>,
    d2: Seq<char>,
    q1: Seq<char>,
    q2: Seq<char>,
)
    requires
        fs1 == fs2,
        o1 == o2,
        d1 == d2,
        q1 == q2,
    ensures
        resolve_spec(fs1, o1, d1, q1) == resolve_spec(fs2, o2, d2, q2),
{
}

/// Cache transparency: two resolvers that agree on every option but the
/// cache switch have the same options value, and every outcome is pinned
/// to `resolve_spec` over that value — so enabling or disabling the
/// manifest cache cannot change any result, only latency.
pub proof fn lemma_cache_transparent(
    r1: Resolver,
    r2: Resolver,
    fs: FsV,
    d: Seq<char>,
    q: Seq<char>,
)
    requires
        r1.options.extensions == r2.options.extensions,
        r1.options.enforce_extension == r2.options.enforce_extension,
        r1.options.main_fields == r2.options.main_fields,
        r1.options.alias_fields == r2.options.alias_fields,
        r1.options.description_file == r2.options.description_file,
        r1.options.modules_dir == r2.options.modules_dir,
        r1.options.symlinks == r2.options.symlinks,
        r1.options.condition_names == r2.options.condition_names,
    ensures
        r1.options.sem() == r2.options.sem(),
        resolve_spec(fs, r1.options.sem(), d, q) == resolve_spec(fs, r2.options.sem(), d, q),
{
}

/// Exports closure: a manifest that declares `exports` closes the
/// package; a requested subpath the tree does not match fails with
/// `ExportsRestricted` — and since the step reads no filesystem state, it
/// fails even when a same-named file exists on disk.
pub proof fn lemma_exports_closure(
    o: OptionsV,
    i: InfoV,
    p: PkgInfoV,
    k: nat,
    rest: Seq<char>,
)
    requires
        p.exports_field_tree is Some,
        p.abs_dir_path.len() > i.path.len(),
        k == p.abs_dir_path.len() - i.path.len(),
        drop_segs(i.target, k) == Some(rest),
        tree_lookup_spec(
            p.exports_field_tree->Some_0,
            subpath_of(rest),
            o.condition_names,
        ) is None,
    ensures
        exports_step(o, i, p) == StatsV::Error(ResolveError::ExportsRestricted, i),
        ie_steps(o, i, p) == StatsV::Error(ResolveError::ExportsRestricted, i),
        real_target_spec(o, i, Some(p)) == StatsV::Error(ResolveError::ExportsRestricted, i),
{
}

/// Backfill correctness: every cache entry — including the entries the
/// backfill wrote for the directories between a queried directory and its
/// package root — answers exactly what discovery computes anew.  Which
/// entries exist after a miss is the backfill `ensures` of
/// `Resolver::load_pkg_file`; that the intermediate directories discover
/// the same manifest is `lemma_find_prefix_found`.
pub proof fn lemma_cache_hit_correct(c: ManifestCache, fs: FsV, o: OptionsV, i: int)
    requires
        cache_wf(c, fs, o),
        0 <= i < c.dirs@.len(),
    ensures
        cache_entry_ok(fs, o, c.arena@, c.dirs@[i].0.deep_view(), c.dirs@[i].1),
{
}

/// Upward search backtracking: an attempt that leaves the candidate
/// unresolved at one level never surfaces; the climb's outcome is
/// whatever the search from the parent directory produces, so an ancestor
/// that satisfies the request wins with no error from the nearer attempt.
pub proof fn lemma_upward_backtracking(fs: FsV, o: OptionsV, i: InfoV, i5: InfoV)
    requires
        modules_attempt(fs, o, i) == StatsV::Resolving(i5),
        i.path.len() > 0,
    ensures
        modules_climb(fs, o, i) == modules_climb(
            fs,
            o,
            InfoV { path: i.path.drop_last(), target: i5.target },
        ),
{
}

/// Extension precedence: the first configured extension whose probed path
/// exists decides file resolution; later extensions cannot override it.
pub proof fn lemma_extension_precedence(fs: FsV, o: OptionsV, i: InfoV)
    requires
        o.enforce_extension || !fs_is_file(fs, full_path(i)),
        o.extensions.len() > 0,
        fs_is_file(fs, ext_path(i, o.extensions[0])),
    ensures
        file_probe(fs, o, i) == StatsV::Success(
            ResultV::Info(InfoV { path: ext_path(i, o.extensions[0]), target: Seq::empty() }),
        ),
{
}

/// Wildcard exports matching: when no exact key matches and the best
/// wildcard entry's sub-tree is a direct target, the lookup substitutes
/// the captured suffix into every `*` of that target.
pub proof fn lemma_wildcard_match(
    e: Seq<(Seq<char>, TreeV)>,
    s: Seq<char>,
    conds: Seq<Seq<char>>,
    b: (int, TreeV, Seq<char>),
)
    requires
        exact_key(e, s) is None,
        best_wild(e, s) == Some(b),
        b.1 is Target,
    ensures
        tree_lookup_spec(TreeV::Branch(e), s, conds) == Some(subst_star(b.1->Target_0, b.2)),
{
}

/// Alias ignore: a request whose tail an alias entry maps to `false`
/// reaches the intentionally-ignored terminal state, never a file lookup.
pub proof fn lemma_alias_ignore(o: OptionsV, i: InfoV, p: PkgInfoV)
    requires
        alias_lookup(p.alias_fields, i.target) == Some(AliasV::Ignored),
        ie_steps(o, i, p) == StatsV::Resolving(i),
    ensures
        alias_step(i, p) == StatsV::Success(ResultV::Ignored),
        real_target_spec(o, i, Some(p)) == StatsV::Success(ResultV::Ignored),
{
}

proof fn lemma_splice_down(fs: FsV, p: PathV, j: nat, k: nat)
    requires
        k <= j <= p.len(),
        forall|m: int| k < m <= j ==> fs_link(fs, p.subrange(0, m)) is None,
    ensures
        splice(fs, p, j) == splice(fs, p, k),
    decreases j,
{
    if j > k {
        assert(fs_link(fs, p.subrange(0, j as int)) is None);
        lemma_splice_down(fs, p, (j - 1) as nat, k);
    }
}

/// Symlink splicing: when the prefix of length `k` is a symlink to `t`
/// and no longer prefix is one, the spliced path is `t` followed by the
/// suffix below the link, kept in its original order.
pub proof fn lemma_symlink_splice(fs: FsV, p: PathV, k: nat, t: PathV)
    requires
        0 < k <= p.len(),
        fs_link(fs, p.subrange(0, k as int)) == Some(t),
        forall|m: int| k < m <= p.len() ==> fs_link(fs, p.subrange(0, m)) is None,
    ensures
        splice(fs, p, p.len()) == t + p.subrange(k as int, p.len() as int),
{
    lemma_splice_down(fs, p, p.len(), k);
}

} // verus!

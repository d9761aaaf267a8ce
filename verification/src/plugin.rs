//! The resolution steps: exports lookup, imports lookup, alias
//! substitution, and the final symlink splicing.
use vstd::prelude::*;
use crate::description::{AliasMap, AliasV, PkgFileInfo, PkgInfoV, pkg_sem, lemma_alias_sem_len};
use crate::fsmodel::{FileSystem, FsNode, FsV, fs_link};
use crate::outcome::{Info, InfoV, ResolverResult, ResolverStats, ResolveError, ResultV, StatsV};
use crate::paths::{PathV, path_clone};
use crate::resolver::{Resolver, ResolverOptions, OptionsV};
use crate::text::{first_slash, find_slash, str_eq, has_prefix, substr, concat_str};
use crate::tree::{tree_lookup_spec, tree_lookup, dot};

verus! {

/// `./`, the start of every valid exports target.
pub open spec fn dot_slash() -> Seq<char> {
    seq!['.', '/']
}

/// The request tail with its first `k` `/`-separated segments removed;
/// `None` when it has fewer than `k` segments.
pub open spec fn drop_segs(t: Seq<char>, k: nat) -> Option<Seq<char>>
    decreases k,
{
    if k == 0 {
        Some(t)
    } else {
        match first_slash(t) {
            Some(ix) => if 0 <= ix < t.len() {
                drop_segs(t.subrange(ix + 1, t.len() as int), (k - 1) as nat)
            } else {
                None
            },
            None => if k == 1 {
                Some(Seq::<char>::empty())
            } else {
                None
            },
        }
    }
}

fn drop_segs_exec(t: &str, k: usize) -> (r: Option<String>)
    ensures
        match r {
            Some(s) => drop_segs(t@, k as nat) == Some(s@),
            None => drop_segs(t@, k as nat) is None,
        },
    decreases k,
{
    if k == 0 {
        return Some(t.to_owned());
    }
    proof {
        crate::text::lemma_first_occ(t@, '/');
    }
    match find_slash(t) {
        Some(ix) => {
            let n = t.unicode_len();
            let rest = substr(t, ix + 1, n);
            drop_segs_exec(rest.as_str(), k - 1)
        },
        None => {
            if k == 1 {
                let r = String::new();
                proof {
                    assert(r@ =~= Seq::<char>::empty());
                }
                Some(r)
            } else {
                None
            }
        },
    }
}

/// The exports subpath for a package-relative remainder: `.` when it is
/// empty, else `./` followed by it.
pub open spec fn subpath_of(rest: Seq<char>) -> Seq<char> {
    if rest.len() == 0 {
        dot()
    } else {
        dot_slash() + rest
    }
}

fn subpath_of_exec(rest: &str) -> (r: String)
    ensures
        r@ == subpath_of(rest@),
{
    proof {
        reveal_strlit(".");
        reveal_strlit("./");
        assert("."@ =~= dot());
        assert("./"@ =~= dot_slash());
    }
    if rest.unicode_len() == 0 {
        let r = String::from_str(".");
        proof {
            assert(r@ =~= subpath_of(rest@));
        }
        r
    } else {
        concat_str("./", rest)
    }
}

/// The Exports Step: when the manifest declares `exports` and the
/// candidate sits at a modules directory below the manifest's own
/// directory, the package-relative subpath is matched against the tree; a
/// miss closes the package (`ExportsRestricted`); a hit must be a `./`
/// relative target (else `ExportsTargetInvalid`) and re-anchors the
/// candidate at the manifest directory.
pub open spec fn exports_step(o: OptionsV, i: InfoV, p: PkgInfoV) -> StatsV {
    match p.exports_field_tree {
        None => StatsV::Resolving(i),
        Some(tree) => {
            if p.abs_dir_path.len() >= i.path.len() + 1 {
                let k = (p.abs_dir_path.len() - i.path.len()) as nat;
                match drop_segs(i.target, k) {
                    None => StatsV::Resolving(i),
                    Some(rest) => match tree_lookup_spec(
                        tree,
                        subpath_of(rest),
                        o.condition_names,
                    ) {
                        None => StatsV::Error(ResolveError::ExportsRestricted, i),
                        Some(t) => if dot_slash().is_prefix_of(t) {
                            StatsV::Resolving(InfoV { path: p.abs_dir_path, target: t })
                        } else {
                            StatsV::Error(ResolveError::ExportsTargetInvalid, i)
                        },
                    },
                }
            } else {
                StatsV::Resolving(i)
            }
        },
    }
}

/// The Imports Step: a `#`-prefixed tail is matched against the `imports`
/// tree; a `./` target re-anchors at the manifest directory, any other
/// target becomes the new tail (a package redirect); a miss passes the
/// candidate on unchanged.
pub open spec fn imports_step(o: OptionsV, i: InfoV, p: PkgInfoV) -> StatsV {
    match p.imports_field_tree {
        None => StatsV::Resolving(i),
        Some(tree) => {
            if i.target.len() > 0 && i.target[0] == '#' {
                match tree_lookup_spec(tree, i.target, o.condition_names) {
                    None => StatsV::Resolving(i),
                    Some(t) => if dot_slash().is_prefix_of(t) {
                        StatsV::Resolving(InfoV { path: p.abs_dir_path, target: t })
                    } else {
                        StatsV::Resolving(InfoV { path: i.path, target: t })
                    },
                }
            } else {
                StatsV::Resolving(i)
            }
        },
    }
}

/// The last alias entry whose key is `k`, if any (later entries override
/// earlier ones, as repeated insertion into a map would).
pub open spec fn alias_lookup(a: Seq<(Seq<char>, AliasV)>, k: Seq<char>) -> Option<AliasV>
    decreases a,
{
    if a.len() == 0 {
        None
    } else if a.last().0 == k {
        Some(a.last().1)
    } else {
        alias_lookup(a.drop_last(), k)
    }
}

/// The Alias Step: an `Ignored` entry for the tail ends resolution in the
/// intentionally-ignored state; a `Target` entry rewrites the tail; no
/// match passes the candidate on.
pub open spec fn alias_step(i: InfoV, p: PkgInfoV) -> StatsV {
    match alias_lookup(p.alias_fields, i.target) {
        Some(AliasV::Ignored) => StatsV::Success(ResultV::Ignored),
        Some(AliasV::Target(t)) => StatsV::Resolving(InfoV { path: i.path, target: t }),
        None => StatsV::Resolving(i),
    }
}

/// Exec mirror of [`exports_step`].
pub fn exports_field_step(options: &ResolverOptions, info: Info, pkg: &PkgFileInfo) -> (r:
    ResolverStats)
    ensures
        r.sem() == exports_step(options.sem(), info.sem(), pkg_sem(*pkg)),
{
    proof {
        reveal_strlit("./");
        assert("./"@ =~= dot_slash());
    }
    match &pkg.exports_field_tree {
        None => ResolverStats::Resolving(info),
        Some(tree) => {
            if pkg.abs_dir_path.len() > info.path.len() {
                let k = pkg.abs_dir_path.len() - info.path.len();
                match drop_segs_exec(info.target.as_str(), k) {
                    None => ResolverStats::Resolving(info),
                    Some(rest) => {
                        let sub = subpath_of_exec(rest.as_str());
                        match tree_lookup(tree, sub.as_str(), &options.condition_names) {
                            None => ResolverStats::Error(ResolveError::ExportsRestricted, info),
                            Some(t) => {
                                if has_prefix(t.as_str(), "./") {
                                    let path = path_clone(&pkg.abs_dir_path);
                                    ResolverStats::Resolving(Info { path, target: t })
                                } else {
                                    ResolverStats::Error(
                                        ResolveError::ExportsTargetInvalid,
                                        info,
                                    )
                                }
                            },
                        }
                    },
                }
            } else {
                ResolverStats::Resolving(info)
            }
        },
    }
}

/// Exec mirror of [`imports_step`].
pub fn imports_field_step(options: &ResolverOptions, info: Info, pkg: &PkgFileInfo) -> (r:
    ResolverStats)
    ensures
        r.sem() == imports_step(options.sem(), info.sem(), pkg_sem(*pkg)),
{
    proof {
        reveal_strlit("./");
        assert("./"@ =~= dot_slash());
    }
    match &pkg.imports_field_tree {
        None => ResolverStats::Resolving(info),
        Some(tree) => {
            let is_hash = info.target.as_str().unicode_len() > 0 && info.target.as_str().get_char(
                0,
            ) == '#';
            if is_hash {
                match tree_lookup(tree, info.target.as_str(), &options.condition_names) {
                    None => ResolverStats::Resolving(info),
                    Some(t) => {
                        if has_prefix(t.as_str(), "./") {
                            let path = path_clone(&pkg.abs_dir_path);
                            ResolverStats::Resolving(Info { path, target: t })
                        } else {
                            ResolverStats::Resolving(Info { path: info.path, target: t })
                        }
                    },
                }
            } else {
                ResolverStats::Resolving(info)
            }
        },
    }
}

/// Exec mirror of [`alias_step`].
pub fn alias_field_step(info: Info, pkg: &PkgFileInfo) -> (r: ResolverStats)
    ensures
        r.sem() == alias_step(info.sem(), pkg_sem(*pkg)),
{
    proof {
        lemma_alias_sem_len(pkg.alias_fields@);
    }
    let ghost av = crate::description::alias_sem(pkg.alias_fields@);
    let mut i: usize = pkg.alias_fields.len();
    proof {
        assert(av.take(i as int) =~= av);
    }
    while i > 0
        invariant
            0 <= i <= pkg.alias_fields@.len(),
            av == crate::description::alias_sem(pkg.alias_fields@),
            av.len() == pkg.alias_fields@.len(),
            forall|j: int|
                0 <= j < av.len() ==> av[j] == (
                    pkg.alias_fields@[j].0@,
                    crate::description::alias_map_sem(pkg.alias_fields@[j].1),
                ),
            alias_lookup(av, info.target@) == alias_lookup(av.take(i as int), info.target@),
        decreases i,
    {
        proof {
            assert(av.take(i as int).last() == av[i as int - 1]);
            assert(av.take(i as int).drop_last() =~= av.take(i as int - 1));
        }
        if str_eq(pkg.alias_fields[i - 1].0.as_str(), info.target.as_str()) {
            match &pkg.alias_fields[i - 1].1 {
                AliasMap::Ignored => {
                    return ResolverStats::Success(ResolverResult::Ignored);
                },
                AliasMap::Target(t) => {
                    return ResolverStats::Resolving(
                        Info { path: info.path, target: t.clone() },
                    );
                },
            }
        }
        i -= 1;
    }
    proof {
        assert(av.take(0).len() == 0);
    }
    ResolverStats::Resolving(info)
}

/// The spliced path: walking prefixes of `p` from the longest down, the
/// first that is a symlink has its target substituted for it, the suffix
/// below it kept in order; a path with no symlinked prefix stays as it is.
pub open spec fn splice(fs: FsV, p: PathV, upto: nat) -> PathV
    decreases upto,
{
    if upto == 0 {
        p
    } else {
        match fs_link(fs, p.subrange(0, upto as int)) {
            Some(t) => t + p.subrange(upto as int, p.len() as int),
            None => splice(fs, p, (upto - 1) as nat),
        }
    }
}

/// What the symlink step makes of a finished candidate: the spliced path
/// when symlink resolution is on, the path unchanged (already normalized)
/// otherwise.
pub open spec fn symlink_apply_spec(fs: FsV, o: OptionsV, i: InfoV) -> StatsV {
    if !o.symlinks {
        StatsV::Success(ResultV::Info(i))
    } else {
        StatsV::Success(
            ResultV::Info(InfoV { path: splice(fs, i.path, i.path.len()), target: i.target }),
        )
    }
}

/// The final resolution step: realpath the candidate by splicing the
/// deepest symlinked ancestor, or leave the (already normalized) path.
pub struct SymlinkPlugin;

impl SymlinkPlugin {
    /// Applies the step to a finished candidate (its tail is already
    /// consumed by the pipeline).
    pub fn apply(&self, resolver: &Resolver, fs: &FileSystem, info: Info) -> (r: ResolverStats)
        requires
            fs.wf(),
        ensures
            r.sem() == symlink_apply_spec(fs.sem(), resolver.options.sem(), info.sem()),
    {
        if !resolver.options.symlinks {
            return ResolverStats::Success(ResolverResult::Info(info));
        }
        self.resolve_symlink(resolver, fs, info)
    }

    /// Walks the prefixes of the candidate's path from the deepest up,
    /// splices the first symlink found, and succeeds with the result.
    pub fn resolve_symlink(&self, resolver: &Resolver, fs: &FileSystem, info: Info) -> (r:
        ResolverStats)
        requires
            fs.wf(),
        ensures
            r.sem() == StatsV::Success(
                ResultV::Info(
                    InfoV {
                        path: splice(fs.sem(), info.sem().path, info.sem().path.len()),
                        target: info.target@,
                    },
                ),
            ),
    {
        let ghost pv = info.path.deep_view();
        let mut prefix = path_clone(&info.path);
        let mut i: usize = info.path.len();
        proof {
            assert(prefix.deep_view() =~= pv.subrange(0, i as int));
            assert(splice(fs.sem(), pv, pv.len()) == splice(fs.sem(), pv, i as nat));
        }
        while i > 0
            invariant
                fs.wf(),
                0 <= i <= pv.len(),
                pv == info.path.deep_view(),
                prefix.deep_view() =~= pv.subrange(0, i as int),
                splice(fs.sem(), pv, pv.len()) == splice(fs.sem(), pv, i as nat),
            decreases i,
        {
            let link: Option<&Vec<String>> = match fs.lookup(&prefix) {
                Some(n) => match n {
                    FsNode::Symlink(t) => Some(t),
                    _ => None,
                },
                None => None,
            };
            match link {
                Some(t) => {
                    let mut out = path_clone(t);
                    let ghost outv0 = out.deep_view();
                    let n = info.path.len();
                    let mut k: usize = i;
                    while k < n
                        invariant
                            i <= k <= n,
                            n == pv.len(),
                            pv == info.path.deep_view(),
                            out.deep_view() =~= outv0 + pv.subrange(i as int, k as int),
                        decreases n - k,
                    {
                        let ghost beforedv = out.deep_view();
                        out.push(info.path[k].clone());
                        proof {
                            assert(out.deep_view() =~= beforedv.push(pv[k as int]));
                            assert(out.deep_view() =~= outv0 + pv.subrange(
                                i as int,
                                k as int + 1,
                            ));
                        }
                        k += 1;
                    }
                    proof {
                        assert(out.deep_view() =~= outv0 + pv.subrange(i as int, pv.len() as int));
                    }
                    return ResolverStats::Success(
                        ResolverResult::Info(Info { path: out, target: info.target }),
                    );
                },
                None => {
                    let ghost beforep = prefix.deep_view();
                    prefix.pop();
                    i -= 1;
                    proof {
                        assert(prefix.deep_view() =~= beforep.drop_last());
                        assert(prefix.deep_view() =~= pv.subrange(0, i as int));
                    }
                },
            }
        }
        proof {
            assert(splice(fs.sem(), pv, 0) == pv);
        }
        ResolverStats::Success(ResolverResult::Info(info))
    }
}

} // verus!

//! The resolution pipeline: file probing with extensions, directory
//! resolution through main fields and the index file, the upward package
//! search with backtracking, and the public entry point.
use vstd::prelude::*;
use crate::description::{PkgFileInfo, PkgInfoV, pkg_sem, load_spec, cache_wf};
use crate::fsmodel::{FileSystem, FsV, fs_is_file, fs_is_dir};
use crate::outcome::{Info, InfoV, ResolverResult, ResolverStats, ResolveError, ResultV, StatsV};
use crate::paths::{PathV, push_rel, path_of, path_clone, path_of_exec, push_rel_exec};
use crate::plugin::{
    exports_step, imports_step, alias_step, exports_field_step, imports_field_step,
    alias_field_step, symlink_apply_spec, SymlinkPlugin, dot_slash,
};
use crate::resolver::{Resolver, OptionsV};
use crate::text::{str_eq, has_prefix, concat_str};
use crate::tree::dot;

verus! {

/// The candidate's path with its tail joined on.
pub open spec fn full_path(i: InfoV) -> PathV {
    push_rel(i.path, i.target)
}

fn full_path_exec(info: &Info) -> (r: Vec<String>)
    ensures
        r.deep_view() == full_path(info.sem()),
{
    let mut r = path_clone(&info.path);
    push_rel_exec(&mut r, info.target.as_str());
    r
}

/// `p` with `.ext` appended to its last segment (the path unchanged when
/// the extension is empty).
pub open spec fn append_ext_spec(p: PathV, ext: Seq<char>) -> PathV {
    if ext.len() == 0 {
        p
    } else if p.len() == 0 {
        p.push(dot() + ext)
    } else {
        p.drop_last().push(p.last() + dot() + ext)
    }
}

/// The path probed for the tail under one extension: an empty tail means
/// the extension goes onto the path itself, else onto the joined tail.
pub open spec fn ext_path(i: InfoV, ext: Seq<char>) -> PathV {
    if i.target.len() == 0 {
        append_ext_spec(i.path, ext)
    } else if ext.len() == 0 {
        push_rel(i.path, i.target)
    } else {
        push_rel(i.path, i.target + dot() + ext)
    }
}

/// The first configured extension, in order, whose probed path is a file.
pub open spec fn ext_probe(fs: FsV, exts: Seq<Seq<char>>, i: InfoV) -> Option<PathV>
    decreases exts.len(),
{
    if exts.len() == 0 {
        None
    } else if fs_is_file(fs, ext_path(i, exts[0])) {
        Some(ext_path(i, exts[0]))
    } else {
        ext_probe(fs, exts.drop_first(), i)
    }
}

/// Resolve-as-file: the literal path when extension enforcement is off and
/// it is a file, else the first extension whose probe exists; not finding
/// a file is no error, only `Resolving`.
pub open spec fn file_probe(fs: FsV, o: OptionsV, i: InfoV) -> StatsV {
    if !o.enforce_extension && fs_is_file(fs, full_path(i)) {
        StatsV::Success(ResultV::Info(InfoV { path: full_path(i), target: Seq::empty() }))
    } else {
        match ext_probe(fs, o.extensions, i) {
            Some(p) => StatsV::Success(ResultV::Info(InfoV { path: p, target: Seq::empty() })),
            None => StatsV::Resolving(i),
        }
    }
}

/// The conventional default basename tried by the Main-File step.
pub open spec fn index_name() -> Seq<char> {
    seq!['i', 'n', 'd', 'e', 'x']
}

/// The Main-Field step: the first main-field value, taken eagerly, probed
/// as a file relative to the directory; failure to find it passes the
/// directory candidate on.
pub open spec fn main_field_step(fs: FsV, o: OptionsV, pkg: Option<PkgInfoV>, i: InfoV) -> StatsV {
    match pkg {
        Some(p) => if p.main_fields.len() > 0 {
            match file_probe(fs, o, InfoV { path: i.path, target: p.main_fields[0] }) {
                StatsV::Success(r) => StatsV::Success(r),
                _ => StatsV::Resolving(i),
            }
        } else {
            StatsV::Resolving(i)
        },
        None => StatsV::Resolving(i),
    }
}

/// The Main-File step: the `index` basename probed with the configured
/// extensions.
pub open spec fn main_file_step(fs: FsV, o: OptionsV, i: InfoV) -> StatsV {
    match file_probe(fs, o, InfoV { path: i.path, target: index_name() }) {
        StatsV::Success(r) => StatsV::Success(r),
        _ => StatsV::Resolving(i),
    }
}

/// Resolve-as-dir: not a directory is an error; else the governing
/// manifest is discovered and Main-Field then Main-File run in sequence.
pub open spec fn dir_resolve(fs: FsV, o: OptionsV, i: InfoV) -> StatsV {
    if !fs_is_dir(fs, full_path(i)) {
        StatsV::Error(ResolveError::NotADirectory, i)
    } else {
        match load_spec(fs, o, full_path(i)) {
            Err(e) => StatsV::Error(e, i),
            Ok(pkg) => {
                let i2 = InfoV { path: full_path(i), target: Seq::empty() };
                match main_field_step(fs, o, pkg, i2) {
                    StatsV::Resolving(i3) => main_file_step(fs, o, i3),
                    s => s,
                }
            },
        }
    }
}

/// Exports, then Imports.
pub open spec fn ie_steps(o: OptionsV, i: InfoV, p: PkgInfoV) -> StatsV {
    match exports_step(o, i, p) {
        StatsV::Resolving(i2) => imports_step(o, i2, p),
        s => s,
    }
}

/// Exports, then Imports, then Alias — the real target of a candidate
/// under a governing manifest; no manifest passes the candidate through.
pub open spec fn real_target_spec(o: OptionsV, i: InfoV, pkg: Option<PkgInfoV>) -> StatsV {
    match pkg {
        Some(p) => match ie_steps(o, i, p) {
            StatsV::Resolving(i2) => alias_step(i2, p),
            s => s,
        },
        None => StatsV::Resolving(i),
    }
}

/// One level of the upward package search: when a modules subdirectory is
/// here, the target package's manifest drives Exports → Imports → Alias,
/// then file and directory resolution; any non-success of that attempt is
/// demoted back to `Resolving` so the climb goes on.
pub open spec fn modules_attempt(fs: FsV, o: OptionsV, i: InfoV) -> StatsV {
    let modules_path = i.path.push(o.modules_dir);
    if fs_is_dir(fs, modules_path) {
        match load_spec(fs, o, push_rel(modules_path, i.target)) {
            Err(e) => StatsV::Error(e, i),
            Ok(pkg) => {
                let i2 = InfoV { path: modules_path, target: i.target };
                match real_target_spec(o, i2, pkg) {
                    StatsV::Resolving(i3) => match file_probe(fs, o, i3) {
                        StatsV::Success(r) => StatsV::Success(r),
                        StatsV::Resolving(i4) => match dir_resolve(fs, o, i4) {
                            StatsV::Success(r) => StatsV::Success(r),
                            StatsV::Resolving(i5) => StatsV::Resolving(i5),
                            StatsV::Error(_, i5) => StatsV::Resolving(i5),
                        },
                        s => s,
                    },
                    s => s,
                }
            },
        }
    } else {
        StatsV::Resolving(i)
    }
}

/// The climb: a non-success attempt at this directory recurses into the
/// parent with the attempt's tail; at the root the candidate is still
/// `Resolving`.
pub open spec fn modules_climb(fs: FsV, o: OptionsV, i: InfoV) -> StatsV
    decreases i.path.len(),
{
    match modules_attempt(fs, o, i) {
        StatsV::Resolving(i5) => if i.path.len() > 0 {
            modules_climb(fs, o, InfoV { path: i.path.drop_last(), target: i5.target })
        } else {
            StatsV::Resolving(i5)
        },
        s => s,
    }
}

/// Resolve-as-package: the whole climb; exhausting every ancestor is the
/// single terminal `ModuleNotFound`.
pub open spec fn modules_resolve(fs: FsV, o: OptionsV, i: InfoV) -> StatsV {
    match modules_climb(fs, o, i) {
        StatsV::Resolving(i2) => StatsV::Error(ResolveError::ModuleNotFound, i2),
        s => s,
    }
}

/// Resolve-as-file then resolve-as-dir; a candidate neither satisfies is
/// `ModuleNotFound`.
pub open spec fn file_dir_flow(fs: FsV, o: OptionsV, i: InfoV) -> StatsV {
    match file_probe(fs, o, i) {
        StatsV::Resolving(i2) => match dir_resolve(fs, o, i2) {
            StatsV::Resolving(i3) => StatsV::Error(ResolveError::ModuleNotFound, i3),
            s => s,
        },
        s => s,
    }
}

/// The entry point only ever answers terminally: a success (a path or
/// the intentionally-ignored state) or a single error, never a pending
/// candidate.
pub proof fn lemma_resolve_terminal(fs: FsV, o: OptionsV, dir: Seq<char>, request: Seq<char>)
    ensures
        !(resolve_spec(fs, o, dir, request) is Resolving),
{
}

/// The symlink step applied to a successful outcome.
pub open spec fn finish_spec(fs: FsV, o: OptionsV, s: StatsV) -> StatsV {
    match s {
        StatsV::Success(ResultV::Info(i)) => symlink_apply_spec(fs, o, i),
        _ => s,
    }
}

pub open spec fn dotdot() -> Seq<char> {
    seq!['.', '.']
}

pub open spec fn dotdot_slash() -> Seq<char> {
    seq!['.', '.', '/']
}

/// Whether the tail is a relative path request.
pub open spec fn is_relative_req(t: Seq<char>) -> bool {
    t == dot() || t == dotdot() || dot_slash().is_prefix_of(t) || dotdot_slash().is_prefix_of(t)
}

/// Whether the tail is an absolute path request.
pub open spec fn is_absolute_req(t: Seq<char>) -> bool {
    t.len() > 0 && t[0] == '/'
}

/// The whole resolution, as a pure function of the snapshot, the options'
/// mathematical value, the starting directory and the request: the
/// starting directory's manifest drives Exports → Imports → Alias, the
/// candidate is routed to file/dir resolution (path requests) or the
/// upward package search (bare requests), and a success passes through
/// the symlink step.
pub open spec fn resolve_spec(fs: FsV, o: OptionsV, dir: Seq<char>, request: Seq<char>) -> StatsV {
    let base = path_of(dir);
    let i0 = InfoV { path: base, target: request };
    match load_spec(fs, o, base) {
        Err(e) => StatsV::Error(e, i0),
        Ok(pkg) => match real_target_spec(o, i0, pkg) {
            StatsV::Resolving(i1) => {
                let routed = if is_absolute_req(i1.target) {
                    file_dir_flow(
                        fs,
                        o,
                        InfoV { path: path_of(i1.target), target: Seq::empty() },
                    )
                } else if is_relative_req(i1.target) {
                    file_dir_flow(fs, o, i1)
                } else {
                    modules_resolve(fs, o, i1)
                };
                finish_spec(fs, o, routed)
            },
            s => finish_spec(fs, o, s),
        },
    }
}

impl Resolver {
    /// `path` with `.ext` appended to its last segment.
    pub fn append_ext_for_path(path: &Vec<String>, ext: &str) -> (r: Vec<String>)
        ensures
            r.deep_view() == append_ext_spec(path.deep_view(), ext@),
    {
        proof {
            reveal_strlit(".");
            assert("."@ =~= dot());
        }
        let mut r = path_clone(path);
        if ext.unicode_len() == 0 {
            return r;
        }
        let dotted = concat_str(".", ext);
        if r.len() == 0 {
            r.push(dotted);
            proof {
                assert(r.deep_view() =~= path.deep_view().push(dot() + ext@));
            }
        } else {
            let ghost before = r.deep_view();
            let last = match r.pop() {
                Some(l) => l,
                None => {
                    return r;
                },
            };
            proof {
                assert(r.deep_view() =~= before.drop_last());
            }
            let new_last = last.concat(dotted.as_str());
            r.push(new_last);
            proof {
                assert(r.deep_view() =~~= before.drop_last().push(before.last() + dot() + ext@));
            }
        }
        r
    }

    /// The probed path of the candidate under one extension.
    fn ext_path_exec(info: &Info, ext: &String) -> (r: Vec<String>)
        ensures
            r.deep_view() == ext_path(info.sem(), ext@),
    {
        proof {
            reveal_strlit(".");
            assert("."@ =~= dot());
        }
        if info.target.as_str().unicode_len() == 0 {
            Self::append_ext_for_path(&info.path, ext.as_str())
        } else if ext.as_str().unicode_len() == 0 {
            let mut r = path_clone(&info.path);
            push_rel_exec(&mut r, info.target.as_str());
            r
        } else {
            let head = concat_str(info.target.as_str(), ".");
            let joined = head.concat(ext.as_str());
            proof {
                assert(joined@ =~= info.target@ + dot() + ext@);
            }
            let mut r = path_clone(&info.path);
            push_rel_exec(&mut r, joined.as_str());
            r
        }
    }

    /// Probes the configured extensions from index `i` on.
    fn probe_exts(&self, fs: &FileSystem, info: &Info, i: usize) -> (r: Option<Vec<String>>)
        requires
            fs.wf(),
            0 <= i <= self.options.extensions@.len(),
        ensures
            match r {
                Some(p) => ext_probe(
                    fs.sem(),
                    self.options.sem().extensions.skip(i as int),
                    info.sem(),
                ) == Some(p.deep_view()),
                None => ext_probe(
                    fs.sem(),
                    self.options.sem().extensions.skip(i as int),
                    info.sem(),
                ) is None,
            },
        decreases self.options.extensions@.len() - i,
    {
        let ghost exts = self.options.sem().extensions;
        if i == self.options.extensions.len() {
            proof {
                assert(exts.skip(i as int).len() == 0);
            }
            return None;
        }
        proof {
            assert(exts.skip(i as int)[0] == exts[i as int]);
            assert(exts.skip(i as int).drop_first() =~= exts.skip(i as int + 1));
        }
        let p = Self::ext_path_exec(info, &self.options.extensions[i]);
        if fs.is_file(&p) {
            Some(p)
        } else {
            self.probe_exts(fs, info, i + 1)
        }
    }

    /// Resolve-as-file on the candidate; finding nothing is `Resolving`,
    /// not an error.
    pub fn resolve_as_file(&self, fs: &FileSystem, info: Info) -> (r: ResolverStats)
        requires
            fs.wf(),
        ensures
            r.sem() == file_probe(fs.sem(), self.options.sem(), info.sem()),
    {
        let full = full_path_exec(&info);
        if !self.options.enforce_extension && fs.is_file(&full) {
            return ResolverStats::Success(
                ResolverResult::Info(Info { path: full, target: String::new() }),
            );
        }
        proof {
            assert(self.options.sem().extensions.skip(0) =~= self.options.sem().extensions);
        }
        match self.probe_exts(fs, &info, 0) {
            Some(p) => ResolverStats::Success(
                ResolverResult::Info(Info { path: p, target: String::new() }),
            ),
            None => ResolverStats::Resolving(info),
        }
    }

    /// The Main-Field step on a directory candidate.
    fn main_field_step_exec(&self, fs: &FileSystem, pkg: Option<&PkgFileInfo>, info: Info) -> (r:
        ResolverStats)
        requires
            fs.wf(),
        ensures
            r.sem() == main_field_step(
                fs.sem(),
                self.options.sem(),
                match pkg {
                    Some(p) => Some(pkg_sem(*p)),
                    None => None,
                },
                info.sem(),
            ),
    {
        match pkg {
            Some(p) => {
                if p.main_fields.len() > 0 {
                    let probe = Info {
                        path: path_clone(&info.path),
                        target: p.main_fields[0].clone(),
                    };
                    match self.resolve_as_file(fs, probe) {
                        ResolverStats::Success(r) => ResolverStats::Success(r),
                        _ => ResolverStats::Resolving(info),
                    }
                } else {
                    ResolverStats::Resolving(info)
                }
            },
            None => ResolverStats::Resolving(info),
        }
    }

    /// The Main-File step on a directory candidate.
    fn main_file_step_exec(&self, fs: &FileSystem, info: Info) -> (r: ResolverStats)
        requires
            fs.wf(),
        ensures
            r.sem() == main_file_step(fs.sem(), self.options.sem(), info.sem()),
    {
        proof {
            reveal_strlit("index");
            assert("index"@ =~= index_name());
        }
        let probe = Info { path: path_clone(&info.path), target: String::from_str("index") };
        match self.resolve_as_file(fs, probe) {
            ResolverStats::Success(r) => ResolverStats::Success(r),
            _ => ResolverStats::Resolving(info),
        }
    }

    /// Resolve-as-dir: discover the governing manifest, then Main-Field
    /// then Main-File.
    pub fn resolve_as_dir(&mut self, fs: &FileSystem, info: Info) -> (r: ResolverStats)
        requires
            fs.wf(),
            cache_wf(old(self).cache, fs.sem(), old(self).options.sem()),
        ensures
            final(self).options == old(self).options,
            cache_wf(final(self).cache, fs.sem(), final(self).options.sem()),
            r.sem() == dir_resolve(fs.sem(), old(self).options.sem(), info.sem()),
    {
        let dir = full_path_exec(&info);
        if !fs.is_dir(&dir) {
            return ResolverStats::Error(ResolveError::NotADirectory, info);
        }
        let pkg_ix = match self.load_pkg_file(fs, &dir) {
            Ok(v) => v,
            Err(e) => {
                return ResolverStats::Error(e, info);
            },
        };
        let info2 = Info { path: dir, target: String::new() };
        let pkg: Option<&PkgFileInfo> = match pkg_ix {
            Some(ix) => Some(&self.cache.arena[ix]),
            None => None,
        };
        let s1 = self.main_field_step_exec(fs, pkg, info2);
        match s1 {
            ResolverStats::Resolving(i3) => self.main_file_step_exec(fs, i3),
            s => s,
        }
    }

    /// Exports then Imports against the candidate.
    pub fn deal_imports_exports_field_plugin(&self, info: Info, pkg_info: &PkgFileInfo) -> (r:
        ResolverStats)
        ensures
            r.sem() == ie_steps(self.options.sem(), info.sem(), pkg_sem(*pkg_info)),
    {
        match exports_field_step(&self.options, info, pkg_info) {
            ResolverStats::Resolving(i2) => imports_field_step(&self.options, i2, pkg_info),
            s => s,
        }
    }

    /// Exports → Imports → Alias under the governing manifest; without one
    /// the candidate passes through.
    pub fn get_real_target(&self, info: Info, pkg_info: Option<&PkgFileInfo>) -> (r:
        ResolverStats)
        ensures
            r.sem() == real_target_spec(
                self.options.sem(),
                info.sem(),
                match pkg_info {
                    Some(p) => Some(pkg_sem(*p)),
                    None => None,
                },
            ),
    {
        match pkg_info {
            Some(p) => match self.deal_imports_exports_field_plugin(info, p) {
                ResolverStats::Resolving(i2) => alias_field_step(i2, p),
                s => s,
            },
            None => ResolverStats::Resolving(info),
        }
    }

    /// One attempt plus the climb into the parent.
    fn modules_climb_exec(&mut self, fs: &FileSystem, info: Info) -> (r: ResolverStats)
        requires
            fs.wf(),
            cache_wf(old(self).cache, fs.sem(), old(self).options.sem()),
        ensures
            final(self).options == old(self).options,
            cache_wf(final(self).cache, fs.sem(), final(self).options.sem()),
            r.sem() == modules_climb(fs.sem(), old(self).options.sem(), info.sem()),
        decreases info.path@.len(),
    {
        let ghost iv = info.sem();
        let mut orig_dir = path_clone(&info.path);
        let mut modules_path = path_clone(&info.path);
        modules_path.push(self.options.modules_dir.clone());
        proof {
            assert(modules_path.deep_view() =~= iv.path.push(
                self.options.sem().modules_dir,
            ));
        }
        let stats: ResolverStats = if fs.is_dir(&modules_path) {
            let mut load_path = path_clone(&modules_path);
            push_rel_exec(&mut load_path, info.target.as_str());
            match self.load_pkg_file(fs, &load_path) {
                Err(e) => ResolverStats::Error(e, info),
                Ok(pkg_ix) => {
                    let info2 = Info { path: modules_path, target: info.target };
                    let pkg: Option<&PkgFileInfo> = match pkg_ix {
                        Some(ix) => Some(&self.cache.arena[ix]),
                        None => None,
                    };
                    match self.get_real_target(info2, pkg) {
                        ResolverStats::Resolving(i3) => {
                            match self.resolve_as_file(fs, i3) {
                                ResolverStats::Success(r) => ResolverStats::Success(r),
                                ResolverStats::Resolving(i4) => {
                                    match self.resolve_as_dir(fs, i4) {
                                        ResolverStats::Success(r) => ResolverStats::Success(r),
                                        ResolverStats::Resolving(i5) => ResolverStats::Resolving(
                                            i5,
                                        ),
                                        ResolverStats::Error(_, i5) => ResolverStats::Resolving(
                                            i5,
                                        ),
                                    }
                                },
                                s => s,
                            }
                        },
                        s => s,
                    }
                },
            }
        } else {
            ResolverStats::Resolving(info)
        };
        match stats {
            ResolverStats::Resolving(i5) => {
                if orig_dir.len() > 0 {
                    let ghost before = orig_dir.deep_view();
                    orig_dir.pop();
                    proof {
                        assert(orig_dir.deep_view() =~= before.drop_last());
                    }
                    self.modules_climb_exec(fs, Info { path: orig_dir, target: i5.target })
                } else {
                    ResolverStats::Resolving(i5)
                }
            },
            s => s,
        }
    }

    /// Resolve-as-package: the upward modules search; nothing anywhere in
    /// the climb is the single terminal `ModuleNotFound`.
    pub fn resolve_as_modules(&mut self, fs: &FileSystem, info: Info) -> (r: ResolverStats)
        requires
            fs.wf(),
            cache_wf(old(self).cache, fs.sem(), old(self).options.sem()),
        ensures
            final(self).options == old(self).options,
            cache_wf(final(self).cache, fs.sem(), final(self).options.sem()),
            r.sem() == modules_resolve(fs.sem(), old(self).options.sem(), info.sem()),
    {
        match self.modules_climb_exec(fs, info) {
            ResolverStats::Resolving(i2) => ResolverStats::Error(
                ResolveError::ModuleNotFound,
                i2,
            ),
            s => s,
        }
    }

    /// Resolve-as-file then resolve-as-dir.
    fn file_dir_flow_exec(&mut self, fs: &FileSystem, info: Info) -> (r: ResolverStats)
        requires
            fs.wf(),
            cache_wf(old(self).cache, fs.sem(), old(self).options.sem()),
        ensures
            final(self).options == old(self).options,
            cache_wf(final(self).cache, fs.sem(), final(self).options.sem()),
            r.sem() == file_dir_flow(fs.sem(), old(self).options.sem(), info.sem()),
    {
        match self.resolve_as_file(fs, info) {
            ResolverStats::Resolving(i2) => match self.resolve_as_dir(fs, i2) {
                ResolverStats::Resolving(i3) => ResolverStats::Error(
                    ResolveError::ModuleNotFound,
                    i3,
                ),
                s => s,
            },
            s => s,
        }
    }

    /// The single entry point: resolves `request` from `dir` against the
    /// snapshot.  The outcome is a pure function of the snapshot, the
    /// options' mathematical value, the directory and the request — the
    /// same query against the same snapshot always answers the same, with
    /// or without the manifest cache.
    pub fn resolve(&mut self, fs: &FileSystem, dir: &str, request: &str) -> (r: ResolverStats)
        requires
            fs.wf(),
            cache_wf(old(self).cache, fs.sem(), old(self).options.sem()),
        ensures
            final(self).options == old(self).options,
            cache_wf(final(self).cache, fs.sem(), final(self).options.sem()),
            r.sem() == resolve_spec(fs.sem(), old(self).options.sem(), dir@, request@),
            !(r is Resolving),
    {
        proof {
            lemma_resolve_terminal(fs.sem(), old(self).options.sem(), dir@, request@);
            reveal_strlit(".");
            reveal_strlit("..");
            reveal_strlit("./");
            reveal_strlit("../");
            assert("."@ =~= dot());
            assert(".."@ =~= dotdot());
            assert("./"@ =~= dot_slash());
            assert("../"@ =~= dotdot_slash());
        }
        let base = path_of_exec(dir);
        let pkg_ix = match self.load_pkg_file(fs, &base) {
            Ok(v) => v,
            Err(e) => {
                return ResolverStats::Error(e, Info { path: base, target: request.to_owned() });
            },
        };
        let info0 = Info { path: base, target: request.to_owned() };
        let pkg: Option<&PkgFileInfo> = match pkg_ix {
            Some(ix) => Some(&self.cache.arena[ix]),
            None => None,
        };
        let routed: ResolverStats = match self.get_real_target(info0, pkg) {
            ResolverStats::Resolving(i1) => {
                let t_abs = i1.target.as_str().unicode_len() > 0 && i1.target.as_str().get_char(
                    0,
                ) == '/';
                if t_abs {
                    let p = path_of_exec(i1.target.as_str());
                    self.file_dir_flow_exec(fs, Info { path: p, target: String::new() })
                } else if str_eq(i1.target.as_str(), ".") || str_eq(i1.target.as_str(), "..")
                    || has_prefix(i1.target.as_str(), "./") || has_prefix(
                    i1.target.as_str(),
                    "../",
                ) {
                    self.file_dir_flow_exec(fs, i1)
                } else {
                    self.resolve_as_modules(fs, i1)
                }
            },
            s => s,
        };
        match routed {
            ResolverStats::Success(rr) => match rr {
                ResolverResult::Info(i) => {
                    let plug = SymlinkPlugin;
                    plug.apply(&*self, fs, i)
                },
                ResolverResult::Ignored => ResolverStats::Success(ResolverResult::Ignored),
            },
            s => s,
        }
    }
}

} // verus!

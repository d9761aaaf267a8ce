//! The manifest model: parsing a package manifest out of the filesystem
//! snapshot, discovering which directory a manifest governs, and the
//! lazily backfilled cache of both.
use vstd::prelude::*;
use crate::fsmodel::{FileSystem, FsNode, FsV, fs_is_file, fs_content};
use crate::json::{
    JsonValue, JsonView, jv_sem, json_of, obj_get_spec, obj_get, obj_sem, parse_json,
    lemma_obj_sem_len,
};
use crate::outcome::ResolveError;
use crate::paths::{PathV, path_clone, path_eq};
use crate::resolver::{Resolver, ManifestCache, OptionsV};
use crate::tree::{PathTreeNode, TreeV, tree_sem, build_spec, build_tree};

verus! {

/// One alias entry: `false` in the manifest means the request is
/// intentionally ignored; a string redirects it.
pub enum AliasMap {
    Ignored,
    Target(String),
}

/// The mathematical value of an alias entry.
pub enum AliasV {
    Ignored,
    Target(Seq<char>),
}

pub open spec fn alias_map_sem(a: AliasMap) -> AliasV {
    match a {
        AliasMap::Ignored => AliasV::Ignored,
        AliasMap::Target(s) => AliasV::Target(s@),
    }
}

pub open spec fn alias_sem(e: Seq<(String, AliasMap)>) -> Seq<(Seq<char>, AliasV)>
    decreases e,
{
    if e.len() == 0 {
        Seq::empty()
    } else {
        seq![(e[0].0@, alias_map_sem(e[0].1))] + alias_sem(e.drop_first())
    }
}

pub proof fn lemma_alias_sem_len(e: Seq<(String, AliasMap)>)
    ensures
        alias_sem(e).len() == e.len(),
        forall|i: int| 0 <= i < e.len() ==> alias_sem(e)[i] == (e[i].0@, alias_map_sem(e[i].1)),
    decreases e,
{
    if e.len() > 0 {
        lemma_alias_sem_len(e.drop_first());
    }
}

/// A parsed package manifest, immutable once built.
pub struct PkgFileInfo {
    /// The directory the manifest governs (where the file was found).
    pub abs_dir_path: Vec<String>,
    pub name: Option<String>,
    pub main_fields: Vec<String>,
    pub alias_fields: Vec<(String, AliasMap)>,
    pub exports_field_tree: Option<PathTreeNode>,
    pub imports_field_tree: Option<PathTreeNode>,
    pub side_effects: Option<bool>,
}

/// The mathematical value of a parsed manifest.
pub struct PkgInfoV {
    pub abs_dir_path: PathV,
    pub name: Option<Seq<char>>,
    pub main_fields: Seq<Seq<char>>,
    pub alias_fields: Seq<(Seq<char>, AliasV)>,
    pub exports_field_tree: Option<TreeV>,
    pub imports_field_tree: Option<TreeV>,
    pub side_effects: Option<bool>,
}

pub open spec fn pkg_sem(p: PkgFileInfo) -> PkgInfoV {
    PkgInfoV {
        abs_dir_path: p.abs_dir_path.deep_view(),
        name: p.name.deep_view(),
        main_fields: p.main_fields.deep_view(),
        alias_fields: alias_sem(p.alias_fields@),
        exports_field_tree: match p.exports_field_tree {
            Some(t) => Some(tree_sem(t)),
            None => None,
        },
        imports_field_tree: match p.imports_field_tree {
            Some(t) => Some(tree_sem(t)),
            None => None,
        },
        side_effects: p.side_effects,
    }
}

pub open spec fn exports_key() -> Seq<char> {
    seq!['e', 'x', 'p', 'o', 'r', 't', 's']
}

pub open spec fn imports_key() -> Seq<char> {
    seq!['i', 'm', 'p', 'o', 'r', 't', 's']
}

pub open spec fn name_key() -> Seq<char> {
    seq!['n', 'a', 'm', 'e']
}

pub open spec fn side_effects_key() -> Seq<char> {
    seq!['s', 'i', 'd', 'e', 'E', 'f', 'f', 'e', 'c', 't', 's']
}

/// The value under top-level key `k`, when the document is an object.
pub open spec fn doc_get(j: JsonView, k: Seq<char>) -> Option<JsonView> {
    match j {
        JsonView::Obj(e) => obj_get_spec(e, k),
        _ => None,
    }
}

/// Exec mirror of [`doc_get`].
pub fn doc_get_exec<'a>(j: &'a JsonValue, k: &str) -> (r: Option<&'a JsonValue>)
    ensures
        match r {
            Some(v) => doc_get(jv_sem(*j), k@) == Some(jv_sem(*v)),
            None => doc_get(jv_sem(*j), k@) is None,
        },
{
    match j {
        JsonValue::Obj(e) => {
            proof {
                assert(jv_sem(*j) == JsonView::Obj(obj_sem(e@)));
            }
            obj_get(e, k)
        },
        _ => None,
    }
}

/// The main-field values of the document: for each configured field name,
/// in order, the value under it, kept only when it is a string.
pub open spec fn main_fields_spec(j: JsonView, fields: Seq<Seq<char>>) -> Seq<Seq<char>>
    decreases fields.len(),
{
    if fields.len() == 0 {
        Seq::empty()
    } else {
        let rest = main_fields_spec(j, fields.drop_first());
        match doc_get(j, fields[0]) {
            Some(JsonView::Str(s)) => seq![s] + rest,
            _ => rest,
        }
    }
}

fn main_fields_from(j: &JsonValue, fields: &Vec<String>, i: usize) -> (r: Vec<String>)
    requires
        0 <= i <= fields@.len(),
    ensures
        r.deep_view() == main_fields_spec(jv_sem(*j), fields.deep_view().skip(i as int)),
    decreases fields@.len() - i,
{
    let ghost fv = fields.deep_view();
    if i == fields.len() {
        let r: Vec<String> = Vec::new();
        proof {
            assert(fv.skip(i as int).len() == 0);
            assert(r.deep_view() =~= Seq::<Seq<char>>::empty());
        }
        return r;
    }
    proof {
        assert(fv.skip(i as int)[0] == fv[i as int]);
        assert(fv.skip(i as int).drop_first() =~= fv.skip(i as int + 1));
    }
    let mut rest = main_fields_from(j, fields, i + 1);
    let ghost restv = rest.deep_view();
    match doc_get_exec(j, fields[i].as_str()) {
        Some(v) => match v {
            JsonValue::Str(s) => {
                proof {
                    assert(jv_sem(*v) == JsonView::Str(s@));
                }
                rest.insert(0, s.clone());
                proof {
                    assert(rest.deep_view() =~= seq![s@] + restv);
                }
                rest
            },
            _ => {
                proof {
                    assert(!(jv_sem(*v) is Str));
                }
                rest
            },
        },
        None => rest,
    }
}

/// The alias entries one alias-field object contributes, in order: `false`
/// ignores, a string redirects, the unsupported boolean `true` makes the
/// manifest malformed (`None`), any other shape is skipped.
pub open spec fn alias_entries_spec(entries: Seq<(Seq<char>, JsonView)>) -> Option<
    Seq<(Seq<char>, AliasV)>,
>
    decreases entries,
{
    if entries.len() == 0 {
        Some(Seq::empty())
    } else {
        let rest = alias_entries_spec(entries.drop_first());
        match entries[0].1 {
            JsonView::Bool(b) => if b {
                None
            } else {
                match rest {
                    Some(r) => Some(seq![(entries[0].0, AliasV::Ignored)] + r),
                    None => None,
                }
            },
            JsonView::Str(s) => match rest {
                Some(r) => Some(seq![(entries[0].0, AliasV::Target(s))] + r),
                None => None,
            },
            _ => rest,
        }
    }
}

fn alias_entries_from(e: &Vec<(String, JsonValue)>, i: usize) -> (r: Option<
    Vec<(String, AliasMap)>,
>)
    requires
        0 <= i <= e@.len(),
    ensures
        match r {
            Some(v) => alias_entries_spec(obj_sem(e@).skip(i as int)) == Some(alias_sem(v@)),
            None => alias_entries_spec(obj_sem(e@).skip(i as int)) is None,
        },
    decreases e@.len() - i,
{
    proof {
        lemma_obj_sem_len(e@);
    }
    let ghost m = obj_sem(e@);
    if i == e.len() {
        let r: Vec<(String, AliasMap)> = Vec::new();
        proof {
            assert(m.skip(i as int).len() == 0);
            assert(alias_sem(r@) =~= Seq::<(Seq<char>, AliasV)>::empty());
        }
        return Some(r);
    }
    proof {
        assert(m.skip(i as int)[0] == m[i as int]);
        assert(m.skip(i as int).drop_first() =~= m.skip(i as int + 1));
    }
    let add: Option<AliasMap> = match &e[i].1 {
        JsonValue::Bool(b) => {
            if *b {
                return None;
            }
            Some(AliasMap::Ignored)
        },
        JsonValue::Str(s) => Some(AliasMap::Target(s.clone())),
        _ => None,
    };
    let rest = alias_entries_from(e, i + 1);
    match rest {
        Some(mut v) => match add {
            Some(a) => {
                let ghost beforev = v@;
                let key = e[i].0.clone();
                v.insert(0, (key, a));
                proof {
                    assert(v@.drop_first() =~= beforev);
                    assert(alias_sem(v@) =~= seq![(v@[0].0@, alias_map_sem(v@[0].1))]
                        + alias_sem(beforev));
                }
                Some(v)
            },
            None => Some(v),
        },
        None => None,
    }
}

/// The concatenated alias entries of all configured alias fields, in
/// configured order; `None` when any holds the unsupported `true`.
pub open spec fn alias_fields_spec(j: JsonView, fields: Seq<Seq<char>>) -> Option<
    Seq<(Seq<char>, AliasV)>,
>
    decreases fields.len(),
{
    if fields.len() == 0 {
        Some(Seq::empty())
    } else {
        let rest = alias_fields_spec(j, fields.drop_first());
        let head = match doc_get(j, fields[0]) {
            Some(JsonView::Obj(entries)) => alias_entries_spec(entries),
            _ => Some(Seq::empty()),
        };
        match (head, rest) {
            (Some(h), Some(r)) => Some(h + r),
            _ => None,
        }
    }
}

fn alias_fields_from(j: &JsonValue, fields: &Vec<String>, i: usize) -> (r: Option<
    Vec<(String, AliasMap)>,
>)
    requires
        0 <= i <= fields@.len(),
    ensures
        match r {
            Some(v) => alias_fields_spec(jv_sem(*j), fields.deep_view().skip(i as int)) == Some(
                alias_sem(v@),
            ),
            None => alias_fields_spec(jv_sem(*j), fields.deep_view().skip(i as int)) is None,
        },
    decreases fields@.len() - i,
{
    let ghost fv = fields.deep_view();
    if i == fields.len() {
        let r: Vec<(String, AliasMap)> = Vec::new();
        proof {
            assert(fv.skip(i as int).len() == 0);
            assert(alias_sem(r@) =~= Seq::<(Seq<char>, AliasV)>::empty());
        }
        return Some(r);
    }
    proof {
        assert(fv.skip(i as int)[0] == fv[i as int]);
        assert(fv.skip(i as int).drop_first() =~= fv.skip(i as int + 1));
    }
    let head: Option<Vec<(String, AliasMap)>> = match doc_get_exec(j, fields[i].as_str()) {
        Some(v) => match v {
            JsonValue::Obj(entries) => {
                proof {
                    assert(jv_sem(*v) == JsonView::Obj(obj_sem(entries@)));
                    assert(obj_sem(entries@).skip(0) =~= obj_sem(entries@));
                }
                alias_entries_from(entries, 0)
            },
            _ => {
                proof {
                    assert(!(jv_sem(*v) is Obj));
                }
                let r: Vec<(String, AliasMap)> = Vec::new();
                proof {
                    assert(alias_sem(r@) =~= Seq::<(Seq<char>, AliasV)>::empty());
                }
                Some(r)
            },
        },
        None => {
            let r: Vec<(String, AliasMap)> = Vec::new();
            proof {
                assert(alias_sem(r@) =~= Seq::<(Seq<char>, AliasV)>::empty());
            }
            Some(r)
        },
    };
    match head {
        Some(mut h) => match alias_fields_from(j, fields, i + 1) {
            Some(rest) => {
                let ghost hv = h@;
                let ghost rv = rest@;
                let n = rest.len();
                let mut k: usize = 0;
                let mut rest = rest;
                while k < n
                    invariant
                        0 <= k <= n,
                        n == rv.len(),
                        rest@ == rv,
                        h@ == hv + rv.subrange(0, k as int),
                    decreases n - k,
                {
                    let item_key = rest[k].0.clone();
                    let item_val = match &rest[k].1 {
                        AliasMap::Ignored => AliasMap::Ignored,
                        AliasMap::Target(s) => AliasMap::Target(s.clone()),
                    };
                    h.push((item_key, item_val));
                    proof {
                        assert(h@ =~= hv + rv.subrange(0, k as int + 1));
                    }
                    k += 1;
                }
                proof {
                    assert(rv.subrange(0, n as int) =~= rv);
                    assert(h@ =~= hv + rv);
                    lemma_alias_sem_concat(hv, rv);
                }
                Some(h)
            },
            None => None,
        },
        None => None,
    }
}

proof fn lemma_alias_sem_concat(a: Seq<(String, AliasMap)>, b: Seq<(String, AliasMap)>)
    ensures
        alias_sem(a + b) == alias_sem(a) + alias_sem(b),
    decreases a,
{
    if a.len() == 0 {
        assert(a + b =~= b);
        assert(alias_sem(a + b) =~= alias_sem(a) + alias_sem(b));
    } else {
        assert((a + b).drop_first() =~= a.drop_first() + b);
        lemma_alias_sem_concat(a.drop_first(), b);
        assert(alias_sem(a + b) =~= alias_sem(a) + alias_sem(b));
    }
}

/// The path tree under top-level key `k`: absent is fine, a present value
/// that builds no tree is malformed.
pub open spec fn tree_field_spec(j: JsonView, k: Seq<char>) -> Result<Option<TreeV>, ()> {
    match doc_get(j, k) {
        None => Ok(None),
        Some(v) => match build_spec(v) {
            Some(t) => Ok(Some(t)),
            None => Err(()),
        },
    }
}

/// The manifest's `name`, when present as a string.
pub open spec fn name_spec(j: JsonView) -> Option<Seq<char>> {
    match doc_get(j, name_key()) {
        Some(JsonView::Str(s)) => Some(s),
        _ => None,
    }
}

/// The manifest's `sideEffects`, when present as a boolean.
pub open spec fn side_effects_spec(j: JsonView) -> Option<bool> {
    match doc_get(j, side_effects_key()) {
        Some(JsonView::Bool(b)) => Some(b),
        _ => None,
    }
}

/// What the document `j`, governing `dir`, parses into under options `o`.
pub open spec fn parse_manifest_spec(j: JsonView, o: OptionsV, dir: PathV) -> Result<
    PkgInfoV,
    ResolveError,
> {
    match alias_fields_spec(j, o.alias_fields) {
        None => Err(ResolveError::ManifestMalformed),
        Some(aliases) => match tree_field_spec(j, exports_key()) {
            Err(_) => Err(ResolveError::ExportsTreeMalformed),
            Ok(exports) => match tree_field_spec(j, imports_key()) {
                Err(_) => Err(ResolveError::ImportsTreeMalformed),
                Ok(imports) => Ok(
                    PkgInfoV {
                        abs_dir_path: dir,
                        name: name_spec(j),
                        main_fields: main_fields_spec(j, o.main_fields),
                        alias_fields: aliases,
                        exports_field_tree: exports,
                        imports_field_tree: imports,
                        side_effects: side_effects_spec(j),
                    },
                ),
            },
        },
    }
}

/// What parsing the manifest file `dir/fname` out of the snapshot gives:
/// unreadable when no file sits there, malformed when its text is rejected,
/// else the parse of its document.
pub open spec fn parse_at_spec(fs: FsV, o: OptionsV, dir: PathV, fname: Seq<char>) -> Result<
    PkgInfoV,
    ResolveError,
> {
    if !fs_is_file(fs, dir.push(fname)) {
        Err(ResolveError::ManifestUnreadable)
    } else {
        match json_of(fs_content(fs, dir.push(fname))) {
            None => Err(ResolveError::ManifestMalformed),
            Some(j) => parse_manifest_spec(j, o, dir),
        }
    }
}

impl Resolver {
    /// Opens and parses the manifest `path/description_file_name`.
    fn parse_description_file(
        &self,
        fs: &FileSystem,
        path: &Vec<String>,
        description_file_name: &String,
    ) -> (r: Result<PkgFileInfo, ResolveError>)
        requires
            fs.wf(),
        ensures
            match r {
                Ok(p) => parse_at_spec(
                    fs.sem(),
                    self.options.sem(),
                    path.deep_view(),
                    description_file_name@,
                ) == Ok::<PkgInfoV, ResolveError>(pkg_sem(p)),
                Err(e) => parse_at_spec(
                    fs.sem(),
                    self.options.sem(),
                    path.deep_view(),
                    description_file_name@,
                ) == Err::<PkgInfoV, ResolveError>(e),
            },
    {
        let ghost o = self.options.sem();
        let mut location = path_clone(path);
        location.push(description_file_name.clone());
        proof {
            assert(location.deep_view() =~= path.deep_view().push(description_file_name@));
        }
        let content: &String = match fs.lookup(&location) {
            Some(n) => match n {
                FsNode::File(c) => c,
                _ => {
                    return Err(ResolveError::ManifestUnreadable);
                },
            },
            None => {
                return Err(ResolveError::ManifestUnreadable);
            },
        };
        let doc = match parse_json(content.as_str()) {
            Some(doc) => doc,
            None => {
                return Err(ResolveError::ManifestMalformed);
            },
        };
        let ghost j = jv_sem(doc);
        proof {
            reveal_strlit("exports");
            reveal_strlit("imports");
            reveal_strlit("name");
            reveal_strlit("sideEffects");
            assert("exports"@ =~= exports_key());
            assert("imports"@ =~= imports_key());
            assert("name"@ =~= name_key());
            assert("sideEffects"@ =~= side_effects_key());
            assert(self.options.main_fields.deep_view().skip(0)
                =~= self.options.main_fields.deep_view());
            assert(self.options.alias_fields.deep_view().skip(0)
                =~= self.options.alias_fields.deep_view());
        }
        let main_fields = main_fields_from(&doc, &self.options.main_fields, 0);
        let alias_fields = match alias_fields_from(&doc, &self.options.alias_fields, 0) {
            Some(a) => a,
            None => {
                return Err(ResolveError::ManifestMalformed);
            },
        };
        let exports_field_tree = match doc_get_exec(&doc, "exports") {
            Some(v) => match build_tree(v) {
                Some(t) => Some(t),
                None => {
                    return Err(ResolveError::ExportsTreeMalformed);
                },
            },
            None => None,
        };
        let imports_field_tree = match doc_get_exec(&doc, "imports") {
            Some(v) => match build_tree(v) {
                Some(t) => Some(t),
                None => {
                    return Err(ResolveError::ImportsTreeMalformed);
                },
            },
            None => None,
        };
        let name = match doc_get_exec(&doc, "name") {
            Some(v) => match v {
                JsonValue::Str(s) => Some(s.clone()),
                _ => None,
            },
            None => None,
        };
        let side_effects = match doc_get_exec(&doc, "sideEffects") {
            Some(v) => match v {
                JsonValue::Bool(b) => Some(*b),
                _ => None,
            },
            None => None,
        };
        let info = PkgFileInfo {
            abs_dir_path: path_clone(path),
            name,
            main_fields,
            alias_fields,
            exports_field_tree,
            imports_field_tree,
            side_effects,
        };
        Ok(info)
    }

    /// The nearest directory at or above `now_dir` holding the manifest
    /// file, walking parent by parent.
    pub fn find_description_file_dir(
        fs: &FileSystem,
        now_dir: &Vec<String>,
        description_file_name: &String,
    ) -> (r: Option<Vec<String>>)
        requires
            fs.wf(),
        ensures
            match r {
                Some(d) => find_dir_spec(fs.sem(), description_file_name@, now_dir.deep_view())
                    == Some(d.deep_view()),
                None => find_dir_spec(fs.sem(), description_file_name@, now_dir.deep_view())
                    is None,
            },
        decreases now_dir@.len(),
    {
        let mut description_path = path_clone(now_dir);
        description_path.push(description_file_name.clone());
        proof {
            assert(description_path.deep_view() =~= now_dir.deep_view().push(
                description_file_name@,
            ));
        }
        if fs.is_file(&description_path) {
            Some(path_clone(now_dir))
        } else if now_dir.len() == 0 {
            None
        } else {
            let mut parent = path_clone(now_dir);
            parent.pop();
            proof {
                assert(parent.deep_view() =~= now_dir.deep_view().drop_last());
            }
            Self::find_description_file_dir(fs, &parent, description_file_name)
        }
    }
}

/// The directory whose manifest governs `dir`: the nearest ancestor (or
/// `dir` itself) where the manifest file exists.
pub open spec fn find_dir_spec(fs: FsV, fname: Seq<char>, dir: PathV) -> Option<PathV>
    decreases dir.len(),
{
    if fs_is_file(fs, dir.push(fname)) {
        Some(dir)
    } else if dir.len() == 0 {
        None
    } else {
        find_dir_spec(fs, fname, dir.drop_last())
    }
}

/// What manifest governs `dir`, as a pure function of the snapshot and the
/// options: `Ok(None)` when manifests are disabled or none is found.
pub open spec fn load_spec(fs: FsV, o: OptionsV, dir: PathV) -> Result<
    Option<PkgInfoV>,
    ResolveError,
> {
    match o.description_file {
        None => Ok(None),
        Some(fname) => match find_dir_spec(fs, fname, dir) {
            None => Ok(None),
            Some(md) => match parse_at_spec(fs, o, md, fname) {
                Ok(p) => Ok(Some(p)),
                Err(e) => Err(e),
            },
        },
    }
}

/// The prefix lemma behind backfill: every directory between the found
/// manifest directory and the queried one discovers the same manifest.
pub proof fn lemma_find_result(fs: FsV, fname: Seq<char>, dir: PathV)
    ensures
        match find_dir_spec(fs, fname, dir) {
            Some(td) => td.is_prefix_of(dir) && fs_is_file(fs, td.push(fname)),
            None => true,
        },
    decreases dir.len(),
{
    if fs_is_file(fs, dir.push(fname)) {
        assert(dir =~= dir.subrange(0, dir.len() as int));
    } else if dir.len() > 0 {
        lemma_find_result(fs, fname, dir.drop_last());
        if find_dir_spec(fs, fname, dir) is Some {
            let td = find_dir_spec(fs, fname, dir)->Some_0;
            assert(td =~= dir.subrange(0, td.len() as int));
        }
    }
}

pub proof fn lemma_find_prefix_found(fs: FsV, fname: Seq<char>, dir: PathV, q: PathV)
    requires
        find_dir_spec(fs, fname, dir) is Some,
        find_dir_spec(fs, fname, dir)->Some_0.is_prefix_of(q),
        q.is_prefix_of(dir),
    ensures
        find_dir_spec(fs, fname, q) == find_dir_spec(fs, fname, dir),
    decreases dir.len(),
{
    let td = find_dir_spec(fs, fname, dir)->Some_0;
    if q.len() == dir.len() {
        assert(q =~= dir);
    } else {
        if fs_is_file(fs, dir.push(fname)) {
            assert(td == dir);
            assert(td.len() <= q.len() < dir.len());
            assert(false);
        }
        assert(q.is_prefix_of(dir.drop_last())) by {
            assert(q =~= dir.drop_last().subrange(0, q.len() as int));
        }
        lemma_find_prefix_found(fs, fname, dir.drop_last(), q);
    }
}

pub proof fn lemma_find_prefix_none(fs: FsV, fname: Seq<char>, dir: PathV, q: PathV)
    requires
        find_dir_spec(fs, fname, dir) is None,
        q.is_prefix_of(dir),
    ensures
        find_dir_spec(fs, fname, q) is None,
    decreases dir.len(),
{
    if q.len() == dir.len() {
        assert(q =~= dir);
    } else {
        assert(q.is_prefix_of(dir.drop_last())) by {
            assert(q =~= dir.drop_last().subrange(0, q.len() as int));
        }
        lemma_find_prefix_none(fs, fname, dir.drop_last(), q);
    }
}

/// One cache entry is consistent with what discovery would compute anew.
pub open spec fn cache_entry_ok(
    fs: FsV,
    o: OptionsV,
    arena: Seq<PkgFileInfo>,
    key: PathV,
    v: Option<usize>,
) -> bool {
    match v {
        None => load_spec(fs, o, key) == Ok::<Option<PkgInfoV>, ResolveError>(None),
        Some(ix) => ix < arena.len() && load_spec(fs, o, key) == Ok::<
            Option<PkgInfoV>,
            ResolveError,
        >(Some(pkg_sem(arena[ix as int]))),
    }
}

/// Every cache entry is consistent with the snapshot and the options.
pub open spec fn cache_wf(c: ManifestCache, fs: FsV, o: OptionsV) -> bool {
    forall|i: int|
        0 <= i < c.dirs@.len() ==> cache_entry_ok(
            fs,
            o,
            c.arena@,
            #[trigger] c.dirs@[i].0.deep_view(),
            c.dirs@[i].1,
        )
}

/// Whether the cache holds an entry for directory `p`.
pub open spec fn cache_covers(c: ManifestCache, p: PathV) -> bool {
    exists|i: int| 0 <= i < c.dirs@.len() && #[trigger] c.dirs@[i].0.deep_view() == p
}

/// The length of the deepest directory the backfill reaches: the found
/// manifest directory, or the root when none is found, or below the root
/// when manifests are disabled.
pub open spec fn backfill_floor(fs: FsV, o: OptionsV, dir: PathV) -> nat {
    match o.description_file {
        Some(fname) => match find_dir_spec(fs, fname, dir) {
            Some(td) => td.len(),
            None => 0,
        },
        None => dir.len() + 1,
    }
}

impl Resolver {
    /// The manifest governing `path`, through the cache: `Ok(None)` when
    /// manifests are disabled or none is found, else an index into the
    /// arena.  On a miss every directory between `path` and the discovered
    /// directory (or the root) is backfilled, so later queries under the
    /// same package root are hits.  The result is a pure function of the
    /// snapshot and options: the cache switch only changes latency.
    pub fn load_pkg_file(&mut self, fs: &FileSystem, path: &Vec<String>) -> (r: Result<
        Option<usize>,
        ResolveError,
    >)
        requires
            fs.wf(),
            cache_wf(old(self).cache, fs.sem(), old(self).options.sem()),
        ensures
            final(self).options == old(self).options,
            cache_wf(final(self).cache, fs.sem(), final(self).options.sem()),
            old(self).cache.arena@.is_prefix_of(final(self).cache.arena@),
            match r {
                Ok(Some(ix)) => ix < final(self).cache.arena@.len() && load_spec(
                    fs.sem(),
                    old(self).options.sem(),
                    path.deep_view(),
                ) == Ok::<Option<PkgInfoV>, ResolveError>(
                    Some(pkg_sem(final(self).cache.arena@[ix as int])),
                ),
                Ok(None) => load_spec(fs.sem(), old(self).options.sem(), path.deep_view())
                    == Ok::<Option<PkgInfoV>, ResolveError>(None),
                Err(e) => load_spec(fs.sem(), old(self).options.sem(), path.deep_view())
                    == Err::<Option<PkgInfoV>, ResolveError>(e) && final(self).cache
                    == old(self).cache,
            },
            (old(self).options.cache_manifests && !cache_covers(
                old(self).cache,
                path.deep_view(),
            ) && !(r is Err)) ==> forall|q: PathV|
                q.is_prefix_of(path.deep_view()) && q.len() >= backfill_floor(
                    fs.sem(),
                    old(self).options.sem(),
                    path.deep_view(),
                ) ==> cache_covers(final(self).cache, q),
    {
        let ghost o = self.options.sem();
        let ghost fsv = fs.sem();
        let ghost pv = path.deep_view();
        let fname = match &self.options.description_file {
            None => {
                return Ok(None);
            },
            Some(f) => f.clone(),
        };
        if self.options.cache_manifests {
            let n = self.cache.dirs.len();
            let mut i: usize = 0;
            while i < n
                invariant
                    0 <= i <= n,
                    *self == *old(self),
                    n == self.cache.dirs@.len(),
                    cache_wf(self.cache, fsv, o),
                    o == self.options.sem(),
                    fsv == fs.sem(),
                    pv == path.deep_view(),
                    forall|j: int| 0 <= j < i ==> self.cache.dirs@[j].0.deep_view() != pv,
                decreases n - i,
            {
                if path_eq(&self.cache.dirs[i].0, path) {
                    let v = self.cache.dirs[i].1;
                    proof {
                        assert(cache_entry_ok(fsv, o, self.cache.arena@, pv, v));
                        assert(self.cache.arena@.is_prefix_of(self.cache.arena@)) by {
                            assert(self.cache.arena@.subrange(
                                0,
                                self.cache.arena@.len() as int,
                            ) =~= self.cache.arena@);
                        }
                    }
                    return Ok(v);
                }
                i += 1;
            }
        }
        let found = Self::find_description_file_dir(fs, path, &fname);
        proof {
            lemma_find_result(fsv, fname@, pv);
        }
        let ghost floor_g = backfill_floor(fsv, o, pv);
        let mut val: Option<usize> = None;
        let mut floor: usize = 0;
        match found {
            Some(target_dir) => {
                let parsed = match self.parse_description_file(fs, &target_dir, &fname) {
                    Ok(p) => p,
                    Err(e) => {
                        return Err(e);
                    },
                };
                let ghost arena_before = self.cache.arena@;
                let ix = self.cache.arena.len();
                self.cache.arena.push(parsed);
                proof {
                    assert(self.cache.arena@.subrange(0, arena_before.len() as int)
                        =~= arena_before);
                    assert(cache_wf(self.cache, fsv, o));
                }
                val = Some(ix);
                floor = target_dir.len();
            },
            None => {
                proof {
                    assert(self.cache.arena@.subrange(0, self.cache.arena@.len() as int)
                        =~= self.cache.arena@);
                }
            },
        }
        proof {
            assert(floor as nat == floor_g);
        }
        if self.options.cache_manifests {
            let ghost cached = *self;
            let mut temp = path_clone(path);
            proof {
                assert(pv.subrange(0, pv.len() as int) =~= pv);
            }
            self.push_backfill_entry(fs, &temp, val, Ghost(pv), Ghost(floor_g));
            while temp.len() > floor
                invariant
                    fs.wf(),
                    fsv == fs.sem(),
                    o == self.options.sem(),
                    self.options == cached.options,
                    pv == path.deep_view(),
                    floor_g == backfill_floor(fsv, o, pv),
                    floor as nat == floor_g,
                    floor <= temp@.len() <= pv.len(),
                    temp.deep_view() =~= pv.subrange(0, temp@.len() as int),
                    self.cache.arena@ == cached.cache.arena@,
                    cache_wf(self.cache, fsv, o),
                    cache_entry_ok(fsv, o, self.cache.arena@, pv, val),
                    forall|q: PathV|
                        q.is_prefix_of(pv) && temp.deep_view().len() <= q.len() <= pv.len()
                            ==> cache_covers(self.cache, q),
                decreases temp@.len(),
            {
                temp.pop();
                proof {
                    assert(temp.deep_view() =~= pv.subrange(0, temp@.len() as int));
                }
                self.push_backfill_entry(fs, &temp, val, Ghost(pv), Ghost(floor_g));
            }
            proof {
                assert(forall|q: PathV|
                    q.is_prefix_of(pv) && floor_g <= q.len() ==> cache_covers(self.cache, q));
            }
        }
        match val {
            Some(ix) => Ok(Some(ix)),
            None => Ok(None),
        }
    }

    /// Writes one backfill entry for `temp`, a prefix of the queried
    /// directory no shallower than the discovered manifest directory.
    fn push_backfill_entry(
        &mut self,
        fs: &FileSystem,
        temp: &Vec<String>,
        val: Option<usize>,
        Ghost(pv): Ghost<PathV>,
        Ghost(floor_g): Ghost<nat>,
    )
        requires
            fs.wf(),
            cache_wf(old(self).cache, fs.sem(), old(self).options.sem()),
            cache_entry_ok(fs.sem(), old(self).options.sem(), old(self).cache.arena@, pv, val),
            temp.deep_view().is_prefix_of(pv),
            floor_g == backfill_floor(fs.sem(), old(self).options.sem(), pv),
            floor_g <= temp.deep_view().len(),
        ensures
            final(self).options == old(self).options,
            final(self).cache.arena@ == old(self).cache.arena@,
            final(self).cache.dirs@ == old(self).cache.dirs@.push(
                (final(self).cache.dirs@.last().0, val),
            ),
            final(self).cache.dirs@.last().0.deep_view() == temp.deep_view(),
            cache_wf(final(self).cache, fs.sem(), final(self).options.sem()),
            forall|q: PathV|
                cache_covers(old(self).cache, q) ==> cache_covers(final(self).cache, q),
            cache_covers(final(self).cache, temp.deep_view()),
    {
        let ghost fsv = fs.sem();
        let ghost o = self.options.sem();
        let ghost tv = temp.deep_view();
        proof {
            let fname = o.description_file->Some_0;
            if o.description_file is Some {
                match find_dir_spec(fsv, fname, pv) {
                    Some(td) => {
                        lemma_find_result(fsv, fname, pv);
                        assert(td.is_prefix_of(tv)) by {
                            assert(td =~= tv.subrange(0, td.len() as int));
                        }
                        lemma_find_prefix_found(fsv, fname, pv, tv);
                    },
                    None => {
                        lemma_find_prefix_none(fsv, fname, pv, tv);
                    },
                }
                assert(load_spec(fsv, o, tv) == load_spec(fsv, o, pv));
            }
            assert(cache_entry_ok(fsv, o, self.cache.arena@, tv, val));
        }
        let key = path_clone(temp);
        self.cache.dirs.push((key, val));
        proof {
            assert(self.cache.dirs@.drop_last() =~= old(self).cache.dirs@);
            assert(cache_wf(self.cache, fsv, o)) by {
                assert(forall|i: int|
                    0 <= i < old(self).cache.dirs@.len() ==> self.cache.dirs@[i]
                        == old(self).cache.dirs@[i]);
            }
            assert(cache_covers(self.cache, tv)) by {
                assert(self.cache.dirs@[self.cache.dirs@.len() - 1].0.deep_view() == tv);
            }
            assert(forall|q: PathV|
                cache_covers(old(self).cache, q) ==> cache_covers(self.cache, q)) by {
                assert(forall|i: int|
                    0 <= i < old(self).cache.dirs@.len() ==> self.cache.dirs@[i]
                        == old(self).cache.dirs@[i]);
            }
        }
    }
}

} // verus!

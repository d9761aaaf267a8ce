use nodejs_resolver::description::AliasMap;
use nodejs_resolver::fsmodel::{FileSystem, FsNode};
use nodejs_resolver::json::{parse_json, JsonValue};
use nodejs_resolver::outcome::ResolveError;
use nodejs_resolver::paths::path_of_exec;
use nodejs_resolver::resolver::{Resolver, ResolverOptions};
use nodejs_resolver::tree::{build_tree, tree_lookup};

fn segs(s: &str) -> Vec<String> {
    path_of_exec(s)
}

fn base_options() -> ResolverOptions {
    ResolverOptions {
        extensions: vec!["js".to_string()],
        enforce_extension: false,
        main_fields: vec!["main".to_string()],
        alias_fields: vec!["browser".to_string()],
        description_file: Some("package.json".to_string()),
        modules_dir: "node_modules".to_string(),
        symlinks: true,
        condition_names: vec!["import".to_string()],
        cache_manifests: true,
    }
}

#[test]
fn parse_json_accepts_document_and_rejects_garbage() {
    assert!(parse_json(r#"{"a": 1}"#).is_some());
    assert!(parse_json("not json at all").is_none());
}

#[test]
fn parsed_object_keeps_document_order() {
    // With a sorted map the two manifests below would behave identically;
    // document order must decide which condition is seen first.
    let conds = vec!["import".to_string()];
    let root1 = build_tree(&parse_json(r#"{".": {"default": "./d.js", "import": "./i.js"}}"#).unwrap()).unwrap();
    let root2 = build_tree(&parse_json(r#"{".": {"import": "./i.js", "default": "./d.js"}}"#).unwrap()).unwrap();
    assert_eq!(tree_lookup(&root1, ".", &conds), Some("./d.js".to_string()));
    assert_eq!(tree_lookup(&root2, ".", &conds), Some("./i.js".to_string()));
}

#[test]
fn tree_lookup_wildcard_substitutes() {
    let doc = parse_json(r#"{"./feature/*": "./lib/*.js"}"#).unwrap();
    let tree = build_tree(&doc).unwrap();
    let conds: Vec<String> = Vec::new();
    assert_eq!(tree_lookup(&tree, "./feature/x", &conds), Some("./lib/x.js".to_string()));
    assert_eq!(tree_lookup(&tree, "./other", &conds), None);
}

#[test]
fn tree_lookup_list_takes_first_resolving_entry() {
    let doc = parse_json(r#"{".": [null, "./a.js", "./b.js"]}"#).unwrap();
    let tree = build_tree(&doc).unwrap();
    let conds: Vec<String> = Vec::new();
    assert_eq!(tree_lookup(&tree, ".", &conds), Some("./a.js".to_string()));
}

#[test]
fn build_tree_rejects_numbers_and_booleans() {
    assert!(build_tree(&parse_json("42").unwrap()).is_none());
    assert!(build_tree(&parse_json("true").unwrap()).is_none());
    assert!(matches!(parse_json("null").unwrap(), JsonValue::Null));
}

#[test]
fn load_backfills_intermediate_directories() {
    let mut fs = FileSystem::new();
    fs.put(segs("/a"), FsNode::Dir);
    fs.put(segs("/a/b"), FsNode::Dir);
    fs.put(segs("/a/b/c"), FsNode::Dir);
    fs.put(segs("/a/package.json"), FsNode::File(r#"{"name": "a"}"#.to_string()));
    let mut r = Resolver::new(base_options());
    let got = r.load_pkg_file(&fs, &segs("/a/b/c"));
    let ix = got.unwrap().unwrap();
    assert_eq!(r.cache.arena[ix].name, Some("a".to_string()));
    // /a/b/c, /a/b and /a must all be cached entries now.
    for p in ["/a/b/c", "/a/b", "/a"] {
        let key = segs(p);
        assert!(
            r.cache.dirs.iter().any(|(d, v)| *d == key && *v == Some(ix)),
            "no cache entry for {}",
            p
        );
    }
}

#[test]
fn load_caches_absence_up_to_root() {
    let mut fs = FileSystem::new();
    fs.put(segs("/x"), FsNode::Dir);
    fs.put(segs("/x/y"), FsNode::Dir);
    let mut r = Resolver::new(base_options());
    let got = r.load_pkg_file(&fs, &segs("/x/y"));
    assert!(got.unwrap().is_none());
    for p in ["/x/y", "/x", "/"] {
        let key = segs(p);
        assert!(r.cache.dirs.iter().any(|(d, v)| *d == key && v.is_none()));
    }
}

#[test]
fn malformed_manifest_text_stops_resolution() {
    let mut fs = FileSystem::new();
    fs.put(segs("/proj"), FsNode::Dir);
    fs.put(segs("/proj/lib"), FsNode::Dir);
    fs.put(segs("/proj/lib/package.json"), FsNode::File("{ nope".to_string()));
    let mut r = Resolver::new(base_options());
    let got = r.resolve(&fs, "/proj", "./lib");
    assert!(matches!(
        got,
        nodejs_resolver::outcome::ResolverStats::Error(ResolveError::ManifestMalformed, _)
    ));
}

#[test]
fn alias_true_is_malformed_manifest() {
    let mut fs = FileSystem::new();
    fs.put(segs("/proj"), FsNode::Dir);
    fs.put(
        segs("/proj/package.json"),
        FsNode::File(r#"{"browser": {"fs": true}}"#.to_string()),
    );
    let mut r = Resolver::new(base_options());
    let got = r.resolve(&fs, "/proj", "anything");
    assert!(matches!(
        got,
        nodejs_resolver::outcome::ResolverStats::Error(ResolveError::ManifestMalformed, _)
    ));
}

#[test]
fn malformed_exports_value_is_reported() {
    let mut fs = FileSystem::new();
    fs.put(segs("/a"), FsNode::Dir);
    fs.put(segs("/a/node_modules"), FsNode::Dir);
    fs.put(segs("/a/node_modules/pkg"), FsNode::Dir);
    fs.put(
        segs("/a/node_modules/pkg/package.json"),
        FsNode::File(r#"{"exports": 42}"#.to_string()),
    );
    let mut r = Resolver::new(base_options());
    let got = r.resolve(&fs, "/a", "pkg");
    assert!(matches!(
        got,
        nodejs_resolver::outcome::ResolverStats::Error(ResolveError::ExportsTreeMalformed, _)
    ));
}

#[test]
fn malformed_imports_value_is_reported() {
    let mut fs = FileSystem::new();
    fs.put(segs("/a"), FsNode::Dir);
    fs.put(segs("/a/node_modules"), FsNode::Dir);
    fs.put(segs("/a/node_modules/pkg"), FsNode::Dir);
    fs.put(
        segs("/a/node_modules/pkg/package.json"),
        FsNode::File(r#"{"imports": true}"#.to_string()),
    );
    let mut r = Resolver::new(base_options());
    let got = r.resolve(&fs, "/a", "pkg");
    assert!(matches!(
        got,
        nodejs_resolver::outcome::ResolverStats::Error(ResolveError::ImportsTreeMalformed, _)
    ));
}

#[test]
fn later_alias_field_entries_override_earlier() {
    let mut fs = FileSystem::new();
    fs.put(segs("/proj"), FsNode::Dir);
    fs.put(
        segs("/proj/package.json"),
        FsNode::File(r#"{"browser": {"x": "./one.js", "x": "./two.js"}}"#.to_string()),
    );
    fs.put(segs("/proj/two.js"), FsNode::File(String::new()));
    let mut r = Resolver::new(base_options());
    let ix = r.load_pkg_file(&fs, &segs("/proj")).unwrap().unwrap();
    let aliases = &r.cache.arena[ix].alias_fields;
    // serde_json keeps the last duplicate; the alias table holds one entry.
    assert_eq!(aliases.len(), 1);
    match &aliases[0].1 {
        AliasMap::Target(t) => assert_eq!(t, "./two.js"),
        AliasMap::Ignored => panic!("expected a redirect"),
    }
}

#[test]
fn disabled_description_file_loads_nothing() {
    let mut fs = FileSystem::new();
    fs.put(segs("/proj"), FsNode::Dir);
    fs.put(segs("/proj/package.json"), FsNode::File(r#"{"main": "m.js"}"#.to_string()));
    let mut o = base_options();
    o.description_file = None;
    let mut r = Resolver::new(o);
    let got = r.load_pkg_file(&fs, &segs("/proj"));
    assert!(got.unwrap().is_none());
}

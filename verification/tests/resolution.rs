use nodejs_resolver::fsmodel::{FileSystem, FsNode};
use nodejs_resolver::outcome::{ResolveError, ResolverResult, ResolverStats};
use nodejs_resolver::paths::path_of_exec;
use nodejs_resolver::resolver::{Resolver, ResolverOptions};

fn segs(s: &str) -> Vec<String> {
    path_of_exec(s)
}

fn opts() -> ResolverOptions {
    ResolverOptions {
        extensions: vec!["ts".to_string(), "js".to_string()],
        enforce_extension: false,
        main_fields: vec!["main".to_string()],
        alias_fields: vec!["browser".to_string()],
        description_file: Some("package.json".to_string()),
        modules_dir: "node_modules".to_string(),
        symlinks: true,
        condition_names: vec!["import".to_string()],
        cache_manifests: true,
    }
}

fn dir(fs: &mut FileSystem, p: &str) {
    fs.put(segs(p), FsNode::Dir);
}

fn file(fs: &mut FileSystem, p: &str) {
    fs.put(segs(p), FsNode::File(String::new()));
}

fn manifest(fs: &mut FileSystem, p: &str, text: &str) {
    fs.put(segs(p), FsNode::File(text.to_string()));
}

fn expect_path(r: ResolverStats, want: &str) {
    match r {
        ResolverStats::Success(ResolverResult::Info(i)) => {
            assert_eq!(i.path, segs(want));
            assert_eq!(i.target, String::new());
        },
        ResolverStats::Success(ResolverResult::Ignored) => panic!("ignored, wanted {}", want),
        ResolverStats::Resolving(_) => panic!("unresolved, wanted {}", want),
        ResolverStats::Error(e, _) => panic!("error {:?}, wanted {}", e, want),
    }
}

fn expect_error(r: ResolverStats, want: ResolveError) {
    match r {
        ResolverStats::Error(e, _) => assert_eq!(e, want),
        _ => panic!("expected error {:?}", want),
    }
}

#[test]
fn resolves_literal_relative_file() {
    let mut fs = FileSystem::new();
    dir(&mut fs, "/proj");
    file(&mut fs, "/proj/foo.ts");
    let mut r = Resolver::new(opts());
    let got = r.resolve(&fs, "/proj", "./foo.ts");
    expect_path(got, "/proj/foo.ts");
}

#[test]
fn extension_precedence_prefers_first_configured() {
    let mut fs = FileSystem::new();
    dir(&mut fs, "/proj");
    file(&mut fs, "/proj/foo.ts");
    file(&mut fs, "/proj/foo.js");
    let mut r = Resolver::new(opts());
    let got = r.resolve(&fs, "/proj", "./foo");
    expect_path(got, "/proj/foo.ts");
}

#[test]
fn falls_back_to_second_extension() {
    let mut fs = FileSystem::new();
    dir(&mut fs, "/proj");
    file(&mut fs, "/proj/foo.js");
    let mut r = Resolver::new(opts());
    let got = r.resolve(&fs, "/proj", "./foo");
    expect_path(got, "/proj/foo.js");
}

#[test]
fn resolves_absolute_request() {
    let mut fs = FileSystem::new();
    dir(&mut fs, "/data");
    file(&mut fs, "/data/x.js");
    let mut r = Resolver::new(opts());
    let got = r.resolve(&fs, "/proj", "/data/x.js");
    expect_path(got, "/data/x.js");
}

#[test]
fn resolves_directory_through_main_field() {
    let mut fs = FileSystem::new();
    dir(&mut fs, "/proj");
    dir(&mut fs, "/proj/lib");
    manifest(&mut fs, "/proj/lib/package.json", r#"{"main": "entry.js"}"#);
    file(&mut fs, "/proj/lib/entry.js");
    let mut r = Resolver::new(opts());
    let got = r.resolve(&fs, "/proj", "./lib");
    expect_path(got, "/proj/lib/entry.js");
}

#[test]
fn non_string_main_field_is_skipped() {
    let mut fs = FileSystem::new();
    dir(&mut fs, "/proj");
    dir(&mut fs, "/proj/lib");
    manifest(&mut fs, "/proj/lib/package.json", r#"{"main": ["entry.js"]}"#);
    file(&mut fs, "/proj/lib/index.js");
    let mut r = Resolver::new(opts());
    let got = r.resolve(&fs, "/proj", "./lib");
    expect_path(got, "/proj/lib/index.js");
}

#[test]
fn resolves_directory_through_index_file() {
    let mut fs = FileSystem::new();
    dir(&mut fs, "/proj");
    dir(&mut fs, "/proj/lib");
    file(&mut fs, "/proj/lib/index.ts");
    let mut r = Resolver::new(opts());
    let got = r.resolve(&fs, "/proj", "./lib");
    expect_path(got, "/proj/lib/index.ts");
}

#[test]
fn resolves_package_from_modules_directory() {
    let mut fs = FileSystem::new();
    dir(&mut fs, "/proj");
    dir(&mut fs, "/proj/node_modules");
    dir(&mut fs, "/proj/node_modules/pkg");
    manifest(&mut fs, "/proj/node_modules/pkg/package.json", r#"{"main": "lib.js"}"#);
    file(&mut fs, "/proj/node_modules/pkg/lib.js");
    let mut r = Resolver::new(opts());
    let got = r.resolve(&fs, "/proj", "pkg");
    expect_path(got, "/proj/node_modules/pkg/lib.js");
}

#[test]
fn upward_search_backtracks_to_ancestor() {
    let mut fs = FileSystem::new();
    dir(&mut fs, "/proj");
    dir(&mut fs, "/proj/node_modules");
    dir(&mut fs, "/node_modules");
    dir(&mut fs, "/node_modules/pkg");
    manifest(&mut fs, "/node_modules/pkg/package.json", r#"{"main": "deep.js"}"#);
    file(&mut fs, "/node_modules/pkg/deep.js");
    let mut r = Resolver::new(opts());
    let got = r.resolve(&fs, "/proj", "pkg");
    expect_path(got, "/node_modules/pkg/deep.js");
}

#[test]
fn module_not_found_after_exhausting_ancestors() {
    let mut fs = FileSystem::new();
    dir(&mut fs, "/proj");
    let mut r = Resolver::new(opts());
    let got = r.resolve(&fs, "/proj", "missing");
    expect_error(got, ResolveError::ModuleNotFound);
}

#[test]
fn not_a_directory_error_from_dir_resolution() {
    let mut fs = FileSystem::new();
    dir(&mut fs, "/proj");
    let mut r = Resolver::new(opts());
    let got = r.resolve(&fs, "/proj", "./nope");
    expect_error(got, ResolveError::NotADirectory);
}

#[test]
fn exports_closure_restricts_unlisted_subpath() {
    let mut fs = FileSystem::new();
    dir(&mut fs, "/a");
    dir(&mut fs, "/a/node_modules");
    dir(&mut fs, "/a/node_modules/pkg");
    manifest(
        &mut fs,
        "/a/node_modules/pkg/package.json",
        r#"{"exports": {"./feature": "./lib/feature.js"}}"#,
    );
    file(&mut fs, "/a/node_modules/pkg/other.js");
    let mut r = Resolver::new(opts());
    let got = r.resolve(&fs, "/a", "pkg/other");
    expect_error(got, ResolveError::ExportsRestricted);
}

#[test]
fn exports_resolves_listed_subpath() {
    let mut fs = FileSystem::new();
    dir(&mut fs, "/a");
    dir(&mut fs, "/a/node_modules");
    dir(&mut fs, "/a/node_modules/pkg");
    manifest(
        &mut fs,
        "/a/node_modules/pkg/package.json",
        r#"{"exports": {"./feature": "./lib/feature.js"}}"#,
    );
    file(&mut fs, "/a/node_modules/pkg/lib/feature.js");
    let mut r = Resolver::new(opts());
    let got = r.resolve(&fs, "/a", "pkg/feature");
    expect_path(got, "/a/node_modules/pkg/lib/feature.js");
}

#[test]
fn wildcard_exports_substitutes_capture() {
    let mut fs = FileSystem::new();
    dir(&mut fs, "/a");
    dir(&mut fs, "/a/node_modules");
    dir(&mut fs, "/a/node_modules/pkg");
    manifest(
        &mut fs,
        "/a/node_modules/pkg/package.json",
        r#"{"exports": {"./feature/*": "./lib/*.js"}}"#,
    );
    file(&mut fs, "/a/node_modules/pkg/lib/x.js");
    let mut r = Resolver::new(opts());
    let got = r.resolve(&fs, "/a", "pkg/feature/x");
    expect_path(got, "/a/node_modules/pkg/lib/x.js");
}

#[test]
fn exports_root_condition_order_decides() {
    let mut fs = FileSystem::new();
    dir(&mut fs, "/a");
    dir(&mut fs, "/a/node_modules");
    dir(&mut fs, "/a/node_modules/pkg");
    manifest(
        &mut fs,
        "/a/node_modules/pkg/package.json",
        r#"{"exports": {".": {"import": "./esm.js", "require": "./cjs.js"}}}"#,
    );
    file(&mut fs, "/a/node_modules/pkg/esm.js");
    file(&mut fs, "/a/node_modules/pkg/cjs.js");
    let mut r = Resolver::new(opts());
    let got = r.resolve(&fs, "/a", "pkg");
    expect_path(got, "/a/node_modules/pkg/esm.js");
}

#[test]
fn exports_target_must_be_relative() {
    let mut fs = FileSystem::new();
    dir(&mut fs, "/a");
    dir(&mut fs, "/a/node_modules");
    dir(&mut fs, "/a/node_modules/pkg");
    manifest(
        &mut fs,
        "/a/node_modules/pkg/package.json",
        r#"{"exports": {"./feature": "lib.js"}}"#,
    );
    let mut r = Resolver::new(opts());
    let got = r.resolve(&fs, "/a", "pkg/feature");
    expect_error(got, ResolveError::ExportsTargetInvalid);
}

#[test]
fn alias_false_gives_ignored_terminal() {
    let mut fs = FileSystem::new();
    dir(&mut fs, "/proj");
    manifest(&mut fs, "/proj/package.json", r#"{"browser": {"fs": false}}"#);
    let mut r = Resolver::new(opts());
    let got = r.resolve(&fs, "/proj", "fs");
    assert!(matches!(got, ResolverStats::Success(ResolverResult::Ignored)));
}

#[test]
fn alias_string_redirects_request() {
    let mut fs = FileSystem::new();
    dir(&mut fs, "/proj");
    manifest(&mut fs, "/proj/package.json", r#"{"browser": {"fancy": "./plain.js"}}"#);
    file(&mut fs, "/proj/plain.js");
    let mut r = Resolver::new(opts());
    let got = r.resolve(&fs, "/proj", "fancy");
    expect_path(got, "/proj/plain.js");
}

#[test]
fn imports_field_resolves_hash_specifier() {
    let mut fs = FileSystem::new();
    dir(&mut fs, "/proj");
    manifest(&mut fs, "/proj/package.json", r##"{"imports": {"#dep": "./impl.js"}}"##);
    file(&mut fs, "/proj/impl.js");
    let mut r = Resolver::new(opts());
    let got = r.resolve(&fs, "/proj", "#dep");
    expect_path(got, "/proj/impl.js");
}

#[test]
fn symlinked_ancestor_is_spliced() {
    let mut fs = FileSystem::new();
    dir(&mut fs, "/real");
    dir(&mut fs, "/real/a");
    file(&mut fs, "/real/a/b.js");
    fs.put(segs("/link"), FsNode::Symlink(segs("/real")));
    dir(&mut fs, "/link/a");
    file(&mut fs, "/link/a/b.js");
    let mut r = Resolver::new(opts());
    let got = r.resolve(&fs, "/", "/link/a/b.js");
    expect_path(got, "/real/a/b.js");
}

#[test]
fn symlinks_disabled_keeps_path() {
    let mut fs = FileSystem::new();
    dir(&mut fs, "/real");
    fs.put(segs("/link"), FsNode::Symlink(segs("/real")));
    dir(&mut fs, "/link/a");
    file(&mut fs, "/link/a/b.js");
    let mut o = opts();
    o.symlinks = false;
    let mut r = Resolver::new(o);
    let got = r.resolve(&fs, "/", "/link/a/b.js");
    expect_path(got, "/link/a/b.js");
}

#[test]
fn resolving_twice_is_idempotent() {
    let mut fs = FileSystem::new();
    dir(&mut fs, "/proj");
    dir(&mut fs, "/proj/node_modules");
    dir(&mut fs, "/proj/node_modules/pkg");
    manifest(&mut fs, "/proj/node_modules/pkg/package.json", r#"{"main": "lib.js"}"#);
    file(&mut fs, "/proj/node_modules/pkg/lib.js");
    let mut r = Resolver::new(opts());
    let first = r.resolve(&fs, "/proj", "pkg");
    let second = r.resolve(&fs, "/proj", "pkg");
    match (first, second) {
        (
            ResolverStats::Success(ResolverResult::Info(a)),
            ResolverStats::Success(ResolverResult::Info(b)),
        ) => {
            assert_eq!(a.path, b.path);
            assert_eq!(a.path, segs("/proj/node_modules/pkg/lib.js"));
        },
        _ => panic!("expected two successes"),
    }
}

#[test]
fn cache_switch_does_not_change_results() {
    let mut fs = FileSystem::new();
    dir(&mut fs, "/proj");
    dir(&mut fs, "/proj/node_modules");
    dir(&mut fs, "/proj/node_modules/pkg");
    manifest(&mut fs, "/proj/node_modules/pkg/package.json", r#"{"main": "lib.js"}"#);
    file(&mut fs, "/proj/node_modules/pkg/lib.js");
    let mut with_cache = Resolver::new(opts());
    let mut o = opts();
    o.cache_manifests = false;
    let mut without_cache = Resolver::new(o);
    let a = with_cache.resolve(&fs, "/proj", "pkg");
    let b = without_cache.resolve(&fs, "/proj", "pkg");
    match (a, b) {
        (
            ResolverStats::Success(ResolverResult::Info(x)),
            ResolverStats::Success(ResolverResult::Info(y)),
        ) => assert_eq!(x.path, y.path),
        _ => panic!("expected two successes"),
    }
}

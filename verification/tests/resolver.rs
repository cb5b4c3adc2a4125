use lunar_bundler::resolver::{ResolveResult, Resolver};
use std::path::Path;

fn make_temp_dir() -> tempfile::TempDir {
    tempfile::tempdir().unwrap()
}

// files and directories with exact names, removed when dropped
fn make_file(dir: &Path, stem: &str, ext: &str) -> tempfile::NamedTempFile {
    tempfile::Builder::new().prefix(stem).suffix(ext).rand_bytes(0).tempfile_in(dir).unwrap()
}

fn make_dir(dir: &Path, name: &str) -> tempfile::TempDir {
    tempfile::Builder::new().prefix(name).rand_bytes(0).tempdir_in(dir).unwrap()
}

fn dir_string(dir: &tempfile::TempDir) -> String {
    dir.path().to_string_lossy().into_owned()
}

#[test]
fn test_simple_resolve() {
    let dir = make_temp_dir();
    let foo = make_dir(dir.path(), "foo");
    let _bar = make_file(foo.path(), "bar", ".lua");

    let resolver = Resolver::with_paths(vec![dir_string(&dir)]);
    assert!(matches!(
        resolver.resolve("foo.bar"),
        ResolveResult::Found(p) if p == dir.path().join("foo/bar.lua").to_string_lossy()
    ));
}

#[test]
fn test_init_lua() {
    let dir = make_temp_dir();
    let foo = make_dir(dir.path(), "foo");
    let bar = make_dir(foo.path(), "bar");
    let _init = make_file(bar.path(), "init", ".lua");

    let resolver = Resolver::with_paths(vec![dir_string(&dir)]);
    assert!(matches!(
        resolver.resolve("foo.bar"),
        ResolveResult::Found(p) if p == dir.path().join("foo/bar/init.lua").to_string_lossy()
    ));
}

#[test]
fn test_not_found() {
    let dir = make_temp_dir();
    let resolver = Resolver::with_paths(vec![dir_string(&dir)]);
    assert!(matches!(resolver.resolve("does.not.exist"), ResolveResult::NotFound));
}

#[test]
fn test_multiple_search_paths() {
    let dir1 = make_temp_dir();
    let dir2 = make_temp_dir();
    let _foo = make_file(dir2.path(), "foo", ".lua");

    let resolver = Resolver::with_paths(vec![dir_string(&dir1), dir_string(&dir2)]);
    assert!(matches!(
        resolver.resolve("foo"),
        ResolveResult::Found(p) if p == dir2.path().join("foo.lua").to_string_lossy()
    ));
}

#[test]
fn test_external() {
    let dir = make_temp_dir();
    let resolver = Resolver::new(vec![dir_string(&dir)], vec!["socket".to_string()], vec![]);
    assert!(matches!(resolver.resolve("socket"), ResolveResult::External));
}

#[test]
fn test_wildcard_external() {
    let dir = make_temp_dir();
    let resolver = Resolver::new(vec![dir_string(&dir)], vec!["lunar/*".to_string()], vec![]);
    assert!(matches!(resolver.resolve("lunar/router"), ResolveResult::External));
    assert!(matches!(resolver.resolve("lunar/middleware"), ResolveResult::External));
}

#[test]
fn override_wins_over_search_paths_and_last_override_counts() {
    let dir = make_temp_dir();
    let _foo = make_file(dir.path(), "foo", ".lua");
    let resolver = Resolver::new(
        vec![dir_string(&dir)],
        vec![],
        vec![("foo".to_string(), "first.lua".to_string()), ("foo".to_string(), "vendor/foo.lua".to_string())],
    );
    assert!(matches!(resolver.resolve("foo"), ResolveResult::Found(p) if p == "vendor/foo.lua"));
}

#[test]
fn external_wins_over_override() {
    let resolver = Resolver::new(
        vec![],
        vec!["foo".to_string()],
        vec![("foo".to_string(), "foo.lua".to_string())],
    );
    assert!(matches!(resolver.resolve("foo"), ResolveResult::External));
}

#[test]
fn native_module_is_external() {
    let dir = make_temp_dir();
    let _lib = make_file(dir.path(), "lib", ".lua");
    let resolver = Resolver::with_paths(vec![dir_string(&dir)]).with_extensions(vec!["so".to_string(), "lua".to_string()]);
    // `lib.so` does not exist, so `lib.lua` is found
    assert!(matches!(resolver.resolve("lib"), ResolveResult::Found(p) if p.ends_with("lib.lua")));
    let _so = make_file(dir.path(), "lib", ".so");
    assert!(matches!(resolver.resolve("lib"), ResolveResult::External));
}

#[test]
fn extensions_are_tried_in_order() {
    let dir = make_temp_dir();
    let _moon = make_file(dir.path(), "m", ".moon");
    let _lua = make_file(dir.path(), "m", ".lua");
    let resolver = Resolver::with_paths(vec![dir_string(&dir)]).with_extensions(vec!["moon".to_string(), "lua".to_string()]);
    assert!(matches!(resolver.resolve("m"), ResolveResult::Found(p) if p.ends_with("m.moon")));
}

#[test]
fn wildcard_external_marks_only_names_under_the_prefix() {
    let r = Resolver::new(vec![], vec!["lunar/*".to_string()], vec![]);
    assert!(r.is_external("lunar/router"));
    assert!(!r.is_external("lunarx"));
    assert!(!r.is_external("lunar"));
}

#[test]
fn candidates_are_probed_in_search_order() {
    let r = Resolver::with_paths(vec!["/d1".to_string(), "/d2".to_string()])
        .with_extensions(vec!["moon".to_string(), "lua".to_string()]);
    let c = r.probe_candidates("foo.bar", '/');
    let seen: Vec<(String, String, bool)> = c.iter().map(|x| (x.base.clone(), x.name.clone(), x.is_init)).collect();
    let want = vec![
        ("/d1", "foo/bar.moon", false),
        ("/d1", "foo/bar.lua", false),
        ("/d1", "foo/bar", true),
        ("/d2", "foo/bar.moon", false),
        ("/d2", "foo/bar.lua", false),
        ("/d2", "foo/bar", true),
        ("/d1", "foo/bar.so", false),
        ("/d1", "foo/bar.dll", false),
        ("/d1", "foo/bar.dylib", false),
        ("/d2", "foo/bar.so", false),
        ("/d2", "foo/bar.dll", false),
        ("/d2", "foo/bar.dylib", false),
    ];
    let want: Vec<(String, String, bool)> = want.into_iter().map(|(a, b, c)| (a.to_string(), b.to_string(), c)).collect();
    assert_eq!(seen, want);
}

#[test]
fn native_only_module_is_external_with_default_extensions() {
    let dir = make_temp_dir();
    let sub = make_dir(dir.path(), "socket");
    let _so = make_file(sub.path(), "core", ".so");
    let resolver = Resolver::with_paths(vec![dir_string(&dir)]);
    assert!(matches!(resolver.resolve("socket.core"), ResolveResult::External));
    assert!(!resolver.is_external("socket.core"));
}

#[test]
fn lua_file_wins_over_native_library() {
    let dir = make_temp_dir();
    let _so = make_file(dir.path(), "lib", ".so");
    let _lua = make_file(dir.path(), "lib", ".lua");
    let resolver = Resolver::with_paths(vec![dir_string(&dir)]);
    assert!(matches!(resolver.resolve("lib"), ResolveResult::Found(p) if p.ends_with("lib.lua")));
}

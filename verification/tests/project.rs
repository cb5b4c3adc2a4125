use lunar_bundler::luarocks::{
    dedup_paths, default_paths, discover_paths, is_native_extension, is_native_module, keep_existing, normalize_version, parse_lr_path, Platform,
};
use lunar_bundler::scaffold::{scaffold_plan, GREET_MAIN, LUA_CONFIG, MOONSCRIPT_CONFIG, TEAL_GREETING};

#[test]
fn versions_are_normalized() {
    assert_eq!(normalize_version("51"), "5.1");
    assert_eq!(normalize_version("55"), "5.5");
    assert_eq!(normalize_version("5.4"), "5.4");
    assert_eq!(normalize_version("jit"), "jit");
}

#[test]
fn lr_path_output_is_parsed() {
    let out = " /home/u/.luarocks/share/lua/5.4/?.lua;/home/u/.luarocks/share/lua/5.4/?/init.lua;;C:\\rocks\\?.lua\n";
    assert_eq!(
        parse_lr_path(out),
        vec![
            "/home/u/.luarocks/share/lua/5.4".to_string(),
            "/home/u/.luarocks/share/lua/5.4".to_string(),
            "C:\\rocks".to_string(),
        ]
    );
    assert!(parse_lr_path("").is_empty());
}

#[test]
fn dedup_keeps_first_of_each_run() {
    let v = vec!["a".to_string(), "a".to_string(), "b".to_string(), "a".to_string()];
    assert_eq!(dedup_paths(v), vec!["a".to_string(), "b".to_string(), "a".to_string()]);
}

#[test]
fn default_trees_per_platform() {
    assert_eq!(
        default_paths("5.4", Platform::Linux, None),
        vec![
            "/usr/local/share/lua/5.4".to_string(),
            "/usr/local/lib/lua/5.4".to_string(),
            "/usr/share/lua/5.4".to_string(),
            "/usr/lib/lua/5.4".to_string(),
        ]
    );
    assert_eq!(default_paths("5.1", Platform::Windows, None)[0], "C:/Program Files/Lua/5.1/lua");
    assert_eq!(default_paths("5.1", Platform::Windows, Some("C:/AppData".to_string())).len(), 5);
    assert_eq!(default_paths("5.3", Platform::MacOs, None).len(), 5);
}

#[test]
fn discovered_trees_exist() {
    let dir = tempfile::tempdir().unwrap();
    let share = tempfile::Builder::new().prefix("share").rand_bytes(0).tempdir_in(dir.path()).unwrap();
    let present = share.path().to_path_buf();
    let out = format!("{}/?.lua;{}/missing/?.lua", present.display(), dir.path().display());
    let found = discover_paths("54", Some(out), Platform::Other, None);
    assert_eq!(found.first().map(|s| s.as_str()), Some(present.to_string_lossy().as_ref()));
    assert!(found.iter().all(|p| std::path::Path::new(p).exists()));
}

#[test]
fn native_extensions() {
    assert!(is_native_extension(Some("so")));
    assert!(is_native_extension(Some("dylib")));
    assert!(!is_native_extension(Some("lua")));
    assert!(!is_native_extension(None));
}

#[test]
fn scaffold_templates() {
    let plan = scaffold_plan("moonscript").unwrap();
    assert_eq!(plan.label, "Moonscript");
    let paths: Vec<&str> = plan.files.iter().map(|f| f.path.as_str()).collect();
    assert_eq!(paths, vec!["lunar_bundler.toml", "src/main.lua", "src/greeting.moon"]);
    assert_eq!(plan.files[0].contents, MOONSCRIPT_CONFIG);
    assert!(plan.files[0].contents.contains("use = [\"@moonscript\"]"));

    let teal = scaffold_plan("teal").unwrap();
    assert_eq!(teal.files[1].contents, GREET_MAIN);
    assert_eq!(teal.files[2].contents, TEAL_GREETING);

    let lua = scaffold_plan("lua").unwrap();
    assert_eq!(lua.label, "Lua");
    assert_eq!(lua.files[0].contents, LUA_CONFIG);
    assert_eq!(lua.files[2].path, "src/greeting.lua");
}

#[test]
fn scaffold_unknown_template() {
    match scaffold_plan("python") {
        Err(msg) => assert_eq!(msg, "unknown template 'python'. available: moonscript, teal, lua"),
        Ok(_) => panic!("expected an error"),
    }
}

#[test]
fn native_modules_are_known_by_extension() {
    assert!(is_native_module("socket.so"));
    assert!(is_native_module("lfs.dll"));
    assert!(is_native_module("a.b.dylib"));
    assert!(!is_native_module("init.lua"));
    assert!(!is_native_module("so"));
    assert!(!is_native_module(".so"));
}

#[test]
fn existing_paths_are_kept_in_order() {
    let paths = vec!["/a".to_string(), "/b".to_string(), "/c".to_string()];
    assert_eq!(keep_existing(&paths, &vec![true, false, true]), vec!["/a".to_string(), "/c".to_string()]);
    assert_eq!(keep_existing(&paths, &vec![true]), Vec::<String>::new());
}

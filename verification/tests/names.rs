use lunar_bundler::cli::{bundle_options, CliArgs};
use lunar_bundler::compat::CompatIssueKind;
use lunar_bundler::config::Config;
use lunar_bundler::luarocks::{default_paths, Platform};
use lunar_bundler::treeshake::TreeShakeLevel;
use lunar_bundler::BuildMode;

#[test]
fn lowered_mode_names() {
    assert_eq!(BuildMode::from_lowered_name("prod"), BuildMode::Production);
    assert_eq!(BuildMode::from_lowered_name("release"), BuildMode::Production);
    assert_eq!(BuildMode::from_lowered_name("Prod"), BuildMode::Development);
    assert_eq!(BuildMode::from_mode_str("PROD"), BuildMode::Production);
}

#[test]
fn lowered_tree_shake_levels() {
    assert_eq!(TreeShakeLevel::level_from_lowered("full").unwrap(), TreeShakeLevel::Aggressive);
    assert_eq!(TreeShakeLevel::level_from_lowered("off").unwrap(), TreeShakeLevel::Off);
    match TreeShakeLevel::level_from_lowered("Full") {
        Err(msg) => assert_eq!(msg, "unknown tree shake level 'Full', expected: off, basic, or aggressive"),
        Ok(_) => panic!("expected an error"),
    }
}

#[test]
fn lowered_target_versions() {
    assert!(CompatIssueKind::BitwiseOps.is_issue_for_lowered("5.1"));
    assert!(!CompatIssueKind::BitwiseOps.is_issue_for_lowered("5.3"));
    assert!(!CompatIssueKind::GotoUsed.is_issue_for_lowered("luajit"));
    assert!(CompatIssueKind::GotoUsed.is_issue_for_lowered("LuaJIT"));
    assert!(!CompatIssueKind::GotoUsed.is_issue_for("LuaJIT"));
}

#[test]
fn appdata_trees_are_share_then_lib() {
    let appdata = "C:\\Users\\me\\AppData\\Roaming".to_string();
    let r = default_paths("5.4", Platform::Windows, Some(appdata.clone()));
    assert_eq!(r.len(), 5);
    assert!(r[3].starts_with(&appdata) && r[3].ends_with("LuaRocks/share/lua/5.4"), "{}", r[3]);
    assert!(r[4].starts_with(&appdata) && r[4].ends_with("LuaRocks/lib/lua/5.4"), "{}", r[4]);
}

#[test]
fn entry_directory_comes_first_among_search_paths() {
    let cli = CliArgs {
        entry: Some("src/app/main.lua".to_string()),
        search_paths: vec!["lib".to_string()],
        lua_version: None,
        inject_top: None,
        inject_bottom: None,
        luarocks: false,
        mode: None,
    };
    let opts = bundle_options(cli, &Config::default()).unwrap();
    assert_eq!(opts.search_paths, vec!["src/app".to_string(), "lib".to_string()]);
}

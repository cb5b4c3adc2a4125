use lunar_bundler::bundler::{applicable_loaders, finish, make_resolver, rule_applies, select_loaders, BundlerOptions, ModuleReport};
use lunar_bundler::compat::{CompatIssue, CompatIssueKind, CompatLevel};
use lunar_bundler::error::BundlerError;
use lunar_bundler::graph::{DependencyGraph, Module};
use lunar_bundler::preprocessor::preprocess;
use lunar_bundler::sandbox::{SandboxLevel, SandboxViolation};
use lunar_bundler::treeshake::TreeShakeLevel;
use lunar_bundler::BuildMode;

fn options() -> BundlerOptions {
    BundlerOptions {
        entry: "main.lua".to_string(),
        search_paths: vec![],
        lua_version: "51".to_string(),
        inject_top: None,
        inject_bottom: None,
        externals: vec![],
        overrides: vec![],
        resolve_extensions: vec![],
        loaders: vec![],
        mode: BuildMode::Production,
        sandbox_level: SandboxLevel::Off,
        sandbox_deny: vec![],
        compat_level: CompatLevel::Off,
        compat_ignore: vec![],
        treeshake_level: TreeShakeLevel::Off,
    }
}

fn graph() -> DependencyGraph {
    DependencyGraph {
        modules: vec![
            Module { path: "foo.lua".to_string(), module_name: "foo".to_string(), source: "return 1 -- one\n".to_string() },
            Module { path: "main.lua".to_string(), module_name: "__entry__".to_string(), source: "print(require(\"foo\"))".to_string() },
        ],
    }
}

fn reports(violations: Vec<SandboxViolation>, issues: Vec<CompatIssue>) -> Vec<ModuleReport> {
    vec![
        ModuleReport { violations: vec![], issues: vec![], usage: None },
        ModuleReport { violations, issues, usage: None },
    ]
}

#[test]
fn finish_minifies_in_production() {
    let (out, warnings) = match finish(&graph(), &options(), &reports(vec![], vec![])) {
        Ok(r) => r,
        Err(e) => panic!("{}", e),
    };
    assert!(warnings.is_empty());
    assert_eq!(out.module_count, 1);
    assert!(out.output.contains("__modules[\"foo\"] = (function()\nreturn 1\nend)()\n"));
    assert!(!out.output.contains("-- one"));
}

#[test]
fn global_declarations_are_not_emitted() {
    let mut opts = options();
    opts.mode = BuildMode::Development;
    let g = DependencyGraph {
        modules: vec![Module {
            path: "main.lua".to_string(),
            module_name: "__entry__".to_string(),
            source: "global print
print(1)".to_string(),
        }],
    };
    let (out, _) = finish(&g, &opts, &vec![ModuleReport { violations: vec![], issues: vec![], usage: None }])
        .ok()
        .unwrap();
    assert!(!out.output.contains("global print"));
    assert!(out.output.contains("
-- main.lua

print(1)
"));
}

#[test]
fn sandbox_error_fails_with_all_messages() {
    let mut opts = options();
    opts.sandbox_level = SandboxLevel::Error;
    opts.sandbox_deny = vec!["os".to_string()];
    let v = vec![
        SandboxViolation { name: "os".to_string(), line: 3 },
        SandboxViolation { name: "os".to_string(), line: 9 },
    ];
    match finish(&graph(), &opts, &reports(v, vec![])) {
        Err(msg) => assert_eq!(
            msg,
            "sandbox violations:\nmain.lua:3: use of denied global 'os'\nmain.lua:9: use of denied global 'os'"
        ),
        Ok(_) => panic!("expected a sandbox error"),
    }
}

#[test]
fn sandbox_without_denied_names_is_not_checked() {
    let mut opts = options();
    opts.sandbox_level = SandboxLevel::Error;
    let v = vec![SandboxViolation { name: "os".to_string(), line: 3 }];
    assert!(finish(&graph(), &opts, &reports(v, vec![])).is_ok());
}

#[test]
fn warnings_for_sandbox_and_compat() {
    let mut opts = options();
    opts.sandbox_level = SandboxLevel::Warn;
    opts.sandbox_deny = vec!["io".to_string()];
    opts.compat_level = CompatLevel::Warn;
    let v = vec![SandboxViolation { name: "io".to_string(), line: 2 }];
    let i = vec![CompatIssue { line: 4, kind: CompatIssueKind::GotoUsed }];
    let (_, warnings) = finish(&graph(), &opts, &reports(v, i)).ok().unwrap();
    assert_eq!(
        warnings,
        vec![
            "warning: sandbox violation: main.lua:2: use of denied global 'io'".to_string(),
            "warning: compat: main.lua:5: GotoUsed is not supported in Lua 51".to_string(),
        ]
    );
}

#[test]
fn compat_error_fails() {
    let mut opts = options();
    opts.compat_level = CompatLevel::Error;
    let i = vec![CompatIssue { line: 0, kind: CompatIssueKind::BitwiseOps }];
    match finish(&graph(), &opts, &reports(vec![], i)) {
        Err(msg) => assert_eq!(msg, "compatibility issues:\nmain.lua:1: BitwiseOps is not supported in Lua 51"),
        Ok(_) => panic!("expected a compat error"),
    }
}

#[test]
fn rule_patterns_match_path_or_file_name() {
    assert!(rule_applies("*.moon", "/src/greeting.moon"));
    assert!(rule_applies("**/*.lua", "src/a.lua"));
    assert!(rule_applies("greeting.tl", "/deep/dir/greeting.tl"));
    assert!(!rule_applies("*.tl", "/src/main.lua"));
}

#[test]
fn rule_patterns_on_bare_file_names() {
    assert!(rule_applies("init.lua", "init.lua"));
    assert!(!rule_applies("init.lua", "main.lua"));
    assert!(rule_applies("*.lua", "main.lua"));
    assert!(!rule_applies("*.lua", "main.tl"));
    assert!(!rule_applies("*.lua", "lua"));
}

#[test]
fn resolver_defaults_to_lua_extension() {
    let opts = options();
    let r = make_resolver(&opts);
    // with no search path nothing resolves
    assert!(matches!(r.resolve("x"), lunar_bundler::resolver::ResolveResult::NotFound));
}

#[test]
fn preprocess_blanks_global_declarations() {
    assert_eq!(preprocess("global x\n  global y, z\nlocal a\nglobals()"), "\n\nlocal a\nglobals()\n");
    assert_eq!(preprocess(""), "");
    assert_eq!(preprocess("a\r\nb"), "a\nb\n");
}

#[test]
fn error_messages() {
    assert_eq!(
        BundlerError::UnresolvedModule { module: "m".to_string(), requirer: "a.lua".to_string() }.message(),
        "cannot resolve module 'm' required by 'a.lua'"
    );
    assert_eq!(BundlerError::EntryNotFound("x.lua".to_string()).message(), "entry file does not exist: x.lua");
    assert_eq!(
        BundlerError::IoError { path: "p".to_string(), reason: "denied".to_string() }.message(),
        "failed to read 'p': denied"
    );
}

fn loader_names(v: &[lunar_bundler::Loader]) -> Vec<String> {
    v.iter()
        .map(|l| match l {
            lunar_bundler::Loader::Moonscript => "moon".to_string(),
            lunar_bundler::Loader::Teal => "teal".to_string(),
            lunar_bundler::Loader::Command(c) => c.clone(),
            lunar_bundler::Loader::Custom(i) => format!("#{}", i),
        })
        .collect()
}

#[test]
fn loaders_of_applying_rules_in_rule_order() {
    let rules = vec![
        ("*.moon".to_string(), vec![lunar_bundler::Loader::Moonscript, lunar_bundler::Loader::Command("fmt".to_string())]),
        ("*.tl".to_string(), vec![lunar_bundler::Loader::Teal]),
        ("app.moon".to_string(), vec![lunar_bundler::Loader::Command("lint".to_string())]),
    ];
    assert_eq!(loader_names(&applicable_loaders(&rules, "app.moon")), vec!["moon", "fmt", "lint"]);
    assert_eq!(loader_names(&applicable_loaders(&rules, "x.tl")), vec!["teal"]);
    assert!(applicable_loaders(&rules, "x.lua").is_empty());
    assert_eq!(loader_names(&select_loaders(&rules, &vec![false, true, true])), vec!["teal", "lint"]);
    assert!(select_loaders(&rules, &vec![true]).is_empty());
}

#[test]
fn caller_loader_functions_are_selected_like_the_others() {
    let rules = vec![("*.fnl".to_string(), vec![lunar_bundler::Loader::Custom(0)])];
    assert_eq!(loader_names(&applicable_loaders(&rules, "main.fnl")), vec!["#0"]);
}

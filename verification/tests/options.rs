use lunar_bundler::cli::{bundle_options, CliArgs};
use lunar_bundler::compat::{CompatIssueKind, CompatLevel};
use lunar_bundler::config::{
    strip_jsonc_comments, BundleConfig, CompatSettings, Config, InjectConfig, LoaderRule, LoadersConfig,
    ModuleOverride, PathsConfig, ResolveConfig, SandboxConfig,
};
use lunar_bundler::loader::{config_loaders, resolve_rules};
use lunar_bundler::sandbox::SandboxLevel;
use lunar_bundler::treeshake::TreeShakeLevel;
use lunar_bundler::{BuildMode, BundleOptions, Loader};

fn describe(rules: &[(String, Vec<Loader>)]) -> Vec<(String, Vec<String>)> {
    rules
        .iter()
        .map(|(t, ls)| {
            let names = ls
                .iter()
                .map(|l| match l {
                    Loader::Moonscript => "@moonscript".to_string(),
                    Loader::Teal => "@teal".to_string(),
                    Loader::Command(c) => c.clone(),
                    Loader::Custom(i) => format!("#{}", i),
                })
                .collect();
            (t.clone(), names)
        })
        .collect()
}

fn cli(entry: Option<&str>) -> CliArgs {
    CliArgs {
        entry: entry.map(|e| e.to_string()),
        search_paths: vec!["lib".to_string()],
        lua_version: Some("54".to_string()),
        inject_top: None,
        inject_bottom: Some("tail.lua".to_string()),
        luarocks: false,
        mode: Some("PROD".to_string()),
    }
}

#[test]
fn build_mode_names() {
    assert_eq!(BuildMode::from_mode_str("production"), BuildMode::Production);
    assert_eq!(BuildMode::from_mode_str("Release"), BuildMode::Production);
    assert_eq!(BuildMode::from_mode_str("prod"), BuildMode::Production);
    assert_eq!(BuildMode::from_mode_str("dev"), BuildMode::Development);
    assert_eq!(BuildMode::default(), BuildMode::Development);
}

#[test]
fn jsonc_comments_are_stripped() {
    let src = "{\n  // comment\n  \"a\": \"// kept\", /* block\n comment */ \"b\": 1\n}";
    assert_eq!(strip_jsonc_comments(src), "{\n  \n  \"a\": \"// kept\", \n \"b\": 1\n}");
    assert_eq!(strip_jsonc_comments("\"esc \\\" // x\" // y"), "\"esc \\\" // x\" ");
    assert_eq!(strip_jsonc_comments("a / b"), "a / b");
}

#[test]
fn resolve_rules_filters_by_mode_and_commands() {
    let rules = vec![
        ("*.moon".to_string(), vec!["moon".to_string(), "missing".to_string()], None),
        ("*.tl".to_string(), vec!["teal".to_string()], Some("production".to_string())),
        ("*.x".to_string(), vec!["missing".to_string()], None),
    ];
    let commands = vec![
        ("moon".to_string(), "moonc -".to_string()),
        ("teal".to_string(), "tl gen -".to_string()),
        ("moon".to_string(), "moonc --v2 -".to_string()),
    ];
    let dev = resolve_rules(&rules, &commands, &BuildMode::Development);
    assert_eq!(describe(&dev), vec![("*.moon".to_string(), vec!["moonc --v2 -".to_string()])]);
    let prod = resolve_rules(&rules, &commands, &BuildMode::Production);
    assert_eq!(
        describe(&prod),
        vec![
            ("*.moon".to_string(), vec!["moonc --v2 -".to_string()]),
            ("*.tl".to_string(), vec!["tl gen -".to_string()]),
        ]
    );
}

#[test]
fn config_loaders_with_builtins_and_inline_commands() {
    let cfg = LoadersConfig {
        commands: Some(vec![("fmt".to_string(), "stylua -".to_string())]),
        rules: Some(vec![
            LoaderRule {
                test: "*.moon".to_string(),
                use_: Some(vec!["@moonscript".to_string(), "@unknown".to_string(), "fmt".to_string()]),
                run: Some("cat".to_string()),
                mode: None,
            },
            LoaderRule { test: "*.tl".to_string(), use_: Some(vec!["@teal".to_string()]), run: None, mode: Some("dev".to_string()) },
            LoaderRule { test: "*.lua".to_string(), use_: None, run: None, mode: None },
        ]),
    };
    assert_eq!(
        describe(&config_loaders(&cfg, &BuildMode::Development)),
        vec![
            (
                "*.moon".to_string(),
                vec!["@moonscript".to_string(), "stylua -".to_string(), "cat".to_string()]
            ),
            ("*.tl".to_string(), vec!["@teal".to_string()]),
        ]
    );
    assert_eq!(describe(&config_loaders(&cfg, &BuildMode::Production)).len(), 1);
}

#[test]
fn bundle_options_need_an_entry() {
    match bundle_options(cli(None), &Config::default()) {
        Err(msg) => assert_eq!(
            msg,
            "no entry file specified, consider checking the CLI args or lunar_bundler.jsonc/toml configuration"
        ),
        Ok(_) => panic!("expected an error"),
    }
}

#[test]
fn bundle_options_from_cli_and_config() {
    let config = Config {
        bundle: Some(BundleConfig {
            entry: Some("src/ignored.lua".to_string()),
            output: None,
            lua_version: None,
            luarocks: Some(true),
            mode: None,
        }),
        paths: Some(PathsConfig { search: Some(vec!["vendor".to_string()]) }),
        inject: None,
        resolve: Some(ResolveConfig {
            overrides: Some(vec![ModuleOverride { module: "json".to_string(), path: "vendor/json.lua".to_string() }]),
            externals: Some(vec!["socket".to_string()]),
            extensions: Some(vec!["moon".to_string(), "lua".to_string()]),
        }),
        loaders: None,
        sandbox: Some(SandboxConfig { level: None, deny: Some(vec!["os".to_string()]) }),
        compat: Some(CompatSettings {
            level: Some("warn".to_string()),
            ignore: Some(vec!["GotoUsed".to_string(), "nonsense".to_string()]),
        }),
    };
    let opts = bundle_options(cli(Some("src/main.lua")), &config).unwrap();
    assert_eq!(opts.entry, "src/main.lua");
    assert_eq!(opts.search_paths, vec!["src".to_string(), "lib".to_string(), "vendor".to_string()]);
    assert_eq!(opts.lua_version, "54");
    assert_eq!(opts.inject_bottom, Some("tail.lua".to_string()));
    assert_eq!(opts.externals, vec!["socket".to_string()]);
    assert_eq!(opts.overrides, vec![("json".to_string(), "vendor/json.lua".to_string())]);
    assert!(opts.luarocks);
    assert_eq!(opts.resolve_extensions, vec!["moon".to_string(), "lua".to_string()]);
    assert_eq!(opts.mode, BuildMode::Production);
    assert!(opts.loaders.is_empty());
    assert_eq!(opts.sandbox_level, SandboxLevel::Error);
    assert_eq!(opts.sandbox_deny, vec!["os".to_string()]);
    assert_eq!(opts.compat_level, CompatLevel::Warn);
    assert_eq!(opts.compat_ignore, vec![CompatIssueKind::GotoUsed]);
    assert_eq!(opts.treeshake_level, TreeShakeLevel::Off);
}

#[test]
fn config_supplies_version_mode_and_injections() {
    let config = Config {
        bundle: Some(BundleConfig {
            entry: Some("main.lua".to_string()),
            output: None,
            lua_version: Some("53".to_string()),
            luarocks: None,
            mode: Some("production".to_string()),
        }),
        paths: None,
        inject: Some(InjectConfig { top: Some("head.lua".to_string()), bottom: Some("foot.lua".to_string()) }),
        resolve: None,
        loaders: None,
        sandbox: None,
        compat: None,
    };
    let silent = CliArgs {
        entry: None,
        search_paths: vec![],
        lua_version: None,
        inject_top: None,
        inject_bottom: None,
        luarocks: false,
        mode: None,
    };
    let opts = bundle_options(silent, &config).unwrap();
    assert_eq!(opts.entry, "main.lua");
    assert_eq!(opts.lua_version, "53");
    assert_eq!(opts.mode, BuildMode::Production);
    assert_eq!(opts.inject_top, Some("head.lua".to_string()));
    // the command line wins where it speaks
    let opts = bundle_options(cli(Some("x.lua")), &config).unwrap();
    assert_eq!(opts.lua_version, "54");
    assert_eq!(opts.inject_top, Some("head.lua".to_string()));
    assert_eq!(opts.inject_bottom, Some("tail.lua".to_string()));
    let defaults = bundle_options(
        CliArgs { entry: Some("m.lua".to_string()), search_paths: vec![], lua_version: None, inject_top: None, inject_bottom: None, luarocks: false, mode: None },
        &Config::default(),
    )
    .unwrap();
    assert_eq!(defaults.lua_version, "55");
    assert_eq!(defaults.mode, BuildMode::Development);
}

#[test]
fn bundle_options_defaults_without_config() {
    let opts = bundle_options(cli(Some("main.lua")), &Config::default()).unwrap();
    assert_eq!(opts.sandbox_level, SandboxLevel::Off);
    assert_eq!(opts.compat_level, CompatLevel::Off);
    assert!(!opts.luarocks);
    // the entry's directory is the empty path, which goes in front
    assert_eq!(opts.search_paths, vec!["".to_string(), "lib".to_string()]);
}

#[test]
fn bundler_options_append_luarocks_paths() {
    let mut opts = BundleOptions::default();
    assert_eq!(opts.lua_version, "55");
    opts.search_paths = vec!["a".to_string()];
    opts.luarocks = true;
    let b = opts.bundler_options(Some("top".to_string()), None, vec!["rocks".to_string()]);
    assert_eq!(b.search_paths, vec!["a".to_string(), "rocks".to_string()]);
    assert_eq!(b.inject_top, Some("top".to_string()));
    let plain = BundleOptions::default().bundler_options(None, None, vec!["rocks".to_string()]);
    assert!(plain.search_paths.is_empty());
}

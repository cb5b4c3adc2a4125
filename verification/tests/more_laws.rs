use lunar_bundler::bundler::{applicable_loaders, finish, rule_applies, BundlerOptions, ModuleReport};
use lunar_bundler::compat::{CompatIssue, CompatIssueKind, CompatLevel, CompatVisitor};
use lunar_bundler::config::strip_jsonc_comments;
use lunar_bundler::emitter::Emitter;
use lunar_bundler::graph::{DependencyGraph, Module};
use lunar_bundler::minify::minify_lua;
use lunar_bundler::preprocessor::preprocess;
use lunar_bundler::sandbox::{SandboxLevel, SandboxViolation};
use lunar_bundler::treeshake::TreeShakeLevel;
use lunar_bundler::BuildMode;

fn one_module() -> DependencyGraph {
    DependencyGraph {
        modules: vec![
            Module { path: "a.lua".to_string(), module_name: "a".to_string(), source: "return 1\n".to_string() },
            Module { path: "main.lua".to_string(), module_name: "__entry__".to_string(), source: "print(1)\n".to_string() },
        ],
    }
}

#[test]
fn jsonc_without_slash_is_unchanged() {
    let s = "{\n  \"a\": \"x*y\",\n  \"b\": [1, 2]\n}\n";
    assert_eq!(strip_jsonc_comments(s), s);
}

#[test]
fn jsonc_keeps_strings_with_comment_markers() {
    assert_eq!(strip_jsonc_comments("{\"u\": \"http://x\" // c\n}"), "{\"u\": \"http://x\" \n}");
}

#[test]
fn preprocessing_twice_changes_nothing() {
    let src = "local a = 1\n  global x\nprint(a)";
    let once = preprocess(src);
    assert_eq!(preprocess(&once), once);
    assert_eq!(once.matches('\n').count(), 3);
}

#[test]
fn minified_code_starts_without_blank_lines() {
    let out = minify_lua("\n\n-- c\n  \nlocal a = 1   \nreturn a\n");
    assert_eq!(out, "local a = 1\nreturn a");
    assert!(!out.starts_with('\n'));
}

#[test]
fn source_map_hint_only_in_development() {
    let (dev, _) = Emitter::new(None, None, &BuildMode::Development).emit(&one_module());
    assert!(dev.ends_with("--# sourceMappingURL=bundle.lua.map\n"));
    let (prod, _) = Emitter::new(None, Some("-- tail".to_string()), &BuildMode::Production).emit(&one_module());
    assert!(!prod.contains("sourceMappingURL"));
    assert!(prod.ends_with("-- tail\n"));
}

#[test]
fn ignored_kinds_are_dropped_in_order() {
    let mut all = CompatVisitor::new("51".to_string(), vec![]);
    let mut some = CompatVisitor::new("51".to_string(), vec![CompatIssueKind::GotoUsed]);
    for (k, l) in [(CompatIssueKind::GotoUsed, 1), (CompatIssueKind::BitwiseOps, 2), (CompatIssueKind::GotoUsed, 3), (CompatIssueKind::IntegerDivision, 4)] {
        all.check(k, l);
        some.check(k, l);
    }
    let kinds = |v: &CompatVisitor| v.issues.iter().map(|i| (i.kind, i.line)).collect::<Vec<_>>();
    assert_eq!(kinds(&all).len(), 4);
    assert_eq!(kinds(&some), vec![(CompatIssueKind::BitwiseOps, 2), (CompatIssueKind::IntegerDivision, 4)]);
}

fn options(sandbox: SandboxLevel, compat: CompatLevel) -> BundlerOptions {
    BundlerOptions {
        entry: "main.lua".to_string(),
        search_paths: vec![],
        lua_version: "51".to_string(),
        inject_top: None,
        inject_bottom: None,
        externals: vec![],
        overrides: vec![],
        resolve_extensions: vec![],
        loaders: vec![],
        mode: BuildMode::Development,
        sandbox_level: sandbox,
        sandbox_deny: vec!["os".to_string()],
        compat_level: compat,
        compat_ignore: vec![],
        treeshake_level: TreeShakeLevel::Off,
    }
}

#[test]
fn warn_levels_only_add_warnings() {
    let reports = || {
        vec![
            ModuleReport { violations: vec![], issues: vec![], usage: None },
            ModuleReport {
                violations: vec![SandboxViolation { name: "os".to_string(), line: 1 }],
                issues: vec![CompatIssue { line: 1, kind: CompatIssueKind::BitwiseOps }],
                usage: None,
            },
        ]
    };
    let (warned, warnings) = finish(&one_module(), &options(SandboxLevel::Warn, CompatLevel::Warn), &reports()).unwrap();
    let (quiet, none) = finish(&one_module(), &options(SandboxLevel::Off, CompatLevel::Off), &reports()).unwrap();
    assert_eq!(warned.output, quiet.output);
    assert_eq!(warned.sourcemap, quiet.sourcemap);
    assert_eq!(warnings.len(), 2);
    assert!(none.is_empty());
    match finish(&one_module(), &options(SandboxLevel::Error, CompatLevel::Error), &reports()) {
        Err(msg) => assert!(msg.starts_with("sandbox violations:\n"), "{}", msg),
        Ok(_) => panic!("expected an error"),
    }
}

#[test]
fn rules_match_the_file_name_of_a_path_with_directories() {
    assert!(rule_applies("*.lua", "/d/foo.lua"));
    assert!(rule_applies("*.lua", "d/foo.lua"));
    assert!(!rule_applies("*.lua", "/d/x.lua/foo.tl"));
    assert!(rule_applies("foo.lua", "/d/foo.lua"));
    assert!(!rule_applies("foo.lua", "/d/bar.lua"));
    let rules = vec![("*.lua".to_string(), vec![lunar_bundler::Loader::Command("fmt".to_string())])];
    assert_eq!(applicable_loaders(&rules, "/d/main.lua").len(), 1);
}

#[test]
fn sources_without_global_lines_are_emitted_as_they_are() {
    let g = DependencyGraph {
        modules: vec![Module {
            path: "main.lua".to_string(),
            module_name: "__entry__".to_string(),
            source: "print(1)\r\nprint(2)".to_string(),
        }],
    };
    let reports = vec![ModuleReport { violations: vec![], issues: vec![], usage: None }];
    let (out, _) = finish(&g, &options(SandboxLevel::Off, CompatLevel::Off), &reports).unwrap();
    assert!(out.output.contains("print(1)\r\nprint(2)"), "{}", out.output);
}

#[test]
fn unicode_white_space_is_trimmed_at_line_ends() {
    let out = lunar_bundler::minify::collapse_whitespace("a\u{2003}\u{3000}\nb\u{200b}\n");
    assert_eq!(out, "a\nb\u{200b}");
    for c in ['\t', ' ', '\u{85}', '\u{a0}', '\u{1680}', '\u{2000}', '\u{200a}', '\u{2028}', '\u{202f}', '\u{205f}'] {
        assert!(c.is_whitespace());
        assert_eq!(lunar_bundler::minify::collapse_whitespace(&format!("x{}", c)), "x");
    }
}

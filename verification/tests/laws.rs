use lunar_bundler::compat::CompatIssueKind;
use lunar_bundler::config::strip_jsonc_comments;
use lunar_bundler::emitter::Emitter;
use lunar_bundler::graph::{DependencyGraph, Module};
use lunar_bundler::luarocks::dedup_paths;
use lunar_bundler::minify::collapse_whitespace;
use lunar_bundler::preprocessor::preprocess;
use lunar_bundler::BuildMode;

fn newlines(s: &str) -> usize {
    s.chars().filter(|&c| c == '\n').count()
}

#[test]
fn preprocessing_keeps_line_count() {
    let src = "local a = 1\nglobal b\n  global c, d\r\nprint(a)";
    let out = preprocess(src);
    assert_eq!(newlines(&out), src.lines().count());
    assert_eq!(out, "local a = 1\n\n\nprint(a)\n");
}

#[test]
fn jsonc_stripping_keeps_line_endings() {
    let src = "{ // a\n /* b\n c */ \"k\": \"// not\\n\" /* d */ }\n// e";
    let out = strip_jsonc_comments(src);
    assert_eq!(newlines(&out), newlines(src));
    assert_eq!(out, "{ \n \n \"k\": \"// not\\n\"  }\n");
}

#[test]
fn collapsed_text_has_no_double_blank_lines() {
    let out = collapse_whitespace("a  \n\n\n\t\nb \t\n\n\n\nc\n  \n");
    assert!(!out.contains("\n\n\n"));
    assert!(!out.contains(" \n") && !out.contains("\t\n"));
    assert_eq!(out, "a\n\nb\n\nc\n");
}

#[test]
fn dedup_leaves_no_equal_neighbours() {
    let v: Vec<String> = ["x", "x", "y", "y", "y", "x"].iter().map(|s| s.to_string()).collect();
    let d = dedup_paths(v);
    assert!(d.windows(2).all(|w| w[0] != w[1]));
    assert_eq!(d, vec!["x".to_string(), "y".to_string(), "x".to_string()]);
}

#[test]
fn lua51_flags_every_kind() {
    let kinds = [
        CompatIssueKind::GotoUsed,
        CompatIssueKind::ConstAttribute,
        CompatIssueKind::ToBeClosedAttribute,
        CompatIssueKind::IntegerDivision,
        CompatIssueKind::BitwiseOps,
        CompatIssueKind::BitwiseNot,
        CompatIssueKind::Utf8Library,
        CompatIssueKind::TableMove,
        CompatIssueKind::StringPack,
        CompatIssueKind::MathTointeger,
        CompatIssueKind::MathType,
        CompatIssueKind::FfiLibrary,
        CompatIssueKind::BitLibrary,
        CompatIssueKind::JitLibrary,
    ];
    for k in kinds {
        assert!(k.is_issue_for("51"));
        assert!(k.is_issue_for("5.1"));
        assert_eq!(CompatIssueKind::parse_kind(k.name()), Some(k));
    }
}

/// Decodes one Base64 VLQ value from the front of `s`, returning it and the rest.
fn vlq_decode(s: &[u8]) -> (i64, &[u8]) {
    let alphabet = b"ABCDEFGHIJKLMNOPQRSTUVWXYZabcdefghijklmnopqrstuvwxyz0123456789+/";
    let mut value: i64 = 0;
    let mut shift = 0;
    let mut i = 0;
    loop {
        let d = alphabet.iter().position(|&c| c == s[i]).unwrap() as i64;
        i += 1;
        value |= (d & 31) << shift;
        shift += 5;
        if d & 32 == 0 {
            break;
        }
    }
    let v = if value & 1 == 1 { -(value >> 1) } else { value >> 1 };
    (v, &s[i..])
}

/// The (source index, source line) of each output line, from the mappings.
fn decode_mappings(mappings: &str) -> Vec<Option<(i64, i64)>> {
    let mut out = Vec::new();
    let (mut src, mut line) = (0i64, 0i64);
    for seg in mappings.split(';') {
        if seg.is_empty() {
            out.push(None);
            continue;
        }
        let (_, rest) = vlq_decode(seg.as_bytes());
        let (ds, rest) = vlq_decode(rest);
        let (dl, _) = vlq_decode(rest);
        src += ds;
        line += dl;
        out.push(Some((src, line)));
    }
    out
}

#[test]
fn source_map_points_at_module_lines() {
    let graph = DependencyGraph {
        modules: vec![
            Module { path: "a.lua".to_string(), module_name: "a".to_string(), source: "local A = 1\nreturn A".to_string() },
            Module { path: "b.lua".to_string(), module_name: "b".to_string(), source: "return 2\n".to_string() },
            Module { path: "main.lua".to_string(), module_name: "__entry__".to_string(), source: "print(1)\nprint(2)".to_string() },
        ],
    };
    let emitter = Emitter::new(Some("-- top".to_string()), None, &BuildMode::Development);
    let (out, sm) = emitter.emit(&graph);
    let start = sm.find("\"mappings\":\"").unwrap() + 12;
    let end = start + sm[start..].find('"').unwrap();
    let map = decode_mappings(&sm[start..end]);
    let lines: Vec<&str> = out.lines().collect();
    let sources = ["a.lua", "b.lua", "main.lua"];
    for (idx, m) in graph.modules.iter().enumerate() {
        for (j, text) in m.source.lines().enumerate() {
            let at = lines.iter().position(|l| *l == text).unwrap();
            assert_eq!(map[at], Some((idx as i64, j as i64)), "{} line {}", sources[idx], j);
        }
    }
}

#[test]
fn source_map_points_at_module_lines_after_a_top_line_ending() {
    let graph = DependencyGraph {
        modules: vec![
            Module { path: "a.lua".to_string(), module_name: "a".to_string(), source: "local A = 1\nreturn A".to_string() },
            Module { path: "b.lua".to_string(), module_name: "b".to_string(), source: "return 2\n".to_string() },
            Module { path: "main.lua".to_string(), module_name: "__entry__".to_string(), source: "print(1)\nprint(2)".to_string() },
        ],
    };
    let emitter = Emitter::new(Some("-- top\n-- more\n".to_string()), None, &BuildMode::Development);
    let (out, sm) = emitter.emit(&graph);
    let start = sm.find("\"mappings\":\"").unwrap() + 12;
    let end = start + sm[start..].find('"').unwrap();
    let map = decode_mappings(&sm[start..end]);
    let lines: Vec<&str> = out.lines().collect();
    let sources = ["a.lua", "b.lua", "main.lua"];
    for (idx, m) in graph.modules.iter().enumerate() {
        for (j, text) in m.source.lines().enumerate() {
            let at = lines.iter().position(|l| *l == text).unwrap();
            assert_eq!(map[at], Some((idx as i64, j as i64)), "{} line {}", sources[idx], j);
        }
    }
}

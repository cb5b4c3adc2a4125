use lunar_bundler::emitter::Emitter;
use lunar_bundler::graph::{DependencyGraph, Module};
use lunar_bundler::BuildMode;

fn make_module(name: &str, source: &str) -> Module {
    Module {
        path: format!("{}.lua", name),
        module_name: name.to_string(),
        source: source.to_string(),
    }
}

#[test]
fn test_emit_basic() {
    let graph = DependencyGraph {
        modules: vec![
            make_module("foo", "return {}"),
            make_module("__entry__", r#"local x = require("foo")"#),
        ],
    };

    let emitter = Emitter::new(None, None, &BuildMode::Development);
    let (out, _sm) = emitter.emit(&graph);

    assert!(out.contains("__modules[\"foo\"]"));
    assert!(out.contains("return {}"));
    assert!(out.contains(r#"local x = require("foo")"#));
    assert!(!out.contains("__modules[\"__entry__\"]"));
}

#[test]
fn test_emit_inject_top() {
    let graph = DependencyGraph {
        modules: vec![make_module("__entry__", "print('hello')")],
    };

    let emitter = Emitter::new(Some("-- injected top".to_string()), None, &BuildMode::Development);
    let (out, _sm) = emitter.emit(&graph);

    let top_pos = out.find("-- injected top").unwrap();
    let shim_pos = out.find("local __modules").unwrap();
    assert!(top_pos < shim_pos);
}

#[test]
fn test_emit_inject_bottom() {
    let graph = DependencyGraph {
        modules: vec![make_module("__entry__", "print('hello')")],
    };

    let emitter = Emitter::new(None, Some("-- injected bottom".to_string()), &BuildMode::Development);
    let (out, _sm) = emitter.emit(&graph);

    let entry_pos = out.find("print('hello')").unwrap();
    let bottom_pos = out.find("-- injected bottom").unwrap();
    assert!(entry_pos < bottom_pos);
}

#[test]
fn test_module_wrapper_format_no_trailing_newline_in_source_dev() {
    let graph = DependencyGraph {
        modules: vec![make_module("bar", "local x = 1"), make_module("__entry__", "")],
    };

    let emitter = Emitter::new(None, None, &BuildMode::Development);
    let (out, _sm) = emitter.emit(&graph);

    let wrapper_start = out.find("__modules[\"bar\"]").unwrap();
    let after_wrapper = &out[wrapper_start..];
    assert!(after_wrapper.starts_with("__modules[\"bar\"] = __module_wrap(\"bar\", \"bar.lua\", function()\n"));
    let end_pos = after_wrapper.find("end)").unwrap();
    let before_end = &after_wrapper[..end_pos];
    assert!(
        before_end.ends_with("\nlocal x = 1\n"),
        "end) must be on its own line, got: {:?}",
        &before_end[before_end.len().saturating_sub(20)..]
    );
}

#[test]
fn test_module_wrapper_format_no_trailing_newline_in_source_prod() {
    let graph = DependencyGraph {
        modules: vec![make_module("bar", "local x = 1"), make_module("__entry__", "")],
    };

    let emitter = Emitter::new(None, None, &BuildMode::Production);
    let (out, _sm) = emitter.emit(&graph);

    let wrapper_start = out.find("__modules[\"bar\"]").unwrap();
    let after_wrapper = &out[wrapper_start..];
    assert!(after_wrapper.starts_with("__modules[\"bar\"] = (function()\n"));
    let end_pos = after_wrapper.find("end)()").unwrap();
    let before_end = &after_wrapper[..end_pos];
    assert!(
        before_end.ends_with("\nlocal x = 1\n"),
        "end)() must be on its own line, got: {:?}",
        &before_end[before_end.len().saturating_sub(20)..]
    );
}

#[test]
fn test_sourcemap_generated() {
    let graph = DependencyGraph {
        modules: vec![
            make_module("foo", "return {}"),
            make_module("__entry__", "local f = require(\"foo\")\nprint(f)"),
        ],
    };

    let emitter = Emitter::new(None, None, &BuildMode::Development);
    let (_out, sm_json) = emitter.emit(&graph);
    let sm: serde_json::Value = serde_json::from_str(&sm_json).unwrap();

    assert_eq!(sm["version"], 3);
    assert!(sm["sources"].as_array().unwrap().len() >= 2);
    assert!(!sm["mappings"].as_str().unwrap().is_empty());
}

#[test]
fn test_dev_shim_comment() {
    let graph = DependencyGraph {
        modules: vec![make_module("__entry__", "print('hello')")],
    };

    let emitter = Emitter::new(None, None, &BuildMode::Development);
    let (out, _sm) = emitter.emit(&graph);
    assert!(out.contains("sourceMappingURL"), "dev mode should include sourceMappingURL hint");
}

#[test]
fn test_no_sourcemap_in_production_output() {
    let graph = DependencyGraph {
        modules: vec![make_module("__entry__", "print('hello')")],
    };

    let emitter = Emitter::new(None, None, &BuildMode::Production);
    let (out, _sm) = emitter.emit(&graph);
    assert!(!out.contains("sourceMappingURL"), "production output should not have dev hints");
}

#[test]
fn emit_exact_production_bundle() {
    let graph = DependencyGraph {
        modules: vec![make_module("foo", "return 1\n"), make_module("__entry__", "print(require(\"foo\"))")],
    };
    let emitter = Emitter::new(Some("-- top".to_string()), Some("-- bottom".to_string()), &BuildMode::Production);
    let (out, _sm) = emitter.emit(&graph);
    let expected = [
        "-- generated by lunar-bundler\n",
        "-- top\n",
        "\nlocal __modules = {}\nlocal __require = require\nlocal function require(name)\n",
        "    if __modules[name] ~= nil then\n        return __modules[name]\n    end\n",
        "    return __require(name)\nend\n",
        "\n-- foo.lua\n__modules[\"foo\"] = (function()\nreturn 1\nend)()\n",
        "\n-- __entry__.lua\nprint(require(\"foo\"))\n",
        "-- bottom\n",
    ]
    .concat();
    assert_eq!(out, expected);
}

#[test]
fn emit_development_bundle_ends_with_map_hint() {
    let graph = DependencyGraph {
        modules: vec![make_module("foo", "return 1\n"), make_module("__entry__", "print(1)")],
    };
    let emitter = Emitter::new(None, None, &BuildMode::Development);
    let (out, sm) = emitter.emit(&graph);
    assert!(out.contains("\n-- foo.lua\n__modules[\"foo\"] = __module_wrap(\"foo\", \"foo.lua\", function()\nreturn 1\nend)\n"));
    assert!(out.ends_with("\n-- __entry__.lua\nprint(1)\n--# sourceMappingURL=bundle.lua.map\n"));
    assert!(sm.contains("\"sources\":[\"foo.lua\",\"__entry__.lua\"]"));
}

#[test]
fn emit_module_names_with_quotes_are_escaped() {
    let graph = DependencyGraph {
        modules: vec![make_module("a\"b", "return 2"), make_module("__entry__", "")],
    };
    let emitter = Emitter::new(None, None, &BuildMode::Development);
    let (out, _sm) = emitter.emit(&graph);
    assert!(out.contains("__modules[\"a\\\"b\"] = __module_wrap(\"a\\\"b\", \"a\\\"b.lua\", function()\n"));
}

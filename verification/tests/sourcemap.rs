use lunar_bundler::sourcemap::{vlq_encode, SourceMapBuilder};

#[test]
fn test_vlq_roundtrip() {
    for v in [0, 1, -1, 15, -15, 127, -128, 1000, -1000] {
        let encoded = vlq_encode(v);
        assert!(!encoded.is_empty(), "vlq_encode({}) should not be empty", v);
        // all chars should be base64
        for c in encoded.chars() {
            assert!(
                "ABCDEFGHIJKLMNOPQRSTUVWXYZabcdefghijklmnopqrstuvwxyz0123456789+/".contains(c),
                "bad char '{}' in VLQ for {}",
                c,
                v
            );
        }
    }
}

#[test]
fn test_sourcemap_basic() {
    let mut sm = SourceMapBuilder::new("bundle.lua".to_string());
    let idx = sm.add_source("src/foo.lua", "local x = 1\nreturn x\n");
    let idx2 = sm.add_source("src/main.lua", "local f = require(\"foo\")\nprint(f)\n");

    sm.map_line(2, idx, 0);
    sm.map_line(3, idx, 1);
    sm.map_line(6, idx2, 0);
    sm.map_line(7, idx2, 1);

    let json = sm.to_json();
    assert!(json.contains("\"version\":3"));
    assert!(json.contains("\"src/foo.lua\""));
    assert!(json.contains("\"src/main.lua\""));
    assert!(json.contains("\"local x = 1\\nreturn x\\n\""));
    assert!(json.contains("\"mappings\":"));

    let mappings_start = json.find("\"mappings\":\"").unwrap() + 12;
    let mappings_end = json[mappings_start..].find('"').unwrap();
    let mappings = &json[mappings_start..mappings_start + mappings_end];
    assert_eq!(mappings.matches(';').count() + 1, 8, "one segment per output line");
}

#[test]
fn test_sourcemap_no_sources() {
    let sm = SourceMapBuilder::new("empty.lua".to_string());
    let json = sm.to_json();
    assert!(json.contains("\"sources\":[]"));
    assert!(json.contains("\"mappings\":\"\""));
}

#[test]
fn vlq_exact_encodings() {
    assert_eq!(vlq_encode(0), "A");
    assert_eq!(vlq_encode(1), "C");
    assert_eq!(vlq_encode(-1), "D");
    assert_eq!(vlq_encode(15), "e");
    assert_eq!(vlq_encode(16), "gB");
    assert_eq!(vlq_encode(-1000), "x+B");
}

#[test]
fn add_source_deduplicates_paths() {
    let mut sm = SourceMapBuilder::new("b.lua".to_string());
    assert_eq!(sm.add_source("a.lua", "x"), 0);
    assert_eq!(sm.add_source("b.lua", "y"), 1);
    assert_eq!(sm.add_source("a.lua", "z"), 0);
    let json = sm.to_json();
    assert!(json.contains("\"sources\":[\"a.lua\",\"b.lua\"]"));
}

#[test]
fn ensure_line_and_map_lines() {
    let mut sm = SourceMapBuilder::new("out.lua".to_string());
    assert_eq!(sm.ensure_line(2), 2);
    let idx = sm.add_source("m.lua", "a\nb\n");
    sm.map_lines(1, idx, 0, 2);
    let json = sm.to_json();
    assert_eq!(
        json,
        "{\"version\":3,\"file\":\"out.lua\",\"sources\":[\"m.lua\"],\"sourcesContent\":[\"a\\nb\\n\"],\"mappings\":\";AAAA;AACA\"}"
    );
}

#[test]
fn relative_positions_carry_across_generated_lines() {
    let mut sm = SourceMapBuilder::new("bundle.lua".to_string());
    let i = sm.add_source("src/foo.lua", "local x = 1\nreturn x\n");
    let j = sm.add_source("src/main.lua", "local f = require(\"foo\")\nprint(f)\n");
    sm.map_line(2, i, 0);
    sm.map_line(3, i, 1);
    sm.map_line(6, j, 0);
    sm.map_line(7, j, 1);
    let json = sm.to_json();
    assert!(json.contains("\"mappings\":\";;AAAA;AACA;;;ACDA;AACA\""), "{}", json);
}

#[test]
fn json_strings_are_escaped() {
    let mut sm = SourceMapBuilder::new("b.lua".to_string());
    sm.add_source("a\"b.lua", "x\ty\u{1}\\\n");
    let json = sm.to_json();
    assert!(json.contains(r#""sources":["a\"b.lua"]"#), "{}", json);
    assert!(json.contains(r#""sourcesContent":["x\ty\u0001\\\n"]"#), "{}", json);
}

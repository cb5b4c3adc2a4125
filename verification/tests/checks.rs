use lunar_bundler::compat::{BinaryOperator, CompatIssueKind, CompatLevel, CompatVisitor};
use lunar_bundler::sandbox::{check_name, SandboxLevel, SandboxViolation};
use lunar_bundler::scanner::{trim_quotes, CallArgument, ScanResult};

fn kinds(v: &CompatVisitor) -> Vec<CompatIssueKind> {
    v.issues.iter().map(|i| i.kind).collect()
}

#[test]
fn compat_require_libraries() {
    let mut v = CompatVisitor::new("54".to_string(), vec![]);
    v.visit_call("require", 0, &CallArgument::Literal("\"ffi\"".to_string()), None);
    v.visit_call("require", 1, &CallArgument::Literal("'bit'".to_string()), None);
    v.visit_call("require", 2, &CallArgument::Literal("\"jit\"".to_string()), None);
    v.visit_call("require", 3, &CallArgument::Literal("\"utf8\"".to_string()), None);
    v.visit_call("require", 4, &CallArgument::Dynamic, None);
    assert_eq!(kinds(&v), vec![CompatIssueKind::FfiLibrary, CompatIssueKind::BitLibrary, CompatIssueKind::JitLibrary]);
    assert_eq!(v.issues[2].line, 2);
}

#[test]
fn compat_utf8_flagged_before_53_only() {
    let mut v = CompatVisitor::new("5.1".to_string(), vec![]);
    v.visit_call("require", 7, &CallArgument::Literal("\"utf8\"".to_string()), None);
    assert_eq!(kinds(&v), vec![CompatIssueKind::Utf8Library]);
    let mut w = CompatVisitor::new("53".to_string(), vec![]);
    w.visit_call("require", 7, &CallArgument::Literal("\"utf8\"".to_string()), None);
    assert!(w.issues.is_empty());
}

#[test]
fn compat_stdlib_calls_and_operators() {
    let mut v = CompatVisitor::new("51".to_string(), vec![]);
    v.visit_call("table", 0, &CallArgument::Unsupported, Some(("move", 3)));
    v.visit_call("string", 0, &CallArgument::Unsupported, Some(("pack", 4)));
    v.visit_call("math", 0, &CallArgument::Unsupported, Some(("floor", 5)));
    v.visit_binary_operator(BinaryOperator::DoubleSlash, 6);
    v.visit_binary_operator(BinaryOperator::Ampersand, 7);
    v.visit_bitwise_not(8);
    v.visit_goto(9);
    assert_eq!(
        kinds(&v),
        vec![
            CompatIssueKind::TableMove,
            CompatIssueKind::StringPack,
            CompatIssueKind::IntegerDivision,
            CompatIssueKind::BitwiseOps,
            CompatIssueKind::BitwiseNot,
            CompatIssueKind::GotoUsed,
        ]
    );
    assert_eq!(v.issues[0].line, 3);
}

#[test]
fn compat_ignore_list_and_newer_targets() {
    let mut v = CompatVisitor::new("51".to_string(), vec![CompatIssueKind::GotoUsed]);
    v.visit_goto(1);
    assert!(v.issues.is_empty());
    let mut w = CompatVisitor::new("5.4".to_string(), vec![]);
    w.visit_binary_operator(BinaryOperator::DoubleLessThan, 1);
    w.visit_goto(2);
    assert!(w.issues.is_empty());
}

#[test]
fn compat_kind_names_round_trip() {
    for kind in [CompatIssueKind::GotoUsed, CompatIssueKind::TableMove, CompatIssueKind::JitLibrary] {
        assert_eq!(CompatIssueKind::parse_kind(kind.name()), Some(kind));
        assert_eq!(kind.name().parse::<CompatIssueKind>(), Ok(kind));
    }
    assert_eq!(CompatIssueKind::parse_kind("gotoused"), None);
    assert!(CompatIssueKind::GotoUsed.is_issue_for("5.1"));
    assert!(!CompatIssueKind::GotoUsed.is_issue_for("52"));
    assert_eq!(CompatIssueKind::BitwiseOps.supported_in(), vec!["53", "54", "55"]);
    assert_eq!(CompatLevel::default(), CompatLevel::Off);
}

#[test]
fn sandbox_denied_names_are_recorded() {
    let deny = vec!["os".to_string(), "io".to_string()];
    let mut violations: Vec<SandboxViolation> = Vec::new();
    check_name(&mut violations, &deny, "os", 3);
    check_name(&mut violations, &deny, "print", 4);
    check_name(&mut violations, &deny, "io", 5);
    let found: Vec<(&str, usize)> = violations.iter().map(|v| (v.name.as_str(), v.line)).collect();
    assert_eq!(found, vec![("os", 3), ("io", 5)]);
}

#[test]
fn sandbox_level_names() {
    assert_eq!("error".parse::<SandboxLevel>(), Ok(SandboxLevel::Error));
    assert_eq!("warn".parse::<SandboxLevel>(), Ok(SandboxLevel::Warn));
    assert_eq!("Error".parse::<SandboxLevel>(), Ok(SandboxLevel::Off));
    assert_eq!(SandboxLevel::default(), SandboxLevel::Off);
}

#[test]
fn scan_records_static_and_dynamic_requires() {
    let mut scan = ScanResult::new();
    scan.record_call("main.lua", "require", &CallArgument::Literal("\"foo\"".to_string()));
    scan.record_call("main.lua", "require", &CallArgument::Literal("'bar.baz'".to_string()));
    scan.record_call("main.lua", "require", &CallArgument::Dynamic);
    scan.record_call("main.lua", "print", &CallArgument::Literal("\"x\"".to_string()));
    scan.record_call("main.lua", "require", &CallArgument::Unsupported);
    assert_eq!(scan.requires, vec!["foo".to_string(), "bar.baz".to_string()]);
    assert_eq!(scan.dynamic_requires, vec!["main.lua".to_string()]);
}

#[test]
fn quotes_are_trimmed_from_both_ends() {
    assert_eq!(trim_quotes("\"foo\""), "foo");
    assert_eq!(trim_quotes("'foo'"), "foo");
    assert_eq!(trim_quotes("\"'x'\""), "x");
    assert_eq!(trim_quotes("[[foo]]"), "[[foo]]");
}

use lunar_bundler::treeshake::{
    is_identifier_token, is_pure_expression, treeshake, LocalUsage, Mention, Statement, TopStatement,
    TreeShakeLevel, Value,
};

// The parser's findings are written out by hand: every mention of a name in
// the module, and the top-level statements with their character spans.

fn span(source: &str, text: &str) -> Option<(usize, usize)> {
    let start = source.find(text).unwrap();
    Some((start, start + text.len()))
}

fn local(source: &str, text: &str, names: &[&str], values: Vec<Value>) -> TopStatement {
    TopStatement {
        statement: Statement::LocalAssignment {
            names: names.iter().map(|n| n.to_string()).collect(),
            values,
        },
        span: span(source, text),
        semicolon_end: None,
    }
}

fn local_fn(source: &str, text: &str, name: &str) -> TopStatement {
    TopStatement {
        statement: Statement::LocalFunction { name: name.to_string() },
        span: span(source, text),
        semicolon_end: None,
    }
}

fn other(source: &str, text: &str) -> TopStatement {
    TopStatement { statement: Statement::Other, span: span(source, text), semicolon_end: None }
}

fn decl(n: &str) -> Mention {
    Mention::Local(n.to_string())
}

fn refer(n: &str) -> Mention {
    Mention::Reference(n.to_string())
}

fn sym(n: &str) -> Mention {
    Mention::Symbol(n.to_string())
}

fn shake(source: &str, level: TreeShakeLevel, mentions: Vec<Mention>, statements: Vec<TopStatement>) -> String {
    let usage = LocalUsage { mentions, statements };
    treeshake(source, level, Some(&usage))
}

#[test]
fn test_tree_shake_level_from_str() {
    assert_eq!("off".parse::<TreeShakeLevel>().unwrap(), TreeShakeLevel::Off);
    assert_eq!("basic".parse::<TreeShakeLevel>().unwrap(), TreeShakeLevel::Basic);
    assert_eq!("aggressive".parse::<TreeShakeLevel>().unwrap(), TreeShakeLevel::Aggressive);
    assert_eq!("full".parse::<TreeShakeLevel>().unwrap(), TreeShakeLevel::Aggressive);
    assert!("unknown".parse::<TreeShakeLevel>().is_err());
}

#[test]
fn test_unused_local_no_init() {
    let source = "local unused\nlocal used = 1\nprint(used)\n";
    let result = shake(
        source,
        TreeShakeLevel::Basic,
        vec![decl("unused"), decl("used"), refer("print"), refer("used")],
        vec![
            local(source, "local unused", &["unused"], vec![]),
            local(source, "local used = 1", &["used"], vec![Value::Number]),
            other(source, "print(used)"),
        ],
    );
    assert!(!result.contains("local unused"), "should remove unused local");
    assert!(result.contains("local used = 1"), "should keep used local");
    assert!(result.contains("print(used)"), "should keep print call");
    assert_eq!(result, "local used = 1\nprint(used)\n");
}

#[test]
fn test_unused_local_with_literal_init() {
    let source = "local unused = 5\nlocal used = 1\nprint(used)\n";
    let result = shake(
        source,
        TreeShakeLevel::Basic,
        vec![decl("unused"), decl("used"), refer("print"), refer("used")],
        vec![
            local(source, "local unused = 5", &["unused"], vec![Value::Number]),
            local(source, "local used = 1", &["used"], vec![Value::Number]),
            other(source, "print(used)"),
        ],
    );
    assert!(!result.contains("local unused = 5"), "should remove unused literal init");
    assert!(result.contains("local used = 1"), "should keep used local");
}

#[test]
fn test_unused_local_function() {
    let source = "local function helper() return 1 end\nlocal function used() return 2 end\nprint(used())\n";
    let result = shake(
        source,
        TreeShakeLevel::Basic,
        vec![decl("helper"), decl("used"), refer("print"), refer("used")],
        vec![
            local_fn(source, "local function helper() return 1 end", "helper"),
            local_fn(source, "local function used() return 2 end", "used"),
            other(source, "print(used())"),
        ],
    );
    assert!(!result.contains("helper"), "should remove unused local function");
    assert!(result.contains("used"), "should keep used function");
}

#[test]
fn test_recursive_function_kept() {
    let source = "local function recurse(n) if n > 0 then return recurse(n - 1) else return 0 end end\nprint(recurse(5))\n";
    let result = shake(
        source,
        TreeShakeLevel::Basic,
        vec![decl("recurse"), refer("n"), refer("recurse"), refer("n"), refer("print"), refer("recurse")],
        vec![
            local_fn(
                source,
                "local function recurse(n) if n > 0 then return recurse(n - 1) else return 0 end end",
                "recurse",
            ),
            other(source, "print(recurse(5))"),
        ],
    );
    assert!(result.contains("recurse"), "should keep recursive function");
}

#[test]
fn test_used_variable_kept() {
    let source = "local x = 1\nlocal y = x + 1\nprint(y)\n";
    let result = shake(
        source,
        TreeShakeLevel::Basic,
        vec![decl("x"), decl("y"), refer("x"), refer("print"), refer("y")],
        vec![
            local(source, "local x = 1", &["x"], vec![Value::Number]),
            local(source, "local y = x + 1", &["y"], vec![Value::Other]),
            other(source, "print(y)"),
        ],
    );
    assert!(result.contains("local x = 1"), "x is used by y's init");
    assert!(result.contains("local y = x + 1"), "y is used by print");
}

#[test]
fn test_mutual_recursion_kept() {
    let source = "local function a() return b() end\nlocal function b() return a() end\nprint(a())\n";
    let result = shake(
        source,
        TreeShakeLevel::Basic,
        vec![decl("a"), refer("b"), decl("b"), refer("a"), refer("print"), refer("a")],
        vec![
            local_fn(source, "local function a() return b() end", "a"),
            local_fn(source, "local function b() return a() end", "b"),
            other(source, "print(a())"),
        ],
    );
    assert!(result.contains("function a()"), "a is used");
    assert!(result.contains("function b()"), "b is called by a");
}

#[test]
fn test_table_return_not_removed() {
    let source = "local t = { a = 1, b = 2 }\nreturn t\n";
    let result = shake(
        source,
        TreeShakeLevel::Basic,
        vec![decl("t"), refer("t")],
        vec![local(source, "local t = { a = 1, b = 2 }", &["t"], vec![Value::Other])],
    );
    assert!(result.contains("local t ="), "table constructor stays (not pure)");
}

#[test]
fn test_syntax_error_returns_original() {
    let source = "syntax error {{{";
    let result = treeshake(source, TreeShakeLevel::Basic, None);
    assert_eq!(result, source);
}

#[test]
fn test_off_level_does_nothing() {
    let source = "local unused = 5\nlocal used = 1\nprint(used)\n";
    let result = shake(
        source,
        TreeShakeLevel::Off,
        vec![decl("unused"), decl("used"), refer("print"), refer("used")],
        vec![
            local(source, "local unused = 5", &["unused"], vec![Value::Number]),
            local(source, "local used = 1", &["used"], vec![Value::Number]),
            other(source, "print(used)"),
        ],
    );
    assert_eq!(result, source);
}

#[test]
fn test_true_false_nil_are_pure() {
    let source = "local a = true\nlocal b = false\nlocal c = nil\nlocal used = 1\nprint(used)\n";
    let result = shake(
        source,
        TreeShakeLevel::Basic,
        vec![
            decl("a"),
            sym("true"),
            decl("b"),
            sym("false"),
            decl("c"),
            sym("nil"),
            decl("used"),
            refer("print"),
            refer("used"),
        ],
        vec![
            local(source, "local a = true", &["a"], vec![Value::Symbol("true".to_string())]),
            local(source, "local b = false", &["b"], vec![Value::Symbol("false".to_string())]),
            local(source, "local c = nil", &["c"], vec![Value::Symbol("nil".to_string())]),
            local(source, "local used = 1", &["used"], vec![Value::Number]),
            other(source, "print(used)"),
        ],
    );
    assert!(!result.contains("local a = true"), "true literal is pure, so removed");
    assert!(!result.contains("local b = false"), "false literal is pure, so removed");
    assert!(!result.contains("local c = nil"), "nil literal is pure, so removed");
    assert!(result.contains("local used = 1"), "should keep used local");
}

#[test]
fn test_side_effect_expression_not_removed() {
    let source = "local x = io.open('file')\nlocal y = 1\nprint(y)\n";
    let result = shake(
        source,
        TreeShakeLevel::Basic,
        vec![decl("x"), refer("io"), decl("y"), refer("print"), refer("y")],
        vec![
            local(source, "local x = io.open('file')", &["x"], vec![Value::Other]),
            local(source, "local y = 1", &["y"], vec![Value::Number]),
            other(source, "print(y)"),
        ],
    );
    // x has a side-effect RHS, should NOT be removed even if unused
    assert!(result.contains("local x = io.open"), "side-effect expression keeps the statement");
    assert!(result.contains("local y = 1"));
}

#[test]
fn test_unused_multiple_locals() {
    let source = "local a, b = 1, 2\nlocal c = 3\nlocal d = 4\nprint(c)\n";
    let result = shake(
        source,
        TreeShakeLevel::Basic,
        vec![decl("a"), decl("b"), decl("c"), decl("d"), refer("print"), refer("c")],
        vec![
            local(source, "local a, b = 1, 2", &["a", "b"], vec![Value::Number, Value::Number]),
            local(source, "local c = 3", &["c"], vec![Value::Number]),
            local(source, "local d = 4", &["d"], vec![Value::Number]),
            other(source, "print(c)"),
        ],
    );
    // a, b are unused but they share a local stmt with pure literals - removed
    assert!(!result.contains("local a, b = 1, 2"), "all names unused and pure -> removed");
    assert!(!result.contains("local d = 4"), "d unused -> removed");
    assert!(result.contains("local c = 3"), "c is used");
    assert_eq!(result, "local c = 3\nprint(c)\n");
}

#[test]
fn test_aggressive_includes_basic() {
    let source = "local unused = 5\nlocal used = 1\nprint(used)\n";
    let result = shake(
        source,
        TreeShakeLevel::Aggressive,
        vec![decl("unused"), decl("used"), refer("print"), refer("used")],
        vec![
            local(source, "local unused = 5", &["unused"], vec![Value::Number]),
            local(source, "local used = 1", &["used"], vec![Value::Number]),
            other(source, "print(used)"),
        ],
    );
    assert!(!result.contains("local unused = 5"));
    assert!(result.contains("local used = 1"));
}

#[test]
fn all_used_returns_preprocessed_source() {
    // `global` declarations go and a final line ending is added even when nothing is removed
    let source = "global x\nlocal y = 1\nprint(y)";
    let usage = LocalUsage { mentions: vec![decl("y"), refer("print"), refer("y")], statements: vec![] };
    assert_eq!(treeshake(source, TreeShakeLevel::Basic, Some(&usage)), "\nlocal y = 1\nprint(y)\n");
}

#[test]
fn semicolon_is_removed_with_statement() {
    let source = "local a = 1; print(2)\nlocal b = 2\nprint(b)\n";
    let usage = LocalUsage {
        mentions: vec![decl("a"), refer("print"), decl("b"), refer("print"), refer("b")],
        statements: vec![
            TopStatement {
                statement: Statement::LocalAssignment { names: vec!["a".to_string()], values: vec![Value::Number] },
                span: Some((0, 11)),
                semicolon_end: Some(12),
            },
            other(source, "print(2)"),
            local(source, "local b = 2", &["b"], vec![Value::Number]),
            other(source, "print(b)"),
        ],
    };
    // the removal takes the statement and its semicolon; the rest of the line stays
    assert_eq!(treeshake(source, TreeShakeLevel::Basic, Some(&usage)), " print(2)\nlocal b = 2\nprint(b)\n");
}

#[test]
fn removal_keeps_later_statements_on_the_line() {
    let source = "local a = 1 local b = 2\nprint(b)\n";
    let result = shake(
        source,
        TreeShakeLevel::Basic,
        vec![decl("a"), decl("b"), refer("print"), refer("b")],
        vec![
            local(source, "local a = 1", &["a"], vec![Value::Number]),
            local(source, "local b = 2", &["b"], vec![Value::Number]),
            other(source, "print(b)"),
        ],
    );
    assert_eq!(result, " local b = 2\nprint(b)\n");
}

#[test]
fn removal_takes_the_line_break_after_blanks() {
    let source = "local a = 1  \nprint(2)\n";
    let result = shake(
        source,
        TreeShakeLevel::Basic,
        vec![decl("a"), refer("print")],
        vec![local(source, "local a = 1", &["a"], vec![Value::Number]), other(source, "print(2)")],
    );
    assert_eq!(result, "print(2)\n");
}

#[test]
fn identifier_tokens_and_purity() {
    assert!(is_identifier_token(" foo "));
    assert!(!is_identifier_token("nil"));
    assert!(!is_identifier_token(" global"));
    assert!(is_pure_expression(&Value::Parenthesized(Box::new(Value::Str))));
    assert!(is_pure_expression(&Value::Symbol(" false ".to_string())));
    assert!(!is_pure_expression(&Value::Symbol("...".to_string())));
    assert!(!is_pure_expression(&Value::Other));
}

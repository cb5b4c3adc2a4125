use lunar_bundler::error::BundlerError;
use lunar_bundler::graph::{DependencyGraph, GraphAction, GraphBuilder, GraphEvent};
use lunar_bundler::resolver::ResolveResult;

// A walk over an in-memory tree of files: `files` gives each path the module
// names it requires, and a module `m` lives at `m.lua` unless `resolve` says
// otherwise.

fn walk(entry: &str, files: &[(&str, &[&str])], externals: &[&str]) -> GraphAction {
    let (mut builder, mut action) = GraphBuilder::start(entry.to_string());
    loop {
        let event = match action {
            GraphAction::Canonicalize(p) => GraphEvent::Canonicalized(p),
            GraphAction::Load { path, module_name } => {
                let (_, required) = files.iter().find(|(p, _)| *p == path).unwrap();
                GraphEvent::Loaded {
                    source: format!("-- {} as {}", path, module_name),
                    required: required.iter().map(|r| r.to_string()).collect(),
                }
            }
            GraphAction::Resolve(name) => {
                if externals.contains(&name.as_str()) {
                    GraphEvent::Resolved(ResolveResult::External)
                } else {
                    let path = format!("{}.lua", name);
                    if files.iter().any(|(p, _)| *p == path) {
                        GraphEvent::Resolved(ResolveResult::Found(path))
                    } else {
                        GraphEvent::Resolved(ResolveResult::NotFound)
                    }
                }
            }
            done => return done,
        };
        action = builder.step(event);
    }
}

fn finished(action: GraphAction) -> DependencyGraph {
    match action {
        GraphAction::Finished(g) => g,
        GraphAction::Failed(e) => panic!("walk failed: {}", e.message()),
        _ => panic!("walk did not finish"),
    }
}

#[test]
fn walk_simple_graph() {
    let g = finished(walk("main.lua", &[("main.lua", &["foo"]), ("foo.lua", &[])], &[]));
    assert_eq!(g.modules.len(), 2);
    assert_eq!(g.modules[0].module_name, "foo");
    assert_eq!(g.modules[0].path, "foo.lua");
    assert_eq!(g.modules[0].source, "-- foo.lua as foo");
    assert_eq!(g.modules[1].module_name, "__entry__");
    assert_eq!(g.modules[1].path, "main.lua");
}

#[test]
fn walk_cycle_detected() {
    match walk("a.lua", &[("a.lua", &["b"]), ("b.lua", &["a"])], &[]) {
        GraphAction::Failed(e) => {
            assert!(matches!(&e, BundlerError::CircularDependency { cycle } if cycle == "a.lua"));
            assert!(e.message().contains("circular dependency"));
        }
        _ => panic!("expected a cycle"),
    }
}

#[test]
fn walk_unresolved_module() {
    match walk("main.lua", &[("main.lua", &["missing"])], &[]) {
        GraphAction::Failed(e) => {
            assert_eq!(e.message(), "cannot resolve module 'missing' required by 'main.lua'");
        }
        _ => panic!("expected an unresolved module"),
    }
}

#[test]
fn walk_diamond_dependency() {
    let g = finished(walk(
        "main.lua",
        &[("main.lua", &["a", "b"]), ("a.lua", &["c"]), ("b.lua", &["c"]), ("c.lua", &[])],
        &[],
    ));
    let names: Vec<&str> = g.modules.iter().map(|m| m.module_name.as_str()).collect();
    assert_eq!(names, vec!["c", "a", "b", "__entry__"]);
    assert_eq!(names.iter().filter(|&&n| n == "c").count(), 1);
}

#[test]
fn walk_externals_are_skipped() {
    let g = finished(walk("main.lua", &[("main.lua", &["socket", "foo"]), ("foo.lua", &["socket"])], &["socket"]));
    let names: Vec<&str> = g.modules.iter().map(|m| m.module_name.as_str()).collect();
    assert_eq!(names, vec!["foo", "__entry__"]);
}

#[test]
fn walk_self_require_is_a_cycle() {
    assert!(matches!(
        walk("main.lua", &[("main.lua", &["main"])], &[]),
        GraphAction::Failed(BundlerError::CircularDependency { .. })
    ));
}

#[test]
fn aborted_work_stops_the_walk() {
    let (mut builder, action) = GraphBuilder::start("main.lua".to_string());
    assert!(matches!(action, GraphAction::Canonicalize(ref p) if p == "main.lua"));
    assert!(matches!(builder.step(GraphEvent::Aborted), GraphAction::Aborted));
}

#[test]
fn requirements_are_handed_out_innermost_first() {
    let (mut builder, action) = GraphBuilder::start("main.lua".to_string());
    assert!(matches!(action, GraphAction::Canonicalize(ref p) if p == "main.lua"));
    let action = builder.step(GraphEvent::Canonicalized("main.lua".to_string()));
    assert!(matches!(action, GraphAction::Load { ref path, .. } if path == "main.lua"));
    let action = builder.step(GraphEvent::Loaded {
        source: "main".to_string(),
        required: vec!["a".to_string(), "b".to_string()],
    });
    assert!(matches!(action, GraphAction::Resolve(ref m) if m == "a"));
    let action = builder.step(GraphEvent::Resolved(ResolveResult::Found("a.lua".to_string())));
    assert!(matches!(action, GraphAction::Canonicalize(ref p) if p == "a.lua"));
    let action = builder.step(GraphEvent::Canonicalized("a.lua".to_string()));
    assert!(matches!(action, GraphAction::Load { ref path, ref module_name } if path == "a.lua" && module_name == "a"));
    let action = builder.step(GraphEvent::Loaded { source: "a".to_string(), required: vec!["c".to_string()] });
    assert!(matches!(action, GraphAction::Resolve(ref m) if m == "c"));
    let action = builder.step(GraphEvent::Resolved(ResolveResult::External));
    assert!(matches!(action, GraphAction::Resolve(ref m) if m == "b"));
    let action = builder.step(GraphEvent::Resolved(ResolveResult::External));
    let g = finished(action);
    assert_eq!(g.modules.len(), 2);
    assert_eq!(g.modules[0].path, "a.lua");
    assert_eq!(g.modules[1].path, "main.lua");
}

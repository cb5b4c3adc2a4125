//! Loader rules: which loaders a file goes through before it is scanned.
use vstd::prelude::*;

use crate::config::{LoaderRule, LoadersConfig};
use crate::resolver::{last_value, override_for};
use crate::text::{lowercase, str_chars};
use crate::{names_production, BuildMode, Loader, LoaderView};

verus! {

/// The build mode that a rule's mode name selects.
pub open spec fn mode_named(s: Seq<char>) -> BuildMode {
    if names_production(lowercase(s)) {
        BuildMode::Production
    } else {
        BuildMode::Development
    }
}

/// Whether a rule with this mode filter applies in `mode`: always without a
/// filter, else when the filter names `mode`.
pub open spec fn rule_in_mode(rule_mode: Option<String>, mode: BuildMode) -> bool {
    match rule_mode {
        Some(m) => mode_named(m@) == mode,
        None => true,
    }
}

/// The command loaders that `names` pick out of `commands`, in order; a name
/// that no command has is skipped.
pub open spec fn named_loaders(names: Seq<String>, commands: Seq<(String, String)>) -> Seq<LoaderView>
    decreases names.len(),
{
    if names.len() == 0 {
        Seq::empty()
    } else {
        let rest = named_loaders(names.drop_last(), commands);
        match override_for(commands, names.last()@) {
            Some(c) => rest.push(LoaderView::Command(c)),
            None => rest,
        }
    }
}

/// The view of a list of rules with their loaders.
pub open spec fn rules_view(v: Seq<(String, Vec<Loader>)>) -> Seq<(Seq<char>, Seq<LoaderView>)> {
    v.map_values(|p: (String, Vec<Loader>)| (p.0@, p.1@.map_values(|l: Loader| l@)))
}

/// The rules that apply in `mode`, each with the command loaders it names;
/// a rule left without any loader is dropped.
pub open spec fn resolved_rules(
    rules: Seq<(String, Vec<String>, Option<String>)>,
    commands: Seq<(String, String)>,
    mode: BuildMode,
) -> Seq<(Seq<char>, Seq<LoaderView>)>
    decreases rules.len(),
{
    if rules.len() == 0 {
        Seq::empty()
    } else {
        let rest = resolved_rules(rules.drop_last(), commands, mode);
        let r = rules.last();
        let ls = named_loaders(r.1@, commands);
        if rule_in_mode(r.2, mode) && ls.len() > 0 {
            rest.push((r.0@, ls))
        } else {
            rest
        }
    }
}

/// The build mode a rule's mode name selects.
fn rule_mode_matches(rule_mode: &Option<String>, mode: BuildMode) -> (b: bool)
    ensures
        b == rule_in_mode(*rule_mode, mode),
{
    match rule_mode {
        Some(m) => BuildMode::from_mode_str(m.as_str()) == mode,
        None => true,
    }
}

/// The command loaders that `names` pick out of `commands`.
fn command_loaders(names: &Vec<String>, commands: &Vec<(String, String)>) -> (r: Vec<Loader>)
    ensures
        r@.map_values(|l: Loader| l@) == named_loaders(names@, commands@),
{
    let mut r: Vec<Loader> = Vec::new();
    let mut k: usize = 0;
    while k < names.len()
        invariant
            k <= names@.len(),
            r@.map_values(|l: Loader| l@) == named_loaders(names@.take(k as int), commands@),
        decreases names@.len() - k,
    {
        let ghost before = r@.map_values(|l: Loader| l@);
        assert(names@.take(k + 1).drop_last() == names@.take(k as int));
        assert(names@.take(k + 1).last() == names@[k as int]);
        match last_value(commands, names[k].as_str()) {
            Some(cmd) => {
                r.push(Loader::Command(cmd));
                assert(r@.map_values(|l: Loader| l@) =~= before.push(r@.last()@));
            },
            None => {},
        }
        k = k + 1;
    }
    assert(names@.take(names@.len() as int) == names@);
    r
}

/// Resolve config-based loader rules into direct (pattern, loaders) pairs:
/// rules whose mode filter names another build mode are left out, the named
/// loaders are looked up among the commands (unknown names are skipped), and
/// a rule left without loaders is dropped.
pub fn resolve_rules(
    rules: &Vec<(String, Vec<String>, Option<String>)>,
    commands: &Vec<(String, String)>,
    mode: &BuildMode,
) -> (r: Vec<(String, Vec<Loader>)>)
    ensures
        rules_view(r@) == resolved_rules(rules@, commands@, *mode),
{
    let mut resolved: Vec<(String, Vec<Loader>)> = Vec::new();
    let mut k: usize = 0;
    while k < rules.len()
        invariant
            k <= rules@.len(),
            rules_view(resolved@) == resolved_rules(rules@.take(k as int), commands@, *mode),
        decreases rules@.len() - k,
    {
        let ghost before = rules_view(resolved@);
        assert(rules@.take(k + 1).drop_last() == rules@.take(k as int));
        assert(rules@.take(k + 1).last() == rules@[k as int]);
        let rule = &rules[k];
        if rule_mode_matches(&rule.2, *mode) {
            let loaders = command_loaders(&rule.1, commands);
            if loaders.len() > 0 {
                resolved.push((rule.0.clone(), loaders));
                assert(rules_view(resolved@) =~= before.push(rules_view(resolved@).last()));
            }
        }
        k = k + 1;
    }
    assert(rules@.take(rules@.len() as int) == rules@);
    resolved
}

/// The loaders that the names in a rule's `use` list stand for: `@moonscript`
/// and `@teal` are the built-in compilers, another name that starts with `@`
/// is skipped, and any other name is looked up among the commands (and
/// skipped when no command has it).
pub open spec fn used_loaders(names: Seq<String>, commands: Seq<(String, String)>) -> Seq<LoaderView>
    decreases names.len(),
{
    if names.len() == 0 {
        Seq::empty()
    } else {
        let rest = used_loaders(names.drop_last(), commands);
        let n = names.last()@;
        if n.len() > 0 && n[0] == '@' {
            if n == "@moonscript"@ {
                rest.push(LoaderView::Moonscript)
            } else if n == "@teal"@ {
                rest.push(LoaderView::Teal)
            } else {
                rest
            }
        } else {
            match override_for(commands, n) {
                Some(c) => rest.push(LoaderView::Command(c)),
                None => rest,
            }
        }
    }
}

/// The loader chain of one configured rule: the loaders of its `use` list,
/// then its inline `run` command.
pub open spec fn rule_chain(rule: LoaderRule, commands: Seq<(String, String)>) -> Seq<LoaderView> {
    let used = match rule.use_ {
        Some(names) => used_loaders(names@, commands),
        None => Seq::empty(),
    };
    match rule.run {
        Some(cmd) => used.push(LoaderView::Command(cmd@)),
        None => used,
    }
}

/// The configured rules that apply in `mode`, each with its loader chain; a
/// rule whose chain is empty is dropped.
pub open spec fn configured_rules(
    rules: Seq<LoaderRule>,
    commands: Seq<(String, String)>,
    mode: BuildMode,
) -> Seq<(Seq<char>, Seq<LoaderView>)>
    decreases rules.len(),
{
    if rules.len() == 0 {
        Seq::empty()
    } else {
        let rest = configured_rules(rules.drop_last(), commands, mode);
        let r = rules.last();
        let chain = rule_chain(r, commands);
        if rule_in_mode(r.mode, mode) && chain.len() > 0 {
            rest.push((r.test@, chain))
        } else {
            rest
        }
    }
}

/// The commands of a `[loaders]` table, none when it has no `commands`.
pub open spec fn commands_of(cfg: LoadersConfig) -> Seq<(String, String)> {
    match cfg.commands {
        Some(c) => c@,
        None => Seq::empty(),
    }
}

/// The rules of a `[loaders]` table that apply in `mode`, with their chains.
pub open spec fn spec_config_loaders(cfg: LoadersConfig, mode: BuildMode) -> Seq<(Seq<char>, Seq<LoaderView>)> {
    match cfg.rules {
        Some(rules) => configured_rules(rules@, commands_of(cfg), mode),
        None => Seq::empty(),
    }
}

/// The loaders that the names of a `use` list stand for.
fn use_list_loaders(names: &Vec<String>, commands: &Vec<(String, String)>) -> (r: Vec<Loader>)
    ensures
        r@.map_values(|l: Loader| l@) == used_loaders(names@, commands@),
{
    let mut r: Vec<Loader> = Vec::new();
    let mut k: usize = 0;
    while k < names.len()
        invariant
            k <= names@.len(),
            r@.map_values(|l: Loader| l@) == used_loaders(names@.take(k as int), commands@),
        decreases names@.len() - k,
    {
        let ghost before = r@.map_values(|l: Loader| l@);
        assert(names@.take(k + 1).drop_last() == names@.take(k as int));
        assert(names@.take(k + 1).last() == names@[k as int]);
        let name = &names[k];
        let chars = str_chars(name.as_str());
        if chars.len() > 0 && chars[0] == '@' {
            if crate::text::chars_eq_str(&chars, "@moonscript") {
                r.push(Loader::Moonscript);
            } else if crate::text::chars_eq_str(&chars, "@teal") {
                r.push(Loader::Teal);
            }
        } else {
            match last_value(commands, name.as_str()) {
                Some(cmd) => r.push(Loader::Command(cmd)),
                None => {},
            }
        }
        assert(r@.map_values(|l: Loader| l@) =~= used_loaders(names@.take(k + 1), commands@));
        k = k + 1;
    }
    assert(names@.take(names@.len() as int) == names@);
    r
}

/// The loader chain of one configured rule.
fn chain_of(rule: &LoaderRule, commands: &Vec<(String, String)>) -> (r: Vec<Loader>)
    ensures
        r@.map_values(|l: Loader| l@) == rule_chain(*rule, commands@),
{
    let mut chain = match &rule.use_ {
        Some(names) => use_list_loaders(names, commands),
        None => Vec::new(),
    };
    let ghost used = chain@.map_values(|l: Loader| l@);
    match &rule.run {
        Some(cmd) => {
            chain.push(Loader::Command(cmd.clone()));
            assert(chain@.map_values(|l: Loader| l@) =~= used.push(LoaderView::Command(cmd@)));
        },
        None => {
            assert(chain@.map_values(|l: Loader| l@) =~= used);
        },
    }
    chain
}

/// The loader rules of a `[loaders]` table for a build in `mode`: each rule
/// whose mode filter (if any) names `mode`, with the loaders of its `use`
/// list (`@moonscript` and `@teal` built in, other names looked up among
/// the commands, unknown ones skipped) followed by its inline `run` command;
/// a rule left without loaders is dropped.
pub fn config_loaders(cfg: &LoadersConfig, mode: &BuildMode) -> (r: Vec<(String, Vec<Loader>)>)
    ensures
        rules_view(r@) == spec_config_loaders(*cfg, *mode),
{
    let no_commands: Vec<(String, String)> = Vec::new();
    let commands = match &cfg.commands {
        Some(c) => c,
        None => &no_commands,
    };
    assert(commands@ == commands_of(*cfg));
    let mut resolved: Vec<(String, Vec<Loader>)> = Vec::new();
    match &cfg.rules {
        None => {},
        Some(rules) => {
            let mut k: usize = 0;
            while k < rules.len()
                invariant
                    k <= rules@.len(),
                    rules_view(resolved@) == configured_rules(rules@.take(k as int), commands@, *mode),
                decreases rules@.len() - k,
            {
                let ghost before = rules_view(resolved@);
                assert(rules@.take(k + 1).drop_last() == rules@.take(k as int));
                assert(rules@.take(k + 1).last() == rules@[k as int]);
                let rule = &rules[k];
                if rule_mode_matches(&rule.mode, *mode) {
                    let chain = chain_of(rule, commands);
                    if chain.len() > 0 {
                        resolved.push((rule.test.clone(), chain));
                        assert(rules_view(resolved@) =~= before.push(rules_view(resolved@).last()));
                    }
                }
                k = k + 1;
            }
            assert(rules@.take(rules@.len() as int) == rules@);
        },
    }
    resolved
}

} // verus!

//! How the command line and the configuration file combine into the options
//! of a bundle.
use vstd::prelude::*;

use crate::bundler::string_views;
use crate::compat::{kind_named, CompatIssueKind, CompatLevel};
use crate::config::{Config, ModuleOverride};
use crate::loader::{config_loaders, rules_view, spec_config_loaders};
use crate::paths::{bare_name, last_slash, path_parent, slash_path};
use crate::sandbox::{level_named, SandboxLevel};
use crate::text::{chars_eq_str, str_chars};
use crate::treeshake::TreeShakeLevel;
use crate::{names_production, BuildMode, BundleOptions, Loader};
use crate::text::lowercase;

verus! {

/// What the command line gives a bundle: the entry file, extra search
/// paths, the Lua version, the files to inject, whether to look for LuaRocks
/// trees, and the build mode's name; `None` where the command line is silent.
pub struct CliArgs {
    pub entry: Option<String>,
    pub search_paths: Vec<String>,
    pub lua_version: Option<String>,
    pub inject_top: Option<String>,
    pub inject_bottom: Option<String>,
    pub luarocks: bool,
    pub mode: Option<String>,
}

/// The error when neither the command line nor the configuration names an entry.
pub open spec fn no_entry_message() -> Seq<char> {
    "no entry file specified, consider checking the CLI args or lunar_bundler.jsonc/toml configuration"@
}

/// The entry file: the command line's, else the configuration's.
pub open spec fn chosen_entry(cli: CliArgs, config: Config) -> Option<String> {
    match cli.entry {
        Some(e) => Some(e),
        None => match config.bundle {
            Some(b) => b.entry,
            None => None,
        },
    }
}

/// The Lua version: the command line's, else the configuration's, else `55`.
pub open spec fn chosen_lua_version(cli: CliArgs, config: Config) -> Seq<char> {
    match cli.lua_version {
        Some(v) => v@,
        None => match config.bundle {
            Some(b) => match b.lua_version {
                Some(v) => v@,
                None => "55"@,
            },
            None => "55"@,
        },
    }
}

/// The build mode's name: the command line's, else the configuration's, else
/// `development`.
pub open spec fn chosen_mode_name(cli: CliArgs, config: Config) -> Seq<char> {
    match cli.mode {
        Some(m) => m@,
        None => match config.bundle {
            Some(b) => match b.mode {
                Some(m) => m@,
                None => "development"@,
            },
            None => "development"@,
        },
    }
}

/// The file to inject at the top: the command line's, else the configuration's.
pub open spec fn chosen_inject_top(cli: CliArgs, config: Config) -> Option<String> {
    match cli.inject_top {
        Some(t) => Some(t),
        None => match config.inject {
            Some(i) => i.top,
            None => None,
        },
    }
}

/// The file to inject at the bottom: the command line's, else the configuration's.
pub open spec fn chosen_inject_bottom(cli: CliArgs, config: Config) -> Option<String> {
    match cli.inject_bottom {
        Some(t) => Some(t),
        None => match config.inject {
            Some(i) => i.bottom,
            None => None,
        },
    }
}

/// The search paths before the entry's directory: the command line's, then
/// the configuration's.
pub open spec fn listed_search_paths(cli: CliArgs, config: Config) -> Seq<Seq<char>> {
    string_views(cli.search_paths@) + match config.paths {
        Some(p) => match p.search {
            Some(s) => string_views(s@),
            None => Seq::empty(),
        },
        None => Seq::empty(),
    }
}

/// The externals that the configuration lists.
pub open spec fn configured_externals(config: Config) -> Seq<String> {
    match config.resolve {
        Some(r) => match r.externals {
            Some(e) => e@,
            None => Seq::empty(),
        },
        None => Seq::empty(),
    }
}

/// The extensions that the configuration lists.
pub open spec fn configured_extensions(config: Config) -> Seq<String> {
    match config.resolve {
        Some(r) => match r.extensions {
            Some(e) => e@,
            None => Seq::empty(),
        },
        None => Seq::empty(),
    }
}

/// The overrides that the configuration lists, as (module, path) views.
pub open spec fn configured_overrides(config: Config) -> Seq<(Seq<char>, Seq<char>)> {
    match config.resolve {
        Some(r) => match r.overrides {
            Some(o) => o@.map_values(|m: ModuleOverride| (m.module@, m.path@)),
            None => Seq::empty(),
        },
        None => Seq::empty(),
    }
}

/// Whether LuaRocks trees are searched: on the command line or in the configuration.
pub open spec fn luarocks_wanted(cli: CliArgs, config: Config) -> bool {
    cli.luarocks || match config.bundle {
        Some(b) => b.luarocks == Some(true),
        None => false,
    }
}

/// The sandbox level: off without a `[sandbox]` table, else its level's name
/// (`error` when none is given).
pub open spec fn configured_sandbox_level(config: Config) -> SandboxLevel {
    match config.sandbox {
        Some(sb) => match sb.level {
            Some(l) => level_named(l@),
            None => SandboxLevel::Error,
        },
        None => SandboxLevel::Off,
    }
}

/// The denied globals of the `[sandbox]` table.
pub open spec fn configured_deny(config: Config) -> Seq<String> {
    match config.sandbox {
        Some(sb) => match sb.deny {
            Some(d) => d@,
            None => Seq::empty(),
        },
        None => Seq::empty(),
    }
}

/// The compatibility level a name stands for: `warn`, `off`, anything else `error`.
pub open spec fn compat_level_named(s: Seq<char>) -> CompatLevel {
    if s == "warn"@ {
        CompatLevel::Warn
    } else if s == "off"@ {
        CompatLevel::Off
    } else {
        CompatLevel::Error
    }
}

/// The compatibility level: off without a `[compat]` table, else its level's
/// name (`error` when none is given).
pub open spec fn configured_compat_level(config: Config) -> CompatLevel {
    match config.compat {
        Some(c) => match c.level {
            Some(l) => compat_level_named(l@),
            None => CompatLevel::Error,
        },
        None => CompatLevel::Off,
    }
}

/// The kinds that a list of names stands for, names of no kind left out.
pub open spec fn named_kinds(names: Seq<String>) -> Seq<CompatIssueKind>
    decreases names.len(),
{
    if names.len() == 0 {
        Seq::empty()
    } else {
        let rest = named_kinds(names.drop_last());
        match kind_named(names.last()@) {
            Some(k) => rest.push(k),
            None => rest,
        }
    }
}

/// The compatibility checks that the `[compat]` table skips.
pub open spec fn configured_ignore(config: Config) -> Seq<CompatIssueKind> {
    match config.compat {
        Some(c) => match c.ignore {
            Some(i) => named_kinds(i@),
            None => Seq::empty(),
        },
        None => Seq::empty(),
    }
}

/// The loader rules of the configuration for a build in `mode`.
pub open spec fn configured_loaders(config: Config, mode: BuildMode) -> Seq<(Seq<char>, Seq<crate::LoaderView>)> {
    match config.loaders {
        Some(l) => spec_config_loaders(l, mode),
        None => Seq::empty(),
    }
}

/// A copy of a list of strings.
fn clone_strings(v: &Vec<String>) -> (r: Vec<String>)
    ensures
        r@ == v@,
{
    let mut r: Vec<String> = Vec::new();
    let mut k: usize = 0;
    while k < v.len()
        invariant
            k <= v@.len(),
            r@ == v@.take(k as int),
        decreases v@.len() - k,
    {
        r.push(v[k].clone());
        k = k + 1;
        assert(r@ =~= v@.take(k as int));
    }
    assert(v@.take(v@.len() as int) == v@);
    r
}

/// The kinds that a list of names stands for.
fn parse_kinds(names: &Vec<String>) -> (r: Vec<CompatIssueKind>)
    ensures
        r@ == named_kinds(names@),
{
    let mut r: Vec<CompatIssueKind> = Vec::new();
    let mut k: usize = 0;
    while k < names.len()
        invariant
            k <= names@.len(),
            r@ == named_kinds(names@.take(k as int)),
        decreases names@.len() - k,
    {
        assert(names@.take(k + 1).drop_last() == names@.take(k as int));
        assert(names@.take(k + 1).last() == names@[k as int]);
        match CompatIssueKind::parse_kind(names[k].as_str()) {
            Some(kind) => r.push(kind),
            None => {},
        }
        k = k + 1;
    }
    assert(names@.take(names@.len() as int) == names@);
    r
}

/// The compatibility level a name stands for.
fn parse_compat_level(s: &str) -> (r: CompatLevel)
    ensures
        r == compat_level_named(s@),
{
    let v = str_chars(s);
    if chars_eq_str(&v, "warn") {
        CompatLevel::Warn
    } else if chars_eq_str(&v, "off") {
        CompatLevel::Off
    } else {
        CompatLevel::Error
    }
}

/// The options of a bundle from the command line and the configuration: the
/// entry (the command line's, else the configuration's; an error when neither
/// names one); the search paths (the command line's, then the
/// configuration's), with the entry's directory in front when the entry has
/// one (the empty path for a bare file name, the text before the last `/`
/// for a plain `/`-separated path); the externals, overrides and extensions of `[resolve]`; LuaRocks when
/// either asks for it; the loader rules of `[loaders]` for the build mode; the sandbox and compatibility settings
/// (off without their tables, `error` when a table gives no level; ignored
/// checks of unknown names dropped); tree shaking off. The Lua version, the
/// build mode and the files to inject are the command line's where it gives
/// them, else the configuration's (`55` and development by default).
pub fn bundle_options(cli: CliArgs, config: &Config) -> (r: Result<BundleOptions, String>)
    ensures
        match r {
            Err(msg) => chosen_entry(cli, *config) is None && msg@ == no_entry_message(),
            Ok(opts) => {
                &&& chosen_entry(cli, *config) == Some(opts.entry)
                &&& (string_views(opts.search_paths@) == listed_search_paths(cli, *config)
                    || (opts.search_paths@.len() > 0 && string_views(opts.search_paths@).drop_first()
                    == listed_search_paths(cli, *config)))
                &&& bare_name(opts.entry@) ==> string_views(opts.search_paths@) == seq![Seq::<char>::empty()]
                    + listed_search_paths(cli, *config)
                &&& slash_path(opts.entry@) && last_slash(opts.entry@, opts.entry@.len() as int) > 0
                    ==> string_views(opts.search_paths@) == seq![
                    opts.entry@.take(last_slash(opts.entry@, opts.entry@.len() as int)),
                ] + listed_search_paths(cli, *config)
                &&& opts.lua_version@ == chosen_lua_version(cli, *config)
                &&& opts.inject_top == chosen_inject_top(cli, *config)
                &&& opts.inject_bottom == chosen_inject_bottom(cli, *config)
                &&& opts.externals@ == configured_externals(*config)
                &&& opts.overrides@.map_values(|p: (String, String)| (p.0@, p.1@)) == configured_overrides(*config)
                &&& opts.luarocks == luarocks_wanted(cli, *config)
                &&& opts.resolve_extensions@ == configured_extensions(*config)
                &&& opts.mode == (if names_production(lowercase(chosen_mode_name(cli, *config))) {
                    BuildMode::Production
                } else {
                    BuildMode::Development
                })
                &&& rules_view(opts.loaders@) == configured_loaders(*config, opts.mode)
                &&& opts.sandbox_level == configured_sandbox_level(*config)
                &&& opts.sandbox_deny@ == configured_deny(*config)
                &&& opts.compat_level == configured_compat_level(*config)
                &&& opts.compat_ignore@ == configured_ignore(*config)
                &&& opts.treeshake_level == TreeShakeLevel::Off
            },
        },
{
    let entry = match &cli.entry {
        Some(e) => e.clone(),
        None => match &config.bundle {
            Some(b) => match &b.entry {
                Some(e) => e.clone(),
                None => {
                    return Err("no entry file specified, consider checking the CLI args or lunar_bundler.jsonc/toml configuration".to_owned());
                },
            },
            None => {
                return Err("no entry file specified, consider checking the CLI args or lunar_bundler.jsonc/toml configuration".to_owned());
            },
        },
    };

    // search paths: the command line's, the configuration's, the entry's directory first
    let mut listed = clone_strings(&cli.search_paths);
    match &config.paths {
        Some(p) => match &p.search {
            Some(s) => {
                let mut extra = clone_strings(s);
                listed.append(&mut extra);
            },
            None => {},
        },
        None => {},
    }
    assert(string_views(listed@) =~= listed_search_paths(cli, *config));
    let search_paths = match path_parent(entry.as_str()) {
        Some(parent) => {
            let mut v: Vec<String> = Vec::new();
            v.push(parent);
            let ghost tail = listed@;
            v.append(&mut listed);
            assert(string_views(v@).drop_first() =~= string_views(tail));
            v
        },
        None => listed,
    };

    let (externals, extensions, overrides) = match &config.resolve {
        Some(res) => {
            let externals = match &res.externals {
                Some(e) => clone_strings(e),
                None => Vec::new(),
            };
            let extensions = match &res.extensions {
                Some(e) => clone_strings(e),
                None => Vec::new(),
            };
            let mut overrides: Vec<(String, String)> = Vec::new();
            match &res.overrides {
                Some(os) => {
                    let mut k: usize = 0;
                    while k < os.len()
                        invariant
                            k <= os@.len(),
                            overrides@.map_values(|p: (String, String)| (p.0@, p.1@)) == os@.take(k as int).map_values(
                                |m: ModuleOverride| (m.module@, m.path@),
                            ),
                        decreases os@.len() - k,
                    {
                        let ghost before = overrides@.map_values(|p: (String, String)| (p.0@, p.1@));
                        let module = os[k].module.clone();
                        let path = os[k].path.clone();
                        overrides.push((module, path));
                        assert(overrides@.map_values(|p: (String, String)| (p.0@, p.1@)) =~= before.push(
                            (os@[k as int].module@, os@[k as int].path@),
                        ));
                        assert(os@.take(k + 1) =~= os@.take(k as int).push(os@[k as int]));
                        k = k + 1;
                        assert(overrides@.map_values(|p: (String, String)| (p.0@, p.1@)) =~= os@.take(k as int).map_values(
                            |m: ModuleOverride| (m.module@, m.path@),
                        ));
                    }
                    assert(os@.take(os@.len() as int) == os@);
                },
                None => {},
            }
            (externals, extensions, overrides)
        },
        None => (Vec::new(), Vec::new(), Vec::new()),
    };
    assert(overrides@.map_values(|p: (String, String)| (p.0@, p.1@)) =~= configured_overrides(*config));

    let luarocks = cli.luarocks || match &config.bundle {
        Some(b) => match b.luarocks {
            Some(l) => l,
            None => false,
        },
        None => false,
    };
    let mode_name = match &cli.mode {
        Some(m) => m.clone(),
        None => match &config.bundle {
            Some(b) => match &b.mode {
                Some(m) => m.clone(),
                None => "development".to_owned(),
            },
            None => "development".to_owned(),
        },
    };
    let mode = BuildMode::from_mode_str(mode_name.as_str());
    let lua_version = match &cli.lua_version {
        Some(v) => v.clone(),
        None => match &config.bundle {
            Some(b) => match &b.lua_version {
                Some(v) => v.clone(),
                None => "55".to_owned(),
            },
            None => "55".to_owned(),
        },
    };
    let inject_top = match &cli.inject_top {
        Some(t) => Some(t.clone()),
        None => match &config.inject {
            Some(i) => match &i.top {
                Some(t) => Some(t.clone()),
                None => None,
            },
            None => None,
        },
    };
    let inject_bottom = match &cli.inject_bottom {
        Some(t) => Some(t.clone()),
        None => match &config.inject {
            Some(i) => match &i.bottom {
                Some(t) => Some(t.clone()),
                None => None,
            },
            None => None,
        },
    };
    let loaders: Vec<(String, Vec<Loader>)> = match &config.loaders {
        Some(l) => config_loaders(l, &mode),
        None => Vec::new(),
    };
    assert(rules_view(loaders@) =~= configured_loaders(*config, mode));

    let (sandbox_level, sandbox_deny) = match &config.sandbox {
        Some(sb) => {
            let level = match &sb.level {
                Some(l) => SandboxLevel::parse_level(l.as_str()),
                None => SandboxLevel::Error,
            };
            let deny = match &sb.deny {
                Some(d) => clone_strings(d),
                None => Vec::new(),
            };
            (level, deny)
        },
        None => (SandboxLevel::Off, Vec::new()),
    };

    let (compat_level, compat_ignore) = match &config.compat {
        Some(c) => {
            let level = match &c.level {
                Some(l) => parse_compat_level(l.as_str()),
                None => CompatLevel::Error,
            };
            let ignore = match &c.ignore {
                Some(i) => parse_kinds(i),
                None => Vec::new(),
            };
            (level, ignore)
        },
        None => (CompatLevel::Off, Vec::new()),
    };

    Ok(BundleOptions {
        entry,
        search_paths,
        lua_version,
        inject_top,
        inject_bottom,
        externals,
        overrides,
        luarocks,
        resolve_extensions: extensions,
        mode,
        loaders,
        sandbox_level,
        sandbox_deny,
        compat_level,
        compat_ignore,
        treeshake_level: TreeShakeLevel::Off,
    })
}

/// How the configuration sets the compatibility check: without a `[compat]`
/// table it is off; with one, a level named `off` turns it off, `warn`
/// makes its findings warnings, and any other name, or none, makes them
/// errors.
pub proof fn lemma_compat_level_names(config: Config)
    ensures
        config.compat is None ==> configured_compat_level(config) is Off,
        config.compat matches Some(c) && c.level is None ==> configured_compat_level(config) is Error,
        config.compat is Some && config.compat.unwrap().level is Some ==> {
            let l = config.compat.unwrap().level.unwrap();
            &&& (configured_compat_level(config) is Off <==> l@ == seq!['o', 'f', 'f'])
            &&& (configured_compat_level(config) is Warn <==> l@ == seq!['w', 'a', 'r', 'n'])
            &&& (configured_compat_level(config) is Error <==> l@ != seq!['o', 'f', 'f'] && l@ != seq![
                'w',
                'a',
                'r',
                'n',
            ])
        },
{
    reveal_strlit("off");
    reveal_strlit("warn");
    assert(seq!['o', 'f', 'f'] =~= "off"@);
    assert(seq!['w', 'a', 'r', 'n'] =~= "warn"@);
    assert(seq!['o', 'f', 'f'] != seq!['w', 'a', 'r', 'n']) by {
        assert(seq!['o', 'f', 'f'].len() != seq!['w', 'a', 'r', 'n'].len());
    }
    match config.compat {
        Some(c) => match c.level {
            Some(l) => {
                assert(configured_compat_level(config) == compat_level_named(l@));
            },
            None => {},
        },
        None => {},
    }
}

} // verus!

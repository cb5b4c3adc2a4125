//! A Lua bundler: walks `require()` calls from an entry file and emits a
//! single Lua file with a small runtime shim that replaces `require()`.
use vstd::prelude::*;

pub mod bundler;
pub mod cli;
pub mod compat;
pub mod config;
pub mod emitter;
pub mod error;
pub mod graph;
pub mod loader;
pub mod luarocks;
pub mod minify;
pub mod paths;
pub mod preprocessor;
pub mod resolver;
pub mod sandbox;
pub mod scaffold;
pub mod scanner;
pub mod sourcemap;
pub mod text;
pub mod treeshake;

use crate::bundler::BundlerOptions;
use crate::compat::{CompatIssueKind, CompatLevel};
use crate::sandbox::SandboxLevel;
use crate::text::{lowercase, to_lowercase};
use crate::treeshake::TreeShakeLevel;

verus! {

/// Development builds keep module names in errors and emit a source map hint;
/// production builds are minified.
#[derive(Debug, Clone, Copy, PartialEq, Eq, Structural)]
pub enum BuildMode {
    Development,
    Production,
}

impl Default for BuildMode {
    fn default() -> (r: Self)
        ensures
            r == BuildMode::Development,
    {
        BuildMode::Development
    }
}

/// Whether a mode name, lowercased, names a production build.
pub open spec fn names_production(lowered: Seq<char>) -> bool {
    lowered == "production"@ || lowered == "prod"@ || lowered == "release"@
}

impl BuildMode {
    /// The build mode a name stands for: `production`, `prod` or `release`,
    /// in any case, mean production; anything else development.
    pub fn from_mode_str(s: &str) -> (r: Self)
        ensures
            r == (if names_production(lowercase(s@)) {
                BuildMode::Production
            } else {
                BuildMode::Development
            }),
    {
        let lowered = to_lowercase(s);
        Self::from_lowered_name(lowered.as_str())
    }

    /// The build mode an already lowercased name stands for: `production`,
    /// `prod` or `release` mean production; anything else development.
    pub fn from_lowered_name(lowered: &str) -> (r: Self)
        ensures
            r == (if names_production(lowered@) {
                BuildMode::Production
            } else {
                BuildMode::Development
            }),
    {
        let v = crate::text::str_chars(lowered);
        if crate::text::chars_eq_str(&v, "production") || crate::text::chars_eq_str(&v, "prod")
            || crate::text::chars_eq_str(&v, "release") {
            BuildMode::Production
        } else {
            BuildMode::Development
        }
    }
}

/// A loader that turns a module's source into Lua before it is scanned: the
/// Moonscript compiler, the Teal compiler, a shell command that reads the
/// source on stdin and writes the result to stdout, or a function that the
/// caller supplies, by its place in the caller's list of loader functions.
pub enum Loader {
    Moonscript,
    Teal,
    Command(String),
    Custom(usize),
}

/// A loader as contracts speak of it.
pub ghost enum LoaderView {
    Moonscript,
    Teal,
    Command(Seq<char>),
    Custom(usize),
}

impl View for Loader {
    type V = LoaderView;

    open spec fn view(&self) -> LoaderView {
        match self {
            Loader::Moonscript => LoaderView::Moonscript,
            Loader::Teal => LoaderView::Teal,
            Loader::Command(c) => LoaderView::Command(c@),
            Loader::Custom(i) => LoaderView::Custom(*i),
        }
    }
}

impl Loader {
    /// A copy of this loader.
    pub fn duplicate(&self) -> (r: Self)
        ensures
            r@ == self@,
    {
        match self {
            Loader::Moonscript => Loader::Moonscript,
            Loader::Teal => Loader::Teal,
            Loader::Command(c) => Loader::Command(c.clone()),
            Loader::Custom(i) => Loader::Custom(*i),
        }
    }
}

/// What a loader is handed: the module's source, its path, its module name
/// and the build mode.
pub struct LoaderContext {
    pub source: String,
    pub path: String,
    pub module_name: String,
    pub mode: BuildMode,
}

/// The options of a bundle as a caller gives them: paths of the entry and of
/// the files to inject, whether to look for LuaRocks trees, and the rest of
/// the bundler's settings.
pub struct BundleOptions {
    pub entry: String,
    pub search_paths: Vec<String>,
    pub lua_version: String,
    pub inject_top: Option<String>,
    pub inject_bottom: Option<String>,
    pub externals: Vec<String>,
    pub overrides: Vec<(String, String)>,
    pub luarocks: bool,
    pub resolve_extensions: Vec<String>,
    pub mode: BuildMode,
    pub loaders: Vec<(String, Vec<Loader>)>,
    pub sandbox_level: SandboxLevel,
    pub sandbox_deny: Vec<String>,
    pub compat_level: CompatLevel,
    pub compat_ignore: Vec<CompatIssueKind>,
    pub treeshake_level: TreeShakeLevel,
}

impl Default for BundleOptions {
    fn default() -> (r: Self)
        ensures
            r.entry@.len() == 0,
            r.search_paths@.len() == 0,
            r.lua_version@ == "55"@,
            r.inject_top is None,
            r.inject_bottom is None,
            r.externals@.len() == 0,
            r.overrides@.len() == 0,
            !r.luarocks,
            r.resolve_extensions@.len() == 0,
            r.mode == BuildMode::Development,
            r.loaders@.len() == 0,
            r.sandbox_level == SandboxLevel::Off,
            r.sandbox_deny@.len() == 0,
            r.compat_level == CompatLevel::Off,
            r.compat_ignore@.len() == 0,
            r.treeshake_level == TreeShakeLevel::Off,
    {
        BundleOptions {
            entry: String::new(),
            search_paths: Vec::new(),
            lua_version: "55".to_owned(),
            inject_top: None,
            inject_bottom: None,
            externals: Vec::new(),
            overrides: Vec::new(),
            luarocks: false,
            resolve_extensions: Vec::new(),
            mode: BuildMode::Development,
            loaders: Vec::new(),
            sandbox_level: SandboxLevel::Off,
            sandbox_deny: Vec::new(),
            compat_level: CompatLevel::Off,
            compat_ignore: Vec::new(),
            treeshake_level: TreeShakeLevel::Off,
        }
    }
}

/// A finished bundle: its text, its source map, the number of modules
/// besides the entry, and the entry's path.
pub struct BundleResult {
    pub output: String,
    pub sourcemap: String,
    pub module_count: usize,
    pub entry: String,
}

impl BundleOptions {
    /// The bundler's settings for these options, given the contents of the
    /// files to inject and the LuaRocks paths that were found: those paths
    /// follow the search paths when LuaRocks is on; everything else is
    /// handed on as it is.
    pub fn bundler_options(
        self,
        inject_top: Option<String>,
        inject_bottom: Option<String>,
        luarocks_paths: Vec<String>,
    ) -> (r: BundlerOptions)
        ensures
            r.entry == self.entry,
            r.search_paths@ == (if self.luarocks {
                self.search_paths@ + luarocks_paths@
            } else {
                self.search_paths@
            }),
            r.lua_version == self.lua_version,
            r.inject_top == inject_top,
            r.inject_bottom == inject_bottom,
            r.externals == self.externals,
            r.overrides == self.overrides,
            r.resolve_extensions == self.resolve_extensions,
            r.loaders == self.loaders,
            r.mode == self.mode,
            r.sandbox_level == self.sandbox_level,
            r.sandbox_deny == self.sandbox_deny,
            r.compat_level == self.compat_level,
            r.compat_ignore == self.compat_ignore,
            r.treeshake_level == self.treeshake_level,
    {
        let mut search_paths = self.search_paths;
        if self.luarocks {
            let mut extra = luarocks_paths;
            search_paths.append(&mut extra);
        }
        BundlerOptions {
            entry: self.entry,
            search_paths,
            lua_version: self.lua_version,
            inject_top,
            inject_bottom,
            externals: self.externals,
            overrides: self.overrides,
            resolve_extensions: self.resolve_extensions,
            loaders: self.loaders,
            mode: self.mode,
            sandbox_level: self.sandbox_level,
            sandbox_deny: self.sandbox_deny,
            compat_level: self.compat_level,
            compat_ignore: self.compat_ignore,
            treeshake_level: self.treeshake_level,
        }
    }
}

} // verus!

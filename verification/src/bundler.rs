//! Bundling after the dependency walk: the sandbox and compatibility
//! verdicts, tree shaking, minification and emission.
use vstd::prelude::*;

use crate::compat::{kind_name, CompatIssue, CompatIssueKind, CompatLevel};
use crate::emitter::{
    can_emit, emittable, module_views, spec_bundle_map, spec_bundle_text, text_view, Emitter, ModuleView,
};
use crate::graph::{DependencyGraph, Module};
use crate::minify::{minify_lua, spec_minify};
use crate::preprocessor::{
    has_global_decl, is_global_decl, lemma_preprocess_strips_globals, preprocess, spec_has_global_decl, spec_preprocess,
};
use crate::paths::{bare_name, last_component, last_slash, lemma_last_slash, path_file_name, plain_file_path};
use crate::resolver::Resolver;
use crate::sandbox::{SandboxLevel, SandboxViolation};
use crate::sourcemap::join;
use crate::text::{chars_to_string, decimal, lines, push_decimal, push_str};
use crate::treeshake::{spec_treeshake, treeshake, LocalUsage, TreeShakeLevel};
use crate::{BuildMode, Loader, LoaderView};

verus! {

/// The settings of a bundle.
pub struct BundlerOptions {
    pub entry: String,
    pub search_paths: Vec<String>,
    pub lua_version: String,
    pub inject_top: Option<String>,
    pub inject_bottom: Option<String>,
    pub externals: Vec<String>,
    pub overrides: Vec<(String, String)>,
    pub resolve_extensions: Vec<String>,
    pub loaders: Vec<(String, Vec<Loader>)>,
    pub mode: BuildMode,
    pub sandbox_level: SandboxLevel,
    pub sandbox_deny: Vec<String>,
    pub compat_level: CompatLevel,
    pub compat_ignore: Vec<CompatIssueKind>,
    pub treeshake_level: TreeShakeLevel,
}

/// The bundle text, its source map, and the number of modules besides the entry.
pub struct BundleOutput {
    pub output: String,
    pub sourcemap: String,
    pub module_count: usize,
}

/// What the checks found in one module of the graph: its sandbox violations,
/// its compatibility issues, and (for tree shaking) what the parser found in
/// the preprocessed form of its preprocessed source, `None` when it did not
/// parse.
pub struct ModuleReport {
    pub violations: Vec<SandboxViolation>,
    pub issues: Vec<CompatIssue>,
    pub usage: Option<LocalUsage>,
}

/// Whether `c` means more than itself in a glob pattern: `*`, `?`, `[`, `{`,
/// the escape `\\`, and `/`, which matches any of the platform's separators.
pub open spec fn glob_special(c: char) -> bool {
    c == '*' || c == '?' || c == '[' || c == '{' || c == '\\' || c == '/'
}

/// Whether no character of `p` is special in a glob pattern.
pub open spec fn literal_chars(p: Seq<char>) -> bool {
    forall|i: int| 0 <= i < p.len() ==> !glob_special(#[trigger] p[i])
}

/// A glob pattern that is a plain name: no special character and no leading
/// `!` (which negates a pattern).
pub open spec fn plain_glob(p: Seq<char>) -> bool {
    literal_chars(p) && !(p.len() > 0 && p[0] == '!')
}

/// A glob pattern made of `*` and a plain suffix, such as `*.moon`.
pub open spec fn star_glob(p: Seq<char>) -> bool {
    p.len() > 0 && p[0] == '*' && literal_chars(p.drop_first())
}

/// Whether `s` holds a `/`.
pub open spec fn has_slash(s: Seq<char>) -> bool {
    exists|i: int| 0 <= i < s.len() && s[i] == '/'
}

/// Whether `s` holds a `/` or a `\\`.
pub open spec fn has_separator(s: Seq<char>) -> bool {
    exists|i: int| 0 <= i < s.len() && (s[i] == '/' || s[i] == '\\')
}

/// Whether `s` ends with `suffix`.
pub open spec fn ends_with(s: Seq<char>, suffix: Seq<char>) -> bool {
    suffix.len() <= s.len() && s.subrange(s.len() - suffix.len(), s.len() as int) == suffix
}

/// `glob_match::glob_match`: whether `path` matches the glob `pattern`. The
/// crate's matcher treats the platform's path separators specially
/// (`std::path::is_separator`), so only two shapes of pattern are stated,
/// as its source decides them on every platform: a plain name matches
/// exactly itself, and `*` followed by a plain suffix matches a path without
/// `/` or `\\` exactly when the path ends with the suffix, and never a path
/// holding a `/` (a separator everywhere, which `*` does not cross and the
/// suffix does not hold). Other patterns are left unsaid.
#[verifier::external_body]
fn glob_match(pattern: &str, path: &str) -> (r: bool)
    ensures
        plain_glob(pattern@) ==> (r == (pattern@ == path@)),
        star_glob(pattern@) && !has_separator(path@) ==> (r == ends_with(path@, pattern@.drop_first())),
        star_glob(pattern@) && has_slash(path@) ==> !r,
{
    glob_match::glob_match(pattern, path)
}

/// Whether a loader rule's `test` pattern applies to the file at `path`: it
/// matches the whole path or the file name. For a pattern that is a plain
/// name, or `*` and a plain suffix, the answer is exact for a path whose file
/// name every platform reads alike (`plain_file_path`): a plain name must be
/// the path or its last component, and `*` and a suffix must end the last
/// component. On other paths the path itself still decides when it matches.
pub fn rule_applies(pattern: &str, path: &str) -> (r: bool)
    ensures
        plain_glob(pattern@) && pattern@ == path@ ==> r,
        star_glob(pattern@) && !has_separator(path@) && ends_with(path@, pattern@.drop_first()) ==> r,
        bare_name(path@) && plain_glob(pattern@) ==> (r == (pattern@ == path@)),
        bare_name(path@) && star_glob(pattern@) ==> (r == ends_with(path@, pattern@.drop_first())),
        plain_file_path(path@) && plain_glob(pattern@) ==> (r == (pattern@ == path@ || pattern@ == last_component(
            path@,
        ))),
        plain_file_path(path@) && star_glob(pattern@) ==> (r == ends_with(last_component(path@), pattern@.drop_first())),
{
    let file_name = match path_file_name(path) {
        Some(f) => f,
        None => String::new(),
    };
    proof {
        if plain_file_path(path@) {
            let p = path@;
            let k = last_slash(p, p.len() as int);
            lemma_last_slash(p, p.len() as int);
            let last = last_component(p);
            assert(!has_separator(last)) by {
                if has_separator(last) {
                    let i = choose|i: int| 0 <= i < last.len() && (last[i] == '/' || last[i] == '\\');
                    assert(last[i] == p[k + 1 + i]);
                }
            }
            if k < 0 {
                assert(last =~= p);
            } else {
                assert(has_slash(p));
            }
        }
    }
    glob_match(pattern, path) || glob_match(pattern, file_name.as_str())
}

/// The loaders of the rules that `keep` selects, in rule order, each rule's
/// in its own order.
pub open spec fn selected_loaders(rules: Seq<(String, Vec<Loader>)>, keep: Seq<bool>) -> Seq<LoaderView>
    decreases rules.len(),
{
    if rules.len() == 0 || keep.len() != rules.len() {
        Seq::empty()
    } else {
        let rest = selected_loaders(rules.drop_last(), keep.drop_last());
        if keep.last() {
            rest + rules.last().1@.map_values(|l: Loader| l@)
        } else {
            rest
        }
    }
}

/// What is known of whether a rule's pattern applies to `path`, as
/// [`rule_applies`] states it: exactly for a plain name or `*` and a plain
/// suffix on a path whose file name every platform reads alike, and in one
/// direction on other paths.
pub open spec fn rule_verdict(pattern: Seq<char>, path: Seq<char>, b: bool) -> bool {
    &&& plain_glob(pattern) && pattern == path ==> b
    &&& star_glob(pattern) && !has_separator(path) && ends_with(path, pattern.drop_first()) ==> b
    &&& bare_name(path) && plain_glob(pattern) ==> (b == (pattern == path))
    &&& bare_name(path) && star_glob(pattern) ==> (b == ends_with(path, pattern.drop_first()))
    &&& plain_file_path(path) && plain_glob(pattern) ==> (b == (pattern == path || pattern == last_component(path)))
    &&& plain_file_path(path) && star_glob(pattern) ==> (b == ends_with(last_component(path), pattern.drop_first()))
}

/// The loaders of the rules that `keep` selects, in rule order, each rule's
/// in its own order; none when the two lists differ in length.
pub fn select_loaders(rules: &Vec<(String, Vec<Loader>)>, keep: &Vec<bool>) -> (r: Vec<Loader>)
    ensures
        r@.map_values(|l: Loader| l@) == selected_loaders(rules@, keep@),
{
    let mut r: Vec<Loader> = Vec::new();
    if rules.len() != keep.len() {
        assert(r@.map_values(|l: Loader| l@) =~= Seq::<LoaderView>::empty());
        return r;
    }
    let mut k: usize = 0;
    while k < rules.len()
        invariant
            k <= rules@.len(),
            keep@.len() == rules@.len(),
            r@.map_values(|l: Loader| l@) == selected_loaders(rules@.take(k as int), keep@.take(k as int)),
        decreases rules@.len() - k,
    {
        let ghost before = r@.map_values(|l: Loader| l@);
        if keep[k] {
            let loaders = &rules[k].1;
            let mut j: usize = 0;
            while j < loaders.len()
                invariant
                    j <= loaders@.len(),
                    r@.map_values(|l: Loader| l@) == before + loaders@.take(j as int).map_values(|l: Loader| l@),
                decreases loaders@.len() - j,
            {
                let ghost mid = r@.map_values(|l: Loader| l@);
                let d = loaders[j].duplicate();
                r.push(d);
                assert(r@.map_values(|l: Loader| l@) =~= mid.push(loaders@[j as int]@));
                assert(loaders@.take(j + 1).map_values(|l: Loader| l@) =~= loaders@.take(j as int).map_values(
                    |l: Loader| l@,
                ).push(loaders@[j as int]@));
                j = j + 1;
                assert(r@.map_values(|l: Loader| l@) =~= before + loaders@.take(j as int).map_values(|l: Loader| l@));
            }
            assert(loaders@.take(loaders@.len() as int) == loaders@);
        }
        proof {
            assert(keep@.take(k + 1).drop_last() == keep@.take(k as int));
            assert(keep@.take(k + 1).last() == keep@[k as int]);
            assert(rules@.take(k + 1).drop_last() == rules@.take(k as int));
            assert(rules@.take(k + 1).last() == rules@[k as int]);
            assert(r@.map_values(|l: Loader| l@) =~= selected_loaders(rules@.take(k + 1), keep@.take(k + 1)));
        }
        k = k + 1;
    }
    assert(rules@.take(rules@.len() as int) == rules@);
    assert(keep@.take(keep@.len() as int) == keep@);
    r
}

/// The loaders that a module at `path` goes through, in order: those of
/// each rule whose pattern applies to the path, rule after rule. Whether a
/// pattern applies is the glob matcher's answer, known as [`rule_verdict`]
/// says.
pub fn applicable_loaders(rules: &Vec<(String, Vec<Loader>)>, path: &str) -> (r: Vec<Loader>)
    ensures
        exists|keep: Seq<bool>|
            #![trigger selected_loaders(rules@, keep)]
            keep.len() == rules@.len() && (forall|k: int|
                0 <= k < rules@.len() ==> rule_verdict(rules@[k].0@, path@, #[trigger] keep[k]))
                && r@.map_values(|l: Loader| l@) == selected_loaders(rules@, keep),
{
    let mut keep: Vec<bool> = Vec::new();
    let mut k: usize = 0;
    while k < rules.len()
        invariant
            k <= rules@.len(),
            keep@.len() == k,
            forall|j: int| 0 <= j < k ==> rule_verdict(rules@[j].0@, path@, #[trigger] keep@[j]),
        decreases rules@.len() - k,
    {
        let applies = rule_applies(rules[k].0.as_str(), path);
        keep.push(applies);
        k = k + 1;
    }
    let r = select_loaders(rules, &keep);
    assert(forall|j: int| 0 <= j < rules@.len() ==> rule_verdict(rules@[j].0@, path@, #[trigger] keep@[j]));
    r
}

/// The resolver for a bundle: the search paths, externals and overrides of
/// the options, and the extensions to try (`lua` when none are given).
pub fn make_resolver(opts: &BundlerOptions) -> (r: Resolver)
    ensures
        r.search() == opts.search_paths@,
        r.external_entries() == opts.externals@,
        r.override_entries() == opts.overrides@,
        opts.resolve_extensions@.len() == 0 ==> r.extension_list().len() == 1
            && r.extension_list()[0]@ == "lua"@,
        opts.resolve_extensions@.len() > 0 ==> r.extension_list() == opts.resolve_extensions@,
{
    let r = Resolver::new(opts.search_paths.clone(), opts.externals.clone(), clone_pairs(&opts.overrides));
    if opts.resolve_extensions.len() == 0 {
        r
    } else {
        r.with_extensions(opts.resolve_extensions.clone())
    }
}

/// A copy of a list of string pairs.
fn clone_pairs(v: &Vec<(String, String)>) -> (r: Vec<(String, String)>)
    ensures
        r@ == v@,
{
    let mut r: Vec<(String, String)> = Vec::new();
    let mut k: usize = 0;
    while k < v.len()
        invariant
            k <= v@.len(),
            r@ == v@.subrange(0, k as int),
        decreases v@.len() - k,
    {
        r.push((v[k].0.clone(), v[k].1.clone()));
        k = k + 1;
        assert(r@ =~= v@.subrange(0, k as int));
    }
    r
}

/// `path:line: use of denied global 'name'`
pub open spec fn violation_message(path: Seq<char>, v: SandboxViolation) -> Seq<char> {
    path + ":"@ + decimal(v.line as nat) + ": use of denied global '"@ + v.name@ + "'"@
}

/// `path:line: Kind is not supported in Lua version`, with the line counted from one.
pub open spec fn issue_message(path: Seq<char>, i: CompatIssue, version: Seq<char>) -> Seq<char> {
    path + ":"@ + decimal((i.line + 1) as nat) + ": "@ + kind_name(i.kind) + " is not supported in Lua "@
        + version
}

/// The violation messages of the first `k` modules, in order.
pub open spec fn violation_messages(mods: Seq<Module>, reports: Seq<ModuleReport>, k: int) -> Seq<Seq<char>>
    decreases k,
{
    if k <= 0 {
        Seq::empty()
    } else {
        violation_messages(mods, reports, k - 1) + reports[k - 1].violations@.map_values(
            |v: SandboxViolation| violation_message(mods[k - 1].path@, v),
        )
    }
}

/// The compatibility messages of the first `k` modules, in order.
pub open spec fn issue_messages(mods: Seq<Module>, reports: Seq<ModuleReport>, version: Seq<char>, k: int) -> Seq<Seq<char>>
    decreases k,
{
    if k <= 0 {
        Seq::empty()
    } else {
        issue_messages(mods, reports, version, k - 1) + reports[k - 1].issues@.map_values(
            |i: CompatIssue| issue_message(mods[k - 1].path@, i, version),
        )
    }
}

/// Each message with `prefix` in front.
pub open spec fn prefixed(prefix: Seq<char>, msgs: Seq<Seq<char>>) -> Seq<Seq<char>> {
    msgs.map_values(|m: Seq<char>| prefix + m)
}

/// A module's source as emitted: its Lua 5.5 `global` declarations stripped
/// (a source without any is kept as it is), then tree shaken (unless off)
/// and, in production, minified.
pub open spec fn transformed_source(src: Seq<char>, opts: BundlerOptions, report: ModuleReport) -> Seq<char> {
    let pre = if spec_has_global_decl(src) {
        spec_preprocess(src)
    } else {
        src
    };
    let shaken = match opts.treeshake_level {
        TreeShakeLevel::Off => pre,
        _ => spec_treeshake(pre, opts.treeshake_level, report.usage),
    };
    match opts.mode {
        BuildMode::Production => spec_minify(shaken),
        BuildMode::Development => shaken,
    }
}

/// The modules as emitted: sources transformed.
pub open spec fn transformed_views(mods: Seq<Module>, opts: BundlerOptions, reports: Seq<ModuleReport>) -> Seq<ModuleView> {
    Seq::new(
        mods.len(),
        |i: int| (mods[i].path@, mods[i].module_name@, transformed_source(mods[i].source@, opts, reports[i])),
    )
}

/// Whether the sandbox check runs: a level other than off and something denied.
pub open spec fn sandbox_checked(opts: BundlerOptions) -> bool {
    !(opts.sandbox_level is Off) && opts.sandbox_deny@.len() > 0
}

/// The outcome of bundling a walked graph: an error message, or the bundle
/// with the warnings to print.
pub open spec fn spec_finish(
    mods: Seq<Module>,
    opts: BundlerOptions,
    reports: Seq<ModuleReport>,
) -> Result<(Seq<char>, Seq<char>, int, Seq<Seq<char>>), Seq<char>> {
    let vmsgs = violation_messages(mods, reports, mods.len() as int);
    let imsgs = issue_messages(mods, reports, opts.lua_version@, mods.len() as int);
    if sandbox_checked(opts) && vmsgs.len() > 0 && opts.sandbox_level is Error {
        Err("sandbox violations:\n"@ + join(vmsgs, "\n"@))
    } else if !(opts.compat_level is Off) && imsgs.len() > 0 && opts.compat_level is Error {
        Err("compatibility issues:\n"@ + join(imsgs, "\n"@))
    } else {
        let warnings = (if sandbox_checked(opts) && opts.sandbox_level is Warn {
            prefixed("warning: sandbox violation: "@, vmsgs)
        } else {
            Seq::empty()
        }) + (if opts.compat_level is Warn {
            prefixed("warning: compat: "@, imsgs)
        } else {
            Seq::empty()
        });
        let views = transformed_views(mods, opts, reports);
        if !emittable(text_view(opts.inject_top), opts.mode, views) {
            Err("bundle too large to map"@)
        } else {
        Ok((
            spec_bundle_text(text_view(opts.inject_top), text_view(opts.inject_bottom), opts.mode, views),
            spec_bundle_map(text_view(opts.inject_top), opts.mode, views),
            if mods.len() > 0 { mods.len() - 1 } else { 0 },
            warnings,
        ))
        }
    }
}

/// The views of a list of strings.
pub open spec fn string_views(v: Seq<String>) -> Seq<Seq<char>> {
    v.map_values(|s: String| s@)
}

/// A copy of an optional text.
fn clone_text(t: &Option<String>) -> (r: Option<String>)
    ensures
        text_view(r) == text_view(*t),
{
    match t {
        Some(s) => Some(s.clone()),
        None => None,
    }
}

/// The messages joined by line endings, after `header`.
fn joined_message(header: &str, msgs: &Vec<String>) -> (r: String)
    ensures
        r@ == header@ + join(string_views(msgs@), "\n"@),
{
    let ghost parts = string_views(msgs@);
    let mut body: Vec<char> = Vec::new();
    let mut k: usize = 0;
    while k < msgs.len()
        invariant
            k <= msgs@.len(),
            parts == string_views(msgs@),
            body@ == join(parts.take(k as int), "\n"@),
        decreases msgs@.len() - k,
    {
        proof {
            crate::sourcemap::lemma_join_push(parts.take(k as int), parts[k as int], "\n"@);
            assert(parts.take(k as int).push(parts[k as int]) == parts.take(k + 1 as int));
        }
        if k > 0 {
            push_str(&mut body, "\n");
        }
        push_str(&mut body, msgs[k].as_str());
        k = k + 1;
    }
    assert(parts.take(msgs@.len() as int) == parts);
    let mut out: Vec<char> = Vec::new();
    push_str(&mut out, header);
    crate::text::push_chars(&mut out, &body);
    chars_to_string(&out)
}

/// Each message with `prefix` in front.
fn prefix_all(prefix: &str, msgs: &Vec<String>) -> (r: Vec<String>)
    ensures
        string_views(r@) == prefixed(prefix@, string_views(msgs@)),
{
    let mut r: Vec<String> = Vec::new();
    let mut k: usize = 0;
    while k < msgs.len()
        invariant
            k <= msgs@.len(),
            string_views(r@) == prefixed(prefix@, string_views(msgs@)).take(k as int),
        decreases msgs@.len() - k,
    {
        let mut m: Vec<char> = Vec::new();
        push_str(&mut m, prefix);
        push_str(&mut m, msgs[k].as_str());
        let ghost before = string_views(r@);
        r.push(chars_to_string(&m));
        assert(string_views(r@) =~= before.push(prefix@ + msgs@[k as int]@));
        k = k + 1;
        assert(string_views(r@) =~= prefixed(prefix@, string_views(msgs@)).take(k as int));
    }
    assert(prefixed(prefix@, string_views(msgs@)).take(msgs@.len() as int) =~= prefixed(prefix@, string_views(msgs@)));
    r
}

/// The sandbox violation messages of all modules.
fn violation_message_list(mods: &Vec<Module>, reports: &Vec<ModuleReport>) -> (r: Vec<String>)
    requires
        reports@.len() == mods@.len(),
    ensures
        string_views(r@) == violation_messages(mods@, reports@, mods@.len() as int),
{
    let mut r: Vec<String> = Vec::new();
    let mut i: usize = 0;
    while i < mods.len()
        invariant
            i <= mods@.len(),
            reports@.len() == mods@.len(),
            string_views(r@) == violation_messages(mods@, reports@, i as int),
        decreases mods@.len() - i,
    {
        let vs = &reports[i].violations;
        let ghost base = string_views(r@);
        let ghost all = vs@.map_values(|v: SandboxViolation| violation_message(mods@[i as int].path@, v));
        let mut k: usize = 0;
        while k < vs.len()
            invariant
                k <= vs@.len(),
                i < mods@.len(),
                all == vs@.map_values(|v: SandboxViolation| violation_message(mods@[i as int].path@, v)),
                string_views(r@) == base + all.take(k as int),
            decreases vs@.len() - k,
        {
            let mut m: Vec<char> = Vec::new();
            push_str(&mut m, mods[i].path.as_str());
            push_str(&mut m, ":");
            push_decimal(&mut m, vs[k].line);
            push_str(&mut m, ": use of denied global '");
            push_str(&mut m, vs[k].name.as_str());
            push_str(&mut m, "'");
            let ghost before = string_views(r@);
            r.push(chars_to_string(&m));
            assert(string_views(r@) =~= before.push(m@));
            assert(m@ == all[k as int]);
            k = k + 1;
            assert(base + all.take(k as int) =~= (base + all.take(k - 1 as int)).push(all[k - 1]));
        }
        assert(all.take(vs@.len() as int) =~= all);
        i = i + 1;
    }
    r
}

/// The compatibility messages of all modules.
fn issue_message_list(mods: &Vec<Module>, reports: &Vec<ModuleReport>, version: &str) -> (r: Vec<String>)
    requires
        reports@.len() == mods@.len(),
        forall|i: int, k: int|
            0 <= i < reports@.len() && 0 <= k < reports@[i].issues@.len() ==> (#[trigger] reports@[i].issues@[k]).line
                < usize::MAX,
    ensures
        string_views(r@) == issue_messages(mods@, reports@, version@, mods@.len() as int),
{
    let mut r: Vec<String> = Vec::new();
    let mut i: usize = 0;
    while i < mods.len()
        invariant
            i <= mods@.len(),
            reports@.len() == mods@.len(),
            forall|i: int, k: int|
                0 <= i < reports@.len() && 0 <= k < reports@[i].issues@.len() ==> (#[trigger] reports@[i].issues@[k]).line
                    < usize::MAX,
            string_views(r@) == issue_messages(mods@, reports@, version@, i as int),
        decreases mods@.len() - i,
    {
        let is = &reports[i].issues;
        let ghost base = string_views(r@);
        let ghost all = is@.map_values(|x: CompatIssue| issue_message(mods@[i as int].path@, x, version@));
        let mut k: usize = 0;
        while k < is.len()
            invariant
                k <= is@.len(),
                i < mods@.len(),
                reports@.len() == mods@.len(),
                *is == reports@[i as int].issues,
                forall|i: int, k: int|
                    0 <= i < reports@.len() && 0 <= k < reports@[i].issues@.len() ==> (#[trigger] reports@[i].issues@[k]).line
                        < usize::MAX,
                all == is@.map_values(|x: CompatIssue| issue_message(mods@[i as int].path@, x, version@)),
                string_views(r@) == base + all.take(k as int),
            decreases is@.len() - k,
        {
            assert(reports@[i as int].issues@[k as int].line < usize::MAX);
            let mut m: Vec<char> = Vec::new();
            push_str(&mut m, mods[i].path.as_str());
            push_str(&mut m, ":");
            push_decimal(&mut m, is[k].line + 1);
            push_str(&mut m, ": ");
            push_str(&mut m, is[k].kind.name());
            push_str(&mut m, " is not supported in Lua ");
            push_str(&mut m, version);
            let ghost before = string_views(r@);
            r.push(chars_to_string(&m));
            assert(string_views(r@) =~= before.push(m@));
            assert(m@ == all[k as int]);
            k = k + 1;
            assert(base + all.take(k as int) =~= (base + all.take(k - 1 as int)).push(all[k - 1]));
        }
        assert(all.take(is@.len() as int) =~= all);
        i = i + 1;
    }
    r
}

/// A module's source after tree shaking (unless off) and, in production,
/// minification.
fn transform_source(src: &str, opts: &BundlerOptions, report: &ModuleReport) -> (r: String)
    ensures
        r@ == transformed_source(src@, *opts, *report),
{
    let pre = if has_global_decl(src) {
        preprocess(src)
    } else {
        src.to_owned()
    };
    let shaken = match opts.treeshake_level {
        TreeShakeLevel::Off => pre,
        _ => match &report.usage {
            Some(u) => treeshake(pre.as_str(), opts.treeshake_level, Some(u)),
            None => treeshake(pre.as_str(), opts.treeshake_level, None),
        },
    };
    match opts.mode {
        BuildMode::Production => minify_lua(shaken.as_str()),
        BuildMode::Development => shaken,
    }
}

/// Bundles a walked graph: a sandbox or compatibility finding at level
/// `Error` fails with all its messages; at level `Warn` the messages become
/// warnings. Then each module loses its Lua 5.5 `global` declarations, is
/// tree shaken (unless off) and, in production, minified, and the bundle is
/// emitted; a bundle whose lines or modules the source map cannot number
/// fails.
pub fn finish(graph: &DependencyGraph, opts: &BundlerOptions, reports: &Vec<ModuleReport>) -> (r: Result<(BundleOutput, Vec<String>), String>)
    requires
        reports@.len() == graph.modules@.len(),
        forall|i: int, k: int|
            0 <= i < reports@.len() && 0 <= k < reports@[i].issues@.len() ==> (#[trigger] reports@[i].issues@[k]).line
                < usize::MAX,
    ensures
        match r {
            Ok((out, warnings)) => spec_finish(graph.modules@, *opts, reports@) == Ok::<_, Seq<char>>(
                (out.output@, out.sourcemap@, out.module_count as int, string_views(warnings@)),
            ),
            Err(msg) => spec_finish(graph.modules@, *opts, reports@) == Err::<(Seq<char>, Seq<char>, int, Seq<Seq<char>>), _>(msg@),
        },
{
    let mods = &graph.modules;
    let mut warnings: Vec<String> = Vec::new();

    // sandbox check
    let vmsgs = violation_message_list(mods, reports);
    let sandbox_on = match opts.sandbox_level {
        SandboxLevel::Off => false,
        _ => opts.sandbox_deny.len() > 0,
    };
    if sandbox_on && vmsgs.len() > 0 {
        match opts.sandbox_level {
            SandboxLevel::Error => {
                return Err(joined_message("sandbox violations:\n", &vmsgs));
            },
            SandboxLevel::Warn => {
                warnings = prefix_all("warning: sandbox violation: ", &vmsgs);
            },
            SandboxLevel::Off => {},
        }
    }
    let ghost w1 = string_views(warnings@);
    assert(w1 == (if sandbox_checked(*opts) && opts.sandbox_level is Warn {
        prefixed("warning: sandbox violation: "@, string_views(vmsgs@))
    } else {
        Seq::<Seq<char>>::empty()
    }));

    // compatibility check
    let imsgs = issue_message_list(mods, reports, opts.lua_version.as_str());
    let compat_on = match opts.compat_level {
        CompatLevel::Off => false,
        _ => true,
    };
    if compat_on && imsgs.len() > 0 {
        match opts.compat_level {
            CompatLevel::Error => {
                return Err(joined_message("compatibility issues:\n", &imsgs));
            },
            CompatLevel::Warn => {
                let mut extra = prefix_all("warning: compat: ", &imsgs);
                warnings.append(&mut extra);
            },
            CompatLevel::Off => {},
        }
    }
    assert(string_views(warnings@) =~= w1 + (if opts.compat_level is Warn {
        prefixed("warning: compat: "@, string_views(imsgs@))
    } else {
        Seq::<Seq<char>>::empty()
    }));

    // tree shaking, then minification in production
    let mut shaped: Vec<Module> = Vec::new();
    let mut i: usize = 0;
    while i < mods.len()
        invariant
            i <= mods@.len(),
            reports@.len() == mods@.len(),
            module_views(shaped@) == transformed_views(mods@, *opts, reports@).take(i as int),
        decreases mods@.len() - i,
    {
        let source = transform_source(mods[i].source.as_str(), opts, &reports[i]);
        let ghost before = module_views(shaped@);
        shaped.push(Module { path: mods[i].path.clone(), module_name: mods[i].module_name.clone(), source });
        assert(module_views(shaped@) =~= before.push(transformed_views(mods@, *opts, reports@)[i as int]));
        i = i + 1;
        assert(module_views(shaped@) =~= transformed_views(mods@, *opts, reports@).take(i as int));
    }
    assert(transformed_views(mods@, *opts, reports@).take(mods@.len() as int) =~= transformed_views(mods@, *opts, reports@));
    if !can_emit(&opts.inject_top, opts.mode, &shaped) {
        return Err("bundle too large to map".to_owned());
    }
    let module_count = if mods.len() > 0 { mods.len() - 1 } else { 0 };
    let emitter = Emitter::new(clone_text(&opts.inject_top), clone_text(&opts.inject_bottom), &opts.mode);
    let shaped_graph = DependencyGraph { modules: shaped };
    let (output, sourcemap) = emitter.emit(&shaped_graph);
    Ok((BundleOutput { output, sourcemap, module_count }, warnings))
}

/// In a development bundle without tree shaking, no line of a module's code
/// as emitted is a Lua 5.5 `global` declaration, and the module keeps its
/// number of lines.
pub proof fn lemma_emitted_code_has_no_global_lines(src: Seq<char>, opts: BundlerOptions, report: ModuleReport)
    requires
        opts.treeshake_level is Off,
        opts.mode is Development,
    ensures
        lines(transformed_source(src, opts, report)).len() == lines(src).len(),
        forall|i: int|
            0 <= i < lines(transformed_source(src, opts, report)).len() ==> !is_global_decl(
                #[trigger] lines(transformed_source(src, opts, report))[i],
            ),
{
    if spec_has_global_decl(src) {
        assert(transformed_source(src, opts, report) == spec_preprocess(src));
        lemma_preprocess_strips_globals(src);
    } else {
        assert(transformed_source(src, opts, report) == src);
        assert forall|i: int| 0 <= i < lines(src).len() implies !is_global_decl(#[trigger] lines(src)[i]) by {
            if is_global_decl(lines(src)[i]) {
                assert(spec_has_global_decl(src));
            }
        }
    }
}

/// A sandbox violation at level `Error` fails the bundle with every violation
/// message; otherwise a compatibility issue at level `Error` fails it with
/// every issue message.
pub proof fn lemma_error_levels(mods: Seq<Module>, opts: BundlerOptions, reports: Seq<ModuleReport>)
    ensures
        ({
            let vmsgs = violation_messages(mods, reports, mods.len() as int);
            let imsgs = issue_messages(mods, reports, opts.lua_version@, mods.len() as int);
            &&& sandbox_checked(opts) && opts.sandbox_level is Error && vmsgs.len() > 0 ==> spec_finish(mods, opts, reports)
                == Err::<(Seq<char>, Seq<char>, int, Seq<Seq<char>>), Seq<char>>("sandbox violations:\n"@ + join(vmsgs, "\n"@))
            &&& !(sandbox_checked(opts) && opts.sandbox_level is Error && vmsgs.len() > 0) && opts.compat_level is Error
                && imsgs.len() > 0 ==> spec_finish(mods, opts, reports) == Err::<
                (Seq<char>, Seq<char>, int, Seq<Seq<char>>),
                Seq<char>,
            >("compatibility issues:\n"@ + join(imsgs, "\n"@))
        }),
{
}

/// A `Warn` level only adds warnings: the bundle, its source map and its
/// module count are what they are with the checks off.
pub proof fn lemma_warn_only_warns(
    mods: Seq<Module>,
    opts: BundlerOptions,
    quiet: BundlerOptions,
    reports: Seq<ModuleReport>,
)
    requires
        !(opts.sandbox_level is Error),
        !(opts.compat_level is Error),
        quiet.sandbox_level is Off,
        quiet.compat_level is Off,
        quiet.mode == opts.mode,
        quiet.treeshake_level == opts.treeshake_level,
        quiet.inject_top == opts.inject_top,
        quiet.inject_bottom == opts.inject_bottom,
    ensures
        spec_finish(mods, opts, reports) is Ok <==> spec_finish(mods, quiet, reports) is Ok,
        spec_finish(mods, opts, reports) matches Ok(a) ==> spec_finish(mods, quiet, reports) matches Ok(b) && a.0 == b.0
            && a.1 == b.1 && a.2 == b.2,
{
    assert(transformed_views(mods, opts, reports) =~= transformed_views(mods, quiet, reports));
}

} // verus!

//! Emits the bundle: a runtime shim that replaces `require()`, each dependency
//! wrapped in a closure registered under its module name, then the entry
//! module inlined, plus a source map of where each output line came from.
use vstd::prelude::*;

use crate::graph::{DependencyGraph, Module};
use crate::sourcemap::{
    ensure_len, find_path, lemma_find_path, source_map_json, with_mapping, with_mappings, SourceMapBuilder,
};
use crate::text::{
    chars_to_string, count_char, count_lines, count_newlines, ends_with_newline, lemma_count_char_concat,
    lemma_count_char_single, lemma_lines_count, line_count, lines, push_str, split_lines, str_chars,
    str_ends_with_newline, with_final_newline,
};
use crate::BuildMode;

verus! {

/// The runtime shim of a development build: `require` looks in `__modules`
/// first, and each module runs under `xpcall` so errors name the module.
pub open spec fn dev_shim() -> Seq<char> {
    "
local __modules = {}
local __require = require
local function require(name)
    if __modules[name] ~= nil then
        return __modules[name]
    end
    return __require(name)
end

local function __module_wrap(name, path, fn)
    local ok, result = xpcall(fn, function(err)
        local msg = \"module '\" .. name .. \"' (\" .. path .. \"): \" .. tostring(err)
        if debug and debug.traceback then
            msg = debug.traceback(msg, 2)
        end
        return msg
    end)
    if not ok then
        error(result, 0)
    end
    return result
end
"@
}

/// The runtime shim of a production build: only the `require` override.
pub open spec fn prod_shim() -> Seq<char> {
    "
local __modules = {}
local __require = require
local function require(name)
    if __modules[name] ~= nil then
        return __modules[name]
    end
    return __require(name)
end
"@
}

/// The runtime shim for `mode`.
pub open spec fn shim(mode: BuildMode) -> Seq<char> {
    match mode {
        BuildMode::Development => dev_shim(),
        BuildMode::Production => prod_shim(),
    }
}

/// A character as it stands inside a double-quoted Lua string: backslash and
/// double quote escaped with a backslash.
pub open spec fn escape_char(c: char) -> Seq<char> {
    if c == '\\' {
        seq!['\\', '\\']
    } else if c == '"' {
        seq!['\\', '"']
    } else {
        seq![c]
    }
}

/// `s` as it stands inside a double-quoted Lua string.
pub open spec fn escape_lua(s: Seq<char>) -> Seq<char>
    decreases s.len(),
{
    if s.len() == 0 {
        Seq::empty()
    } else {
        escape_lua(s.drop_last()) + escape_char(s.last())
    }
}

/// The line that opens a dependency's wrapper.
pub open spec fn module_header(mode: BuildMode, name: Seq<char>, path: Seq<char>) -> Seq<char> {
    match mode {
        BuildMode::Development => "__modules[\""@ + escape_lua(name) + "\"] = __module_wrap(\""@
            + escape_lua(name) + "\", \""@ + escape_lua(path) + "\", function()\n"@,
        BuildMode::Production => "__modules[\""@ + name + "\"] = (function()\n"@,
    }
}

/// The line that closes a dependency's wrapper.
pub open spec fn module_footer(mode: BuildMode) -> Seq<char> {
    match mode {
        BuildMode::Development => "end)\n"@,
        BuildMode::Production => "end)()\n"@,
    }
}

/// The blank line and `-- path` comment line before each module.
pub open spec fn path_comment(path: Seq<char>) -> Seq<char> {
    "\n-- "@ + path + "\n"@
}

/// A module as the emitter sees it: path, module name, source.
pub type ModuleView = (Seq<char>, Seq<char>, Seq<char>);

/// The view of a module.
pub open spec fn module_view(m: Module) -> ModuleView {
    (m.path@, m.module_name@, m.source@)
}

/// The views of a sequence of modules.
pub open spec fn module_views(mods: Seq<Module>) -> Seq<ModuleView> {
    mods.map_values(|m: Module| module_view(m))
}

/// The view of an optional text.
pub open spec fn text_view(t: Option<String>) -> Option<Seq<char>> {
    match t {
        Some(s) => Some(s@),
        None => None,
    }
}

/// A dependency as emitted: comment, wrapper header, source ended by a line
/// ending, wrapper footer.
pub open spec fn module_text(mode: BuildMode, m: ModuleView) -> Seq<char> {
    path_comment(m.0) + module_header(mode, m.1, m.0) + with_final_newline(
        m.2,
    ) + module_footer(mode)
}

/// The entry module as emitted: comment and source, unwrapped.
pub open spec fn entry_text(m: ModuleView) -> Seq<char> {
    path_comment(m.0) + with_final_newline(m.2)
}

/// An injected text as emitted: ended by a line ending; nothing when absent.
pub open spec fn injection_text(inj: Option<Seq<char>>) -> Seq<char> {
    match inj {
        Some(t) => with_final_newline(t),
        None => Seq::empty(),
    }
}

/// The first `k` dependencies as emitted, in order.
pub open spec fn modules_text(mode: BuildMode, mods: Seq<ModuleView>, k: int) -> Seq<char>
    decreases k,
{
    if k <= 0 {
        Seq::empty()
    } else {
        modules_text(mode, mods, k - 1) + module_text(mode, mods[k - 1])
    }
}

/// The name of the generated file, as the source map records it.
pub open spec fn output_name() -> Seq<char> {
    "bundle.lua"@
}

/// The closing comment that points a development build at its source map.
pub open spec fn url_hint(mode: BuildMode) -> Seq<char> {
    match mode {
        BuildMode::Development => "--# sourceMappingURL="@ + output_name() + ".map\n"@,
        BuildMode::Production => Seq::empty(),
    }
}

/// The bundle text: header comment, top injection, shim, the dependencies
/// (all modules but the last) wrapped, the entry (the last) inlined, bottom
/// injection, and in development the source map hint.
pub open spec fn spec_bundle_text(
    top: Option<Seq<char>>,
    bottom: Option<Seq<char>>,
    mode: BuildMode,
    mods: Seq<ModuleView>,
) -> Seq<char> {
    "-- generated by lunar-bundler\n"@ + injection_text(top) + shim(mode) + modules_text(
        mode,
        mods,
        mods.len() - 1,
    ) + entry_text(mods[mods.len() - 1]) + injection_text(bottom) + url_hint(mode)
}

/// Lines taken by the top injection: its line endings, plus one for the line
/// ending added when it lacks a final one.
pub open spec fn top_lines(top: Option<Seq<char>>) -> int {
    match top {
        Some(t) => count_char(t, '\n') + if ends_with_newline(t) {
            0int
        } else {
            1int
        },
        None => 0,
    }
}

/// The output line (0-based) on which the first module's comment block starts.
pub open spec fn first_module_line(top: Option<Seq<char>>, mode: BuildMode) -> int {
    1 + top_lines(top) + count_char(shim(mode), '\n')
}

/// Lines counted for a dependency: the comment block, the header, the source
/// ended by a line ending, the footer.
pub open spec fn module_lines(m: ModuleView) -> int {
    3 + (if ends_with_newline(m.2) {
        0int
    } else {
        1int
    }) + count_char(m.2, '\n') + 1
}

/// Lines counted for the first `k` modules.
pub open spec fn lines_before(mods: Seq<ModuleView>, k: int) -> int
    decreases k,
{
    if k <= 0 {
        0
    } else {
        lines_before(mods, k - 1) + module_lines(mods[k - 1])
    }
}

/// The source map state: registered paths, their contents, the line map.
pub type MapState = (Seq<Seq<char>>, Seq<Seq<char>>, Seq<Option<(usize, u32)>>);

/// The state after registering a module's source: its index, the earlier one
/// when the path was registered before.
pub open spec fn state_add(st: MapState, path: Seq<char>, content: Seq<char>) -> (MapState, int) {
    let i = find_path(st.0, path, 0);
    if i >= 0 {
        (st, i)
    } else {
        ((st.0.push(path), st.1.push(content), st.2), st.0.len() as int)
    }
}

/// The state after emitting module `m` at `line`, its source lines mapped from
/// `line + offset` on.
pub open spec fn state_module(st: MapState, line: int, m: ModuleView, offset: int) -> MapState {
    let (st1, idx) = state_add(st, m.0, m.2);
    (
        st1.0,
        st1.1,
        with_mappings(st1.2, line + offset, idx as usize, 0, lines(m.2).len() as int),
    )
}

/// The state after emitting the first `k` dependencies.
pub open spec fn state_upto(top: Option<Seq<char>>, mode: BuildMode, mods: Seq<ModuleView>, k: int) -> MapState
    decreases k,
{
    if k <= 0 {
        (Seq::empty(), Seq::empty(), Seq::empty())
    } else {
        state_module(
            state_upto(top, mode, mods, k - 1),
            first_module_line(top, mode) + lines_before(mods, k - 1),
            mods[k - 1],
            3,
        )
    }
}

/// The source map of the bundle.
pub open spec fn spec_bundle_map(top: Option<Seq<char>>, mode: BuildMode, mods: Seq<ModuleView>) -> Seq<char> {
    let fin = bundle_map_state(top, mode, mods);
    source_map_json(output_name(), fin.0, fin.1, fin.2)
}

/// The source map state after emitting every module, the entry last.
pub open spec fn bundle_map_state(top: Option<Seq<char>>, mode: BuildMode, mods: Seq<ModuleView>) -> MapState {
    let n = mods.len() as int;
    state_module(
        state_upto(top, mode, mods, n - 1),
        first_module_line(top, mode) + lines_before(mods, n - 1),
        mods[n - 1],
        2,
    )
}

/// What `emit` needs of a graph: at least one module, and line and module
/// counts that the 32-bit line numbering and the source map encoding can hold.
pub open spec fn emittable(top: Option<Seq<char>>, mode: BuildMode, mods: Seq<ModuleView>) -> bool {
    &&& mods.len() > 0
    &&& mods.len() <= i32::MAX
    &&& forall|k: int| 0 <= k < mods.len() ==> lines(#[trigger] mods[k].2).len() <= i32::MAX
    &&& first_module_line(top, mode) + lines_before(mods, mods.len() as int) <= u32::MAX
}

proof fn lemma_lines_before_mono(mods: Seq<ModuleView>, j: int, k: int)
    requires
        0 <= j <= k,
    ensures
        lines_before(mods, j) <= lines_before(mods, k),
    decreases k - j,
{
    if j < k {
        lemma_lines_before_mono(mods, j, k - 1);
    }
}

/// Escapes backslash and double quote for a double-quoted Lua string.
fn push_escaped(out: &mut Vec<char>, s: &str)
    ensures
        final(out)@ == old(out)@ + escape_lua(s@),
{
    let v = str_chars(s);
    let mut i: usize = 0;
    while i < v.len()
        invariant
            i <= v@.len(),
            out@ == old(out)@ + escape_lua(v@.subrange(0, i as int)),
        decreases v@.len() - i,
    {
        assert(v@.subrange(0, i + 1 as int).drop_last() == v@.subrange(0, i as int));
        let c = v[i];
        if c == '\\' {
            out.push('\\');
            out.push('\\');
        } else if c == '"' {
            out.push('\\');
            out.push('"');
        } else {
            out.push(c);
        }
        i = i + 1;
    }
    assert(v@.subrange(0, v@.len() as int) == v@);
}

/// Whether the bundle of `mods` fits the limits of [`Emitter::emit`].
pub fn can_emit(top: &Option<String>, mode: BuildMode, mods: &Vec<Module>) -> (b: bool)
    ensures
        b == emittable(text_view(*top), mode, module_views(mods@)),
{
    let n = mods.len();
    if n == 0 || n > 0x7fff_ffff {
        return false;
    }
    let mut total: u128 = 1;
    match top {
        Some(t) => {
            let extra: u128 = if str_ends_with_newline(t.as_str()) { 0 } else { 1 };
            total = total + count_newlines(t.as_str()) as u128 + extra;
        },
        None => {},
    }
    let shim = match mode {
        BuildMode::Development => dev_shim_text(),
        BuildMode::Production => prod_shim_text(),
    };
    total = total + count_newlines(shim) as u128;
    assert(total == first_module_line(text_view(*top), mode));
    if total > 0xffff_ffff {
        proof {
            lemma_lines_before_mono(module_views(mods@), 0, n as int);
        }
        return false;
    }
    let mut k: usize = 0;
    while k < n
        invariant
            n == mods@.len(),
            k <= n,
            total == first_module_line(text_view(*top), mode) + lines_before(module_views(mods@), k as int),
            total <= u32::MAX,
            forall|j: int| 0 <= j < k ==> lines(#[trigger] module_views(mods@)[j].2).len() <= i32::MAX,
        decreases n - k,
    {
        let src = mods[k].source.as_str();
        assert(module_views(mods@)[k as int].2 == mods@[k as int].source@);
        if line_count(src) > 0x7fff_ffff {
            return false;
        }
        let nl = if str_ends_with_newline(src) { 0u128 } else { 1u128 };
        total = total + 3 + nl + count_newlines(src) as u128 + 1;
        if total > 0xffff_ffff {
            proof {
                lemma_lines_before_mono(module_views(mods@), k + 1, n as int);
            }
            return false;
        }
        k = k + 1;
    }
    true
}

/// The development shim's text.
fn dev_shim_text() -> (s: &'static str)
    ensures
        s@ == dev_shim(),
{
    "
local __modules = {}
local __require = require
local function require(name)
    if __modules[name] ~= nil then
        return __modules[name]
    end
    return __require(name)
end

local function __module_wrap(name, path, fn)
    local ok, result = xpcall(fn, function(err)
        local msg = \"module '\" .. name .. \"' (\" .. path .. \"): \" .. tostring(err)
        if debug and debug.traceback then
            msg = debug.traceback(msg, 2)
        end
        return msg
    end)
    if not ok then
        error(result, 0)
    end
    return result
end
"
}

/// The production shim's text.
fn prod_shim_text() -> (s: &'static str)
    ensures
        s@ == prod_shim(),
{
    "
local __modules = {}
local __require = require
local function require(name)
    if __modules[name] ~= nil then
        return __modules[name]
    end
    return __require(name)
end
"
}

pub struct Emitter {
    pub inject_top: Option<String>,
    pub inject_bottom: Option<String>,
    pub mode: BuildMode,
}

impl Emitter {
    pub fn new(inject_top: Option<String>, inject_bottom: Option<String>, mode: &BuildMode) -> (r: Self)
        ensures
            r.inject_top == inject_top,
            r.inject_bottom == inject_bottom,
            r.mode == *mode,
    {
        let mode = match mode {
            BuildMode::Development => BuildMode::Development,
            BuildMode::Production => BuildMode::Production,
        };
        Self { inject_top, inject_bottom, mode }
    }

    /// Registers `module`'s source and maps its lines from `first_line` on.
    fn map_source(
        module: &Module,
        sm: &mut SourceMapBuilder,
        first_line: u32,
        offset: u32,
    )
        requires
            old(sm).wf(),
            old(sm).fits_i32(),
            old(sm).source_paths().len() <= i32::MAX,
            lines(module.source@).len() <= i32::MAX,
            first_line + offset + lines(module.source@).len() <= u32::MAX + 1,
        ensures
            final(sm).wf(),
            final(sm).fits_i32(),
            final(sm).source_paths().len() <= old(sm).source_paths().len() + 1,
            final(sm).file_name() == old(sm).file_name(),
            (final(sm).source_paths(), final(sm).source_contents(), final(sm).lines()) == state_module(
                (old(sm).source_paths(), old(sm).source_contents(), old(sm).lines()),
                first_line as int,
                module_view(*module),
                offset as int,
            ),
    {
        let ghost st0: MapState = (sm.source_paths(), sm.source_contents(), sm.lines());
        proof {
            lemma_find_path(st0.0, module.path@, 0);
        }
        let source_idx = sm.add_source(module.path.as_str(), module.source.as_str());
        let ghost st1 = state_add(st0, module.path@, module.source@);
        assert(source_idx == st1.1);
        assert(source_idx <= i32::MAX);
        let src_chars = str_chars(module.source.as_str());
        let source_lines = split_lines(&src_chars);
        let count = source_lines.len();
        let mut i: usize = 0;
        while i < count
            invariant
                i <= count,
                count == lines(module.source@).len(),
                count <= i32::MAX,
                source_idx <= i32::MAX,
                first_line + offset + count <= u32::MAX + 1,
                sm.wf(),
                sm.fits_i32(),
                sm.file_name() == old(sm).file_name(),
                sm.source_paths() == st1.0.0,
                sm.source_contents() == st1.0.1,
                sm.lines() == with_mappings(
                    st1.0.2,
                    first_line + offset,
                    source_idx,
                    0,
                    i as int,
                ),
            decreases count - i,
        {
            proof {
                crate::sourcemap::lemma_with_mapping_fits(sm.lines(), (first_line + offset + i) as int, source_idx, i as u32);
            }
            sm.map_line(first_line + offset + i as u32, source_idx, i as u32);
            i = i + 1;
        }
    }

    /// Emit a single dependency module (wrapped). Returns the number of
    /// output lines added.
    fn emit_module(
        &self,
        module: &Module,
        out: &mut Vec<char>,
        sm: &mut SourceMapBuilder,
        start_line: u32,
    ) -> (lines_used: u32)
        requires
            old(sm).wf(),
            old(sm).fits_i32(),
            old(sm).source_paths().len() <= i32::MAX,
            lines(module.source@).len() <= i32::MAX,
            start_line + module_lines(module_view(*module)) <= u32::MAX,
        ensures
            lines_used == module_lines(module_view(*module)),
            final(out)@ == old(out)@ + module_text(self.mode, module_view(*module)),
            final(sm).wf(),
            final(sm).fits_i32(),
            final(sm).source_paths().len() <= old(sm).source_paths().len() + 1,
            final(sm).file_name() == old(sm).file_name(),
            (final(sm).source_paths(), final(sm).source_contents(), final(sm).lines()) == state_module(
                (old(sm).source_paths(), old(sm).source_contents(), old(sm).lines()),
                start_line as int,
                module_view(*module),
                3,
            ),
    {
        proof {
            lemma_lines_count(module.source@);
        }
        Self::map_source(module, sm, start_line, 3);
        self.push_module_text(module, out)
    }

    /// Appends a dependency's wrapped text; returns its line count.
    fn push_module_text(&self, module: &Module, out: &mut Vec<char>) -> (lines_used: u32)
        requires
            module_lines(module_view(*module)) <= u32::MAX,
        ensures
            lines_used == module_lines(module_view(*module)),
            final(out)@ == old(out)@ + module_text(self.mode, module_view(*module)),
    {
        let ghost o0 = out@;
        // comment line
        push_str(out, "\n-- ");
        push_str(out, module.path.as_str());
        push_str(out, "\n");
        assert(out@ == o0 + path_comment(module.path@));
        let ghost o1 = out@;
        let mut lines_used: u32 = 2; // newline + comment
        // `__modules["name"] = (function()` or `__module_wrap(...` in dev mode
        match self.mode {
            BuildMode::Development => {
                push_str(out, "__modules[\"");
                push_escaped(out, module.module_name.as_str());
                push_str(out, "\"] = __module_wrap(\"");
                push_escaped(out, module.module_name.as_str());
                push_str(out, "\", \"");
                push_escaped(out, module.path.as_str());
                push_str(out, "\", function()\n");
            },
            BuildMode::Production => {
                push_str(out, "__modules[\"");
                push_str(out, module.module_name.as_str());
                push_str(out, "\"] = (function()\n");
            },
        }
        assert(out@ == o1 + module_header(self.mode, module.module_name@, module.path@));
        let ghost o2 = out@;
        lines_used = lines_used + 1;
        // source content
        push_str(out, module.source.as_str());
        // ensure newline before the closing line
        if !str_ends_with_newline(module.source.as_str()) {
            out.push('\n');
            lines_used = lines_used + 1;
        }
        assert(out@ == o2 + with_final_newline(module.source@));
        let ghost o3 = out@;
        let src_line_count = count_lines(module.source.as_str());
        lines_used = lines_used + src_line_count;
        // `end)()` in production or `end)` in dev mode
        match self.mode {
            BuildMode::Development => push_str(out, "end)\n"),
            BuildMode::Production => push_str(out, "end)()\n"),
        }
        assert(out@ == o3 + module_footer(self.mode));
        lines_used = lines_used + 1;
        lines_used
    }

    /// Emit the entry point module (raw, unwrapped).
    fn emit_entry(
        &self,
        module: &Module,
        out: &mut Vec<char>,
        sm: &mut SourceMapBuilder,
        start_line: u32,
    )
        requires
            old(sm).wf(),
            old(sm).fits_i32(),
            old(sm).source_paths().len() <= i32::MAX,
            lines(module.source@).len() <= i32::MAX,
            start_line + module_lines(module_view(*module)) <= u32::MAX,
        ensures
            final(out)@ == old(out)@ + entry_text(module_view(*module)),
            final(sm).wf(),
            final(sm).fits_i32(),
            final(sm).file_name() == old(sm).file_name(),
            (final(sm).source_paths(), final(sm).source_contents(), final(sm).lines()) == state_module(
                (old(sm).source_paths(), old(sm).source_contents(), old(sm).lines()),
                start_line as int,
                module_view(*module),
                2,
            ),
    {
        proof {
            lemma_lines_count(module.source@);
        }
        Self::map_source(module, sm, start_line, 2);
        push_str(out, "\n-- ");
        push_str(out, module.path.as_str());
        push_str(out, "\n");
        push_str(out, module.source.as_str());
        if !str_ends_with_newline(module.source.as_str()) {
            out.push('\n');
        }
    }

    /// Emit the bundle and return (output_string, sourcemap_json).
    pub fn emit(&self, graph: &DependencyGraph) -> (r: (String, String))
        requires
            emittable(text_view(self.inject_top), self.mode, module_views(graph.modules@)),
        ensures
            r.0@ == spec_bundle_text(
                text_view(self.inject_top),
                text_view(self.inject_bottom),
                self.mode,
                module_views(graph.modules@),
            ),
            r.1@ == spec_bundle_map(text_view(self.inject_top), self.mode, module_views(graph.modules@)),
    {
        let ghost mods = module_views(graph.modules@);
        let ghost top = text_view(self.inject_top);
        let ghost mode = self.mode;
        let output_name = "bundle.lua";
        let mut sm = SourceMapBuilder::new(output_name.to_owned());
        let mut out: Vec<char> = Vec::new();
        // track current output line (0-indexed)
        let mut line: u32 = 0;
        proof {
            lemma_lines_before_mono(mods, 0, mods.len() as int);
        }

        // ---- header ----
        push_str(&mut out, "-- generated by lunar-bundler\n");
        line = line + 1;

        // ---- top injection ----
        match &self.inject_top {
            Some(top) => {
                push_str(&mut out, top.as_str());
                let added = count_lines(top.as_str());
                if !str_ends_with_newline(top.as_str()) {
                    out.push('\n');
                    line = line + 1;
                }
                line = line + added;
            },
            None => {},
        }

        // ---- runtime shim ----
        let shim = match self.mode {
            BuildMode::Development => "
local __modules = {}
local __require = require
local function require(name)
    if __modules[name] ~= nil then
        return __modules[name]
    end
    return __require(name)
end

local function __module_wrap(name, path, fn)
    local ok, result = xpcall(fn, function(err)
        local msg = \"module '\" .. name .. \"' (\" .. path .. \"): \" .. tostring(err)
        if debug and debug.traceback then
            msg = debug.traceback(msg, 2)
        end
        return msg
    end)
    if not ok then
        error(result, 0)
    end
    return result
end
",
            BuildMode::Production => "
local __modules = {}
local __require = require
local function require(name)
    if __modules[name] ~= nil then
        return __modules[name]
    end
    return __require(name)
end
",
        };
        assert(shim@ == crate::emitter::shim(mode));
        push_str(&mut out, shim);
        line = line + count_lines(shim);
        assert(line == first_module_line(top, mode));
        let ghost prefix = out@;

        // ---- dependencies ----
        let n = graph.modules.len();
        let mut k: usize = 0;
        while k < n - 1
            invariant
                n == mods.len(),
                mods == module_views(graph.modules@),
                top == text_view(self.inject_top),
                mode == self.mode,
                emittable(top, mode, mods),
                k <= n - 1,
                out@ == prefix + modules_text(mode, mods, k as int),
                line == first_module_line(top, mode) + lines_before(mods, k as int),
                sm.wf(),
                sm.fits_i32(),
                sm.source_paths().len() <= k,
                sm.file_name() == crate::emitter::output_name(),
                (sm.source_paths(), sm.source_contents(), sm.lines()) == state_upto(top, mode, mods, k as int),
            decreases n - 1 - k,
        {
            proof {
                lemma_lines_before_mono(mods, k + 1, mods.len() as int);
            }
            let used = self.emit_module(&graph.modules[k], &mut out, &mut sm, line);
            line = line + used;
            k = k + 1;
        }

        // ---- entry point ----
        proof {
            lemma_lines_before_mono(mods, n as int, mods.len() as int);
        }
        self.emit_entry(&graph.modules[n - 1], &mut out, &mut sm, line);

        // ---- bottom injection ----
        match &self.inject_bottom {
            Some(bottom) => {
                push_str(&mut out, bottom.as_str());
                if !str_ends_with_newline(bottom.as_str()) {
                    out.push('\n');
                }
            },
            None => {},
        }

        // ---- dev shim: sourceMappingURL hint ----
        match self.mode {
            BuildMode::Development => {
                push_str(&mut out, "--# sourceMappingURL=");
                push_str(&mut out, output_name);
                push_str(&mut out, ".map\n");
            },
            BuildMode::Production => {},
        }

        let sm_json = sm.to_json();
        (chars_to_string(&out), sm_json)
    }
}

/// The output line (0-based) on which the source of module `k` starts: after
/// the comment block and, for a dependency, its wrapper's header.
pub open spec fn source_start_line(top: Option<Seq<char>>, mode: BuildMode, mods: Seq<ModuleView>, k: int) -> int {
    first_module_line(top, mode) + lines_before(mods, k) + if k < mods.len() - 1 {
        3int
    } else {
        2int
    }
}

/// Whether no module path or name holds a line ending.
pub open spec fn single_line_names(mods: Seq<ModuleView>) -> bool {
    forall|i: int| 0 <= i < mods.len() ==> count_char(#[trigger] mods[i].0, '\n') == 0 && count_char(mods[i].1, '\n') == 0
}

proof fn lemma_count_cat3(a: Seq<char>, b: Seq<char>, c: Seq<char>)
    ensures
        count_char(a + b + c, '\n') == count_char(a, '\n') + count_char(b, '\n') + count_char(c, '\n'),
{
    lemma_count_char_concat(a, b, '\n');
    lemma_count_char_concat(a + b, c, '\n');
}

proof fn lemma_escape_count(s: Seq<char>)
    ensures
        count_char(escape_lua(s), '\n') == count_char(s, '\n'),
    decreases s.len(),
{
    if s.len() > 0 {
        lemma_escape_count(s.drop_last());
        lemma_count_char_concat(escape_lua(s.drop_last()), escape_char(s.last()), '\n');
        let c = s.last();
        if c == '\\' {
            assert(count_char(seq!['\\', '\\'], '\n') == 0) by {
                reveal_with_fuel(count_char, 3);
            }
        } else if c == '"' {
            assert(count_char(seq!['\\', '"'], '\n') == 0) by {
                reveal_with_fuel(count_char, 3);
            }
        } else {
            lemma_count_char_single(c, '\n');
        }
    }
}

proof fn lemma_with_final_newline_count(s: Seq<char>)
    ensures
        count_char(with_final_newline(s), '\n') == count_char(s, '\n') + if ends_with_newline(s) {
            0nat
        } else {
            1nat
        },
        s.len() <= with_final_newline(s).len(),
        with_final_newline(s).subrange(0, s.len() as int) == s,
{
    if !ends_with_newline(s) {
        lemma_count_char_concat(s, seq!['\n'], '\n');
        lemma_count_char_single('\n', '\n');
        assert(s.push('\n') == s + seq!['\n']);
        assert(s.push('\n').subrange(0, s.len() as int) =~= s);
    } else {
        assert(s.subrange(0, s.len() as int) =~= s);
    }
}

proof fn lemma_lit_comment()
    ensures
        count_char("\n-- "@, '\n') == 1,
        count_char("\n"@, '\n') == 1,
        count_char("__modules[\""@, '\n') == 0,
{
    reveal_strlit("\n-- ");
    reveal_strlit("\n");
    reveal_strlit("__modules[\"");
    reveal_with_fuel(count_char, 13);
}

proof fn lemma_lit_dev_wrap()
    ensures
        count_char("\"] = __module_wrap(\""@, '\n') == 0,
{
    reveal_strlit("\"] = __module_wrap(\"");
    reveal_with_fuel(count_char, 22);
}

proof fn lemma_lit_dev_rest()
    ensures
        count_char("\", \""@, '\n') == 0,
        count_char("\", function()\n"@, '\n') == 1,
        count_char("end)\n"@, '\n') == 1,
{
    reveal_strlit("\", \"");
    reveal_strlit("\", function()\n");
    reveal_strlit("end)\n");
    reveal_with_fuel(count_char, 16);
}

proof fn lemma_lit_prod()
    ensures
        count_char("\"] = (function()\n"@, '\n') == 1,
        count_char("end)()\n"@, '\n') == 1,
{
    reveal_strlit("\"] = (function()\n");
    reveal_strlit("end)()\n");
    reveal_with_fuel(count_char, 19);
}

proof fn lemma_lit_header()
    ensures
        count_char("-- generated by lunar-bundler\n"@, '\n') == 1,
{
    reveal_strlit("-- generated by lunar-bundler\n");
    reveal_with_fuel(count_char, 32);
}

proof fn lemma_module_parts_lines(mode: BuildMode, name: Seq<char>, path: Seq<char>)
    requires
        count_char(name, '\n') == 0,
        count_char(path, '\n') == 0,
    ensures
        count_char(path_comment(path), '\n') == 2,
        count_char(module_header(mode, name, path), '\n') == 1,
        count_char(module_footer(mode), '\n') == 1,
{
    lemma_lit_comment();
    lemma_count_cat3("\n-- "@, path, "\n"@);
    match mode {
        BuildMode::Development => {
            lemma_lit_dev_wrap();
            lemma_lit_dev_rest();
            lemma_escape_count(name);
            lemma_escape_count(path);
            let a = "__modules[\""@ + escape_lua(name) + "\"] = __module_wrap(\""@;
            let b = escape_lua(name) + "\", \""@ + escape_lua(path);
            lemma_count_cat3("__modules[\""@, escape_lua(name), "\"] = __module_wrap(\""@);
            lemma_count_cat3(escape_lua(name), "\", \""@, escape_lua(path));
            lemma_count_cat3(a, b, "\", function()\n"@);
            assert(module_header(mode, name, path) =~= a + b + "\", function()\n"@);
        },
        BuildMode::Production => {
            lemma_lit_prod();
            lemma_count_cat3("__modules[\""@, name, "\"] = (function()\n"@);
        },
    }
}

proof fn lemma_module_text_lines(mode: BuildMode, m: ModuleView)
    requires
        count_char(m.0, '\n') == 0,
        count_char(m.1, '\n') == 0,
    ensures
        count_char(module_text(mode, m), '\n') == module_lines(m),
{
    lemma_module_parts_lines(mode, m.1, m.0);
    lemma_with_final_newline_count(m.2);
    let a = path_comment(m.0) + module_header(mode, m.1, m.0);
    lemma_count_char_concat(path_comment(m.0), module_header(mode, m.1, m.0), '\n');
    lemma_count_cat3(a, with_final_newline(m.2), module_footer(mode));
}

proof fn lemma_modules_text_lines(mode: BuildMode, mods: Seq<ModuleView>, k: int)
    requires
        0 <= k <= mods.len(),
        single_line_names(mods),
    ensures
        count_char(modules_text(mode, mods, k), '\n') == lines_before(mods, k),
    decreases k,
{
    if k > 0 {
        lemma_modules_text_lines(mode, mods, k - 1);
        lemma_module_text_lines(mode, mods[k - 1]);
        lemma_count_char_concat(modules_text(mode, mods, k - 1), module_text(mode, mods[k - 1]), '\n');
    }
}

proof fn lemma_modules_text_prefix(mode: BuildMode, mods: Seq<ModuleView>, k: int, n: int) -> (rest: Seq<char>)
    requires
        0 <= k <= n,
    ensures
        modules_text(mode, mods, n) == modules_text(mode, mods, k) + rest,
    decreases n - k,
{
    if k == n {
        assert(modules_text(mode, mods, n) =~= modules_text(mode, mods, k) + Seq::<char>::empty());
        Seq::empty()
    } else {
        let r = lemma_modules_text_prefix(mode, mods, k, n - 1);
        assert(modules_text(mode, mods, n) =~= modules_text(mode, mods, k) + (r + module_text(mode, mods[n - 1])));
        r + module_text(mode, mods[n - 1])
    }
}

proof fn lemma_head_lines(top: Option<Seq<char>>, mode: BuildMode)
    requires
    ensures
        count_char("-- generated by lunar-bundler\n"@ + injection_text(top) + shim(mode), '\n') == first_module_line(top, mode),
{
    lemma_lit_header();
    lemma_count_cat3("-- generated by lunar-bundler\n"@, injection_text(top), shim(mode));
    match top {
        Some(t) => {
            lemma_with_final_newline_count(t);
        },
        None => {
            assert(count_char(Seq::<char>::empty(), '\n') == 0);
        },
    }
}

proof fn lemma_with_mappings_effect(m: Seq<Option<(usize, u32)>>, first: int, src: usize, count: int)
    requires
        0 <= first,
        0 <= count <= u32::MAX,
    ensures
        with_mappings(m, first, src, 0, count).len() >= m.len(),
        count > 0 ==> with_mappings(m, first, src, 0, count).len() >= first + count,
        with_mappings(m, first, src, 0, count).len() <= m.len() || with_mappings(m, first, src, 0, count).len()
            == first + count,
        forall|i: int|
            first <= i < first + count ==> #[trigger] with_mappings(m, first, src, 0, count)[i] == Some(
                (src, (i - first) as u32),
            ),
        forall|i: int|
            0 <= i < m.len() && !(first <= i < first + count) ==> #[trigger] with_mappings(m, first, src, 0, count)[i]
                == m[i],
    decreases count,
{
    if count > 0 {
        lemma_with_mappings_effect(m, first, src, count - 1);
        let prev = with_mappings(m, first, src, 0, count - 1);
        let line = first + count - 1;
        let e = ensure_len(prev, line);
        assert(with_mappings(m, first, src, 0, count) == with_mapping(prev, line, src, (count - 1) as u32));
        assert forall|i: int| 0 <= i < prev.len() implies e[i] == prev[i] by {}
        assert(e.len() == if prev.len() > line { prev.len() as int } else { line + 1 });
    }
}

/// The map state after the first `k` dependencies maps each of their source
/// lines, and covers no line past them.
#[verifier::spinoff_prover]
proof fn lemma_state_upto_maps(top: Option<Seq<char>>, mode: BuildMode, mods: Seq<ModuleView>, k: int)
    requires
        0 <= k < mods.len(),
        emittable(top, mode, mods),
    ensures
        state_upto(top, mode, mods, k).2.len() <= first_module_line(top, mode) + lines_before(mods, k),
        state_upto(top, mode, mods, k).0.len() <= k,
        forall|d: int, i: int|
            #![trigger state_upto(top, mode, mods, k).2[i], source_start_line(top, mode, mods, d)]
            0 <= d < k && source_start_line(top, mode, mods, d) <= i < source_start_line(top, mode, mods, d) + lines(
                mods[d].2,
            ).len() ==> i < state_upto(top, mode, mods, k).2.len() && (state_upto(top, mode, mods, k).2[i]
                matches Some((idx, l)) && l == i - source_start_line(top, mode, mods, d) && idx
                < state_upto(top, mode, mods, k).0.len() && state_upto(top, mode, mods, k).0[idx as int] == mods[d].0),
    decreases k,
{
    if k > 0 {
        lemma_state_upto_maps(top, mode, mods, k - 1);
        let st = state_upto(top, mode, mods, k - 1);
        let m = mods[k - 1];
        let base = first_module_line(top, mode) + lines_before(mods, k - 1);
        let (st1, idx) = state_add(st, m.0, m.2);
        lemma_find_path(st.0, m.0, 0);
        lemma_lines_count(m.2);
        lemma_lines_before_mono(mods, k, mods.len() as int);
        let cnt = lines(m.2).len() as int;
        assert(cnt <= i32::MAX);
        lemma_with_mappings_effect(st1.2, base + 3, idx as usize, cnt);
        let st2 = state_upto(top, mode, mods, k);
        assert(st2 == (st1.0, st1.1, with_mappings(st1.2, base + 3, idx as usize, 0, cnt)));
        assert(st1.2 == st.2);
        assert(0 <= idx < st1.0.len() && st1.0[idx] == m.0);
        assert forall|j: int| 0 <= j < st.0.len() implies st1.0[j] == st.0[j] by {}
        assert(st1.0.len() >= st.0.len());
        assert(st1.0.len() <= st.0.len() + 1);
        assert(st2.0 == st1.0);
        assert(idx < k);
        assert((idx as usize) as int == idx);
        assert forall|d: int, i: int|
            #![trigger st2.2[i], source_start_line(top, mode, mods, d)]
            0 <= d < k && source_start_line(top, mode, mods, d) <= i < source_start_line(top, mode, mods, d) + lines(
                mods[d].2,
            ).len() implies i < st2.2.len() && (st2.2[i] matches Some((ix, l)) && l == i
                - source_start_line(top, mode, mods, d) && ix < st2.0.len() && st2.0[ix as int] == mods[d].0) by {
            if d < k - 1 {
                assert(st.2[i] matches Some((ix, l)) && l == i - source_start_line(top, mode, mods, d) && ix
                    < st.0.len() && st.0[ix as int] == mods[d].0);
                lemma_lines_before_mono(mods, 0, d);
                assert(i < st.2.len());
                assert(st.2.len() <= base);
                assert(0 <= i < st1.2.len() && !(base + 3 <= i < base + 3 + cnt));
                assert(with_mappings(st1.2, base + 3, idx as usize, 0, cnt)[i] == st1.2[i]);
                assert(st2.2[i] == st.2[i]);
                assert(i < st2.2.len());
                assert(st2.2[i] matches Some((ix, l)) && l == i - source_start_line(top, mode, mods, d) && ix
                    < st2.0.len() && st2.0[ix as int] == mods[d].0);
            } else {
                assert(d == k - 1);
                assert(source_start_line(top, mode, mods, d) == base + 3);
                assert(base + 3 <= i < base + 3 + cnt);
                assert(st2.2[i] == Some((idx as usize, (i - (base + 3)) as u32)));
                assert(i < st2.2.len());
                assert((i - (base + 3)) as u32 == i - (base + 3));
                assert(st2.2[i] matches Some((ix, l)) && l == i - source_start_line(top, mode, mods, d) && ix
                    < st2.0.len() && st2.0[ix as int] == mods[d].0);
            }
        }
    }
}

/// Whether `z` is a prefix of `x`.
spec fn has_prefix(x: Seq<char>, z: Seq<char>) -> bool {
    z.len() <= x.len() && x.subrange(0, z.len() as int) == z
}

proof fn lemma_prefix_concat(a: Seq<char>, b: Seq<char>)
    ensures
        has_prefix(a + b, a),
{
    assert((a + b).subrange(0, a.len() as int) =~= a);
}

proof fn lemma_prefix_trans(x: Seq<char>, y: Seq<char>, z: Seq<char>)
    requires
        has_prefix(x, y),
        has_prefix(y, z),
    ensures
        has_prefix(x, z),
{
    assert(x.subrange(0, z.len() as int) =~= y.subrange(0, z.len() as int));
}

proof fn lemma_prefix_extend(h: Seq<char>, x: Seq<char>, z: Seq<char>)
    requires
        has_prefix(x, z),
    ensures
        has_prefix(h + x, h + z),
{
    assert((h + x).subrange(0, (h + z).len() as int) =~= h + z);
}

/// The text of the modules before the entry has the text of dependency `k`
/// up to its source at the position after the first `k` dependencies.
proof fn lemma_dependency_prefix(mode: BuildMode, mods: Seq<ModuleView>, k: int, n: int)
    requires
        0 <= k < n <= mods.len(),
    ensures
        has_prefix(
            modules_text(mode, mods, n),
            modules_text(mode, mods, k) + path_comment(mods[k].0) + module_header(mode, mods[k].1, mods[k].0)
                + with_final_newline(mods[k].2),
        ),
{
    let rest = lemma_modules_text_prefix(mode, mods, k + 1, n);
    lemma_prefix_concat(modules_text(mode, mods, k + 1), rest);
    let m = mods[k];
    let z = modules_text(mode, mods, k) + path_comment(m.0) + module_header(mode, m.1, m.0) + with_final_newline(m.2);
    assert(modules_text(mode, mods, k + 1) =~= z + module_footer(mode));
    lemma_prefix_concat(z, module_footer(mode));
    lemma_prefix_trans(modules_text(mode, mods, n), modules_text(mode, mods, k + 1), z);
}

/// The bundle text before its bottom injection and map hint.
spec fn bundle_body(top: Option<Seq<char>>, mode: BuildMode, mods: Seq<ModuleView>) -> Seq<char> {
    bundle_head(top, mode) + modules_text(mode, mods, mods.len() - 1) + entry_text(mods[mods.len() - 1])
}

/// The bundle text before the first module.
spec fn bundle_head(top: Option<Seq<char>>, mode: BuildMode) -> Seq<char> {
    "-- generated by lunar-bundler\n"@ + injection_text(top) + shim(mode)
}

proof fn lemma_text_starts_with_body(
    top: Option<Seq<char>>,
    bottom: Option<Seq<char>>,
    mode: BuildMode,
    mods: Seq<ModuleView>,
)
    requires
        mods.len() > 0,
    ensures
        has_prefix(spec_bundle_text(top, bottom, mode, mods), bundle_body(top, mode, mods)),
{
    let body = bundle_body(top, mode, mods);
    let text = spec_bundle_text(top, bottom, mode, mods);
    assert(text == body + injection_text(bottom) + url_hint(mode));
    lemma_prefix_concat(body, injection_text(bottom));
    lemma_prefix_concat(body + injection_text(bottom), url_hint(mode));
    lemma_prefix_trans(text, body + injection_text(bottom), body);
}

/// The body up to dependency `k`'s source, and what that prefix counts.
#[verifier::spinoff_prover]
proof fn lemma_dependency_before(top: Option<Seq<char>>, mode: BuildMode, mods: Seq<ModuleView>, k: int) -> (before: Seq<char>)
    requires
        0 <= k < mods.len() - 1,
        single_line_names(mods),
    ensures
        has_prefix(bundle_body(top, mode, mods), before + with_final_newline(mods[k].2)),
        count_char(before, '\n') == source_start_line(top, mode, mods, k),
{
    let n = mods.len() as int;
    let head = bundle_head(top, mode);
    let m = mods[k];
    lemma_head_lines(top, mode);
    lemma_module_parts_lines(mode, m.1, m.0);
    lemma_dependency_prefix(mode, mods, k, n - 1);
    lemma_modules_text_lines(mode, mods, k);
    let within = modules_text(mode, mods, k) + path_comment(m.0) + module_header(mode, m.1, m.0);
    lemma_prefix_extend(head, modules_text(mode, mods, n - 1), within + with_final_newline(m.2));
    lemma_prefix_concat(head + modules_text(mode, mods, n - 1), entry_text(mods[n - 1]));
    lemma_prefix_trans(
        bundle_body(top, mode, mods),
        head + modules_text(mode, mods, n - 1),
        head + (within + with_final_newline(m.2)),
    );
    let before = head + within;
    assert(head + (within + with_final_newline(m.2)) =~= before + with_final_newline(m.2));
    lemma_count_cat3(head, modules_text(mode, mods, k), path_comment(m.0));
    lemma_count_char_concat(head + modules_text(mode, mods, k) + path_comment(m.0), module_header(mode, m.1, m.0), '\n');
    assert(before =~= head + modules_text(mode, mods, k) + path_comment(m.0) + module_header(mode, m.1, m.0));
    before
}

/// The body up to the entry's source, and what that prefix counts.
#[verifier::spinoff_prover]
proof fn lemma_entry_before(top: Option<Seq<char>>, mode: BuildMode, mods: Seq<ModuleView>) -> (before: Seq<char>)
    requires
        mods.len() > 0,
        single_line_names(mods),
    ensures
        has_prefix(bundle_body(top, mode, mods), before + with_final_newline(mods[mods.len() - 1].2)),
        count_char(before, '\n') == source_start_line(top, mode, mods, mods.len() - 1),
{
    let n = mods.len() as int;
    let head = bundle_head(top, mode);
    let m = mods[n - 1];
    lemma_head_lines(top, mode);
    lemma_module_parts_lines(mode, m.1, m.0);
    lemma_modules_text_lines(mode, mods, n - 1);
    let before = head + modules_text(mode, mods, n - 1) + path_comment(m.0);
    assert(bundle_body(top, mode, mods) =~= before + with_final_newline(m.2));
    assert((before + with_final_newline(m.2)).subrange(0, (before + with_final_newline(m.2)).len() as int) =~= before
        + with_final_newline(m.2));
    lemma_count_cat3(head, modules_text(mode, mods, n - 1), path_comment(m.0));
    before
}

/// Where the source of module `k` stands in the bundle text: after exactly
/// `source_start_line(..)` line endings.
#[verifier::spinoff_prover]
proof fn lemma_text_position(
    top: Option<Seq<char>>,
    bottom: Option<Seq<char>>,
    mode: BuildMode,
    mods: Seq<ModuleView>,
    k: int,
) -> (p: int)
    requires
        0 <= k < mods.len(),
        single_line_names(mods),
    ensures
        0 <= p,
        p + mods[k].2.len() <= spec_bundle_text(top, bottom, mode, mods).len(),
        spec_bundle_text(top, bottom, mode, mods).subrange(p, p + mods[k].2.len()) == mods[k].2,
        count_char(spec_bundle_text(top, bottom, mode, mods).subrange(0, p), '\n') == source_start_line(top, mode, mods, k),
{
    let text = spec_bundle_text(top, bottom, mode, mods);
    let body = bundle_body(top, mode, mods);
    let src = mods[k].2;
    lemma_text_starts_with_body(top, bottom, mode, mods);
    let before = if k < mods.len() - 1 {
        lemma_dependency_before(top, mode, mods, k)
    } else {
        lemma_entry_before(top, mode, mods)
    };
    lemma_with_final_newline_count(src);
    lemma_prefix_trans(text, body, before + with_final_newline(src));
    lemma_prefix_extend(before, with_final_newline(src), src);
    lemma_prefix_trans(text, before + with_final_newline(src), before + src);
    lemma_prefix_concat(before, src);
    lemma_prefix_trans(text, before + src, before);
    let p = before.len() as int;
    assert(text.subrange(p, p + src.len()) =~= (before + src).subrange(p, p + src.len()));
    assert((before + src).subrange(p, p + src.len()) =~= src);
    p
}

/// The final map sends each line of module `k`'s source to its registered path.
#[verifier::spinoff_prover]
proof fn lemma_final_map(top: Option<Seq<char>>, mode: BuildMode, mods: Seq<ModuleView>, k: int)
    requires
        0 <= k < mods.len(),
        emittable(top, mode, mods),
    ensures
        forall|i: int|
            source_start_line(top, mode, mods, k) <= i < source_start_line(top, mode, mods, k) + lines(mods[k].2).len()
                ==> i < bundle_map_state(top, mode, mods).2.len() && (#[trigger] bundle_map_state(top, mode, mods).2[i]
                matches Some((idx, l)) && l == i - source_start_line(top, mode, mods, k) && idx < bundle_map_state(
                top,
                mode,
                mods,
            ).0.len() && bundle_map_state(top, mode, mods).0[idx as int] == mods[k].0),
{
    let n = mods.len() as int;
    let entry = mods[n - 1];
    let fin = bundle_map_state(top, mode, mods);
    lemma_state_upto_maps(top, mode, mods, n - 1);
    let st = state_upto(top, mode, mods, n - 1);
    let base = first_module_line(top, mode) + lines_before(mods, n - 1);
    let (st1, idx) = state_add(st, entry.0, entry.2);
    lemma_find_path(st.0, entry.0, 0);
    lemma_lines_count(entry.2);
    lemma_lines_before_mono(mods, n - 1, n);
    let cnt = lines(entry.2).len() as int;
    assert(cnt <= i32::MAX);
    lemma_with_mappings_effect(st1.2, base + 2, idx as usize, cnt);
    assert(fin == (st1.0, st1.1, with_mappings(st1.2, base + 2, idx as usize, 0, cnt)));
    assert(st1.2 == st.2);
    assert forall|j: int| 0 <= j < st.0.len() implies st1.0[j] == st.0[j] by {}
    assert(st1.0.len() >= st.0.len());
    assert(idx < n);
    assert((idx as usize) as int == idx);
    assert(0 <= idx < st1.0.len() && st1.0[idx] == entry.0);
    assert forall|i: int|
        source_start_line(top, mode, mods, k) <= i < source_start_line(top, mode, mods, k) + lines(mods[k].2).len()
            implies i < fin.2.len() && (#[trigger] fin.2[i] matches Some((ix, l)) && l == i - source_start_line(
            top,
            mode,
            mods,
            k,
        ) && ix < fin.0.len() && fin.0[ix as int] == mods[k].0) by {
        lemma_lines_before_mono(mods, 0, k);
        if k < n - 1 {
            assert(st.2[i] matches Some((ix, l)) && l == i - source_start_line(top, mode, mods, k) && ix < st.0.len()
                && st.0[ix as int] == mods[k].0);
            assert(i < st.2.len());
            assert(st.2.len() <= base);
            assert(0 <= i < st1.2.len() && !(base + 2 <= i < base + 2 + cnt));
            assert(with_mappings(st1.2, base + 2, idx as usize, 0, cnt)[i] == st1.2[i]);
            assert(fin.2[i] == st.2[i]);
        } else {
            assert(source_start_line(top, mode, mods, k) == base + 2);
            assert(fin.2[i] == Some((idx as usize, (i - (base + 2)) as u32)));
            assert((i - (base + 2)) as u32 == i - (base + 2));
        }
    }
}

/// Source maps point into the bundle text: the source of module `k` stands
/// in the text after exactly `source_start_line(..)` line endings, and the
/// source map sends each output line that the source covers to the matching
/// line of that module's registered path. This holds when no module path or
/// name holds a line ending.
pub proof fn lemma_source_map_points_into_text(
    top: Option<Seq<char>>,
    bottom: Option<Seq<char>>,
    mode: BuildMode,
    mods: Seq<ModuleView>,
    k: int,
) -> (p: int)
    requires
        0 <= k < mods.len(),
        emittable(top, mode, mods),
        single_line_names(mods),
    ensures
        0 <= p,
        p + mods[k].2.len() <= spec_bundle_text(top, bottom, mode, mods).len(),
        spec_bundle_text(top, bottom, mode, mods).subrange(p, p + mods[k].2.len()) == mods[k].2,
        count_char(spec_bundle_text(top, bottom, mode, mods).subrange(0, p), '\n') == source_start_line(top, mode, mods, k),
        forall|i: int|
            source_start_line(top, mode, mods, k) <= i < source_start_line(top, mode, mods, k) + lines(mods[k].2).len()
                ==> i < bundle_map_state(top, mode, mods).2.len() && (#[trigger] bundle_map_state(top, mode, mods).2[i]
                matches Some((idx, l)) && l == i - source_start_line(top, mode, mods, k) && idx < bundle_map_state(
                top,
                mode,
                mods,
            ).0.len() && bundle_map_state(top, mode, mods).0[idx as int] == mods[k].0),
{
    lemma_final_map(top, mode, mods, k);
    lemma_text_position(top, bottom, mode, mods, k)
}

/// The source map hint closes a development bundle and only a development
/// bundle: a development bundle ends with `--# sourceMappingURL=bundle.lua.map`
/// and a line ending; a production bundle ends with the bottom injection (or
/// the entry's code), nothing after it.
pub proof fn lemma_source_map_hint(
    top: Option<Seq<char>>,
    bottom: Option<Seq<char>>,
    mode: BuildMode,
    mods: Seq<ModuleView>,
)
    ensures
        mode is Development ==> {
            let t = spec_bundle_text(top, bottom, mode, mods);
            let h = url_hint(BuildMode::Development);
            &&& h == "--# sourceMappingURL="@ + output_name() + ".map\n"@
            &&& h.len() <= t.len()
            &&& t.subrange(t.len() - h.len(), t.len() as int) == h
        },
        mode is Production ==> spec_bundle_text(top, bottom, mode, mods) == "-- generated by lunar-bundler\n"@
            + injection_text(top) + shim(mode) + modules_text(mode, mods, mods.len() - 1) + entry_text(
            mods[mods.len() - 1],
        ) + injection_text(bottom),
{
    let t = spec_bundle_text(top, bottom, mode, mods);
    let h = url_hint(mode);
    if mode is Development {
        let front = "-- generated by lunar-bundler\n"@ + injection_text(top) + shim(mode) + modules_text(
            mode,
            mods,
            mods.len() - 1,
        ) + entry_text(mods[mods.len() - 1]) + injection_text(bottom);
        assert(t == front + h);
        assert(t.subrange(front.len() as int, t.len() as int) =~= h);
    } else {
        assert(h =~= Seq::<char>::empty());
        assert(t =~= "-- generated by lunar-bundler\n"@ + injection_text(top) + shim(mode) + modules_text(
            mode,
            mods,
            mods.len() - 1,
        ) + entry_text(mods[mods.len() - 1]) + injection_text(bottom));
    }
}

/// The name `sourceMappingURL` that marks a source map hint.
pub open spec fn map_marker() -> Seq<char> {
    seq!['s', 'o', 'u', 'r', 'c', 'e', 'M', 'a', 'p', 'p', 'i', 'n', 'g', 'U', 'R', 'L']
}

/// Whether `sourceMappingURL` occurs in `s`.
pub open spec fn holds_marker(s: Seq<char>) -> bool {
    exists|i: int| 0 <= i && i + 16 <= s.len() && #[trigger] s.subrange(i, i + 16) == map_marker()
}

/// Whether `c` is an ASCII letter.
pub open spec fn is_letter(c: char) -> bool {
    ('a' <= c && c <= 'z') || ('A' <= c && c <= 'Z')
}

/// Whether no `M` occurs in `s`.
spec fn no_upper_m(s: Seq<char>) -> bool {
    forall|i: int| 0 <= i < s.len() ==> s[i] != 'M'
}

proof fn lemma_no_m_no_marker(s: Seq<char>)
    requires
        no_upper_m(s),
    ensures
        !holds_marker(s),
{
    if holds_marker(s) {
        let i = choose|i: int| 0 <= i && i + 16 <= s.len() && #[trigger] s.subrange(i, i + 16) == map_marker();
        assert(s.subrange(i, i + 16)[6] == 'M');
        assert(s[i + 6] == 'M');
    }
}

/// Putting two texts without the marker side by side makes none, when a
/// non-letter stands on one side of the seam.
proof fn lemma_cat_free(a: Seq<char>, b: Seq<char>)
    requires
        !holds_marker(a),
        !holds_marker(b),
        a.len() == 0 || b.len() == 0 || !is_letter(a.last()) || !is_letter(b[0]),
    ensures
        !holds_marker(a + b),
        b.len() > 0 ==> (a + b).last() == b.last(),
        b.len() == 0 ==> a + b == a,
        a.len() > 0 ==> (a + b)[0] == a[0],
        a.len() == 0 ==> a + b == b,
{
    let t = a + b;
    if b.len() == 0 {
        assert(t =~= a);
    }
    if a.len() == 0 {
        assert(t =~= b);
    }
    if holds_marker(t) {
        let i = choose|i: int| 0 <= i && i + 16 <= t.len() && #[trigger] t.subrange(i, i + 16) == map_marker();
        let w = t.subrange(i, i + 16);
        if i + 16 <= a.len() {
            assert(a.subrange(i, i + 16) =~= w);
        } else if i >= a.len() {
            assert(b.subrange(i - a.len(), i - a.len() + 16) =~= w);
        } else {
            let j = a.len() - 1 - i;
            assert(w[j] == a.last());
            assert(w[j + 1] == b[0]);
            assert(forall|k: int| 0 <= k < 16 ==> is_letter(#[trigger] map_marker()[k]));
            assert(is_letter(map_marker()[j]));
            assert(is_letter(map_marker()[j + 1]));
        }
    }
}

/// A text without the marker keeps none when a line ending is added.
proof fn lemma_final_newline_free(s: Seq<char>)
    requires
        !holds_marker(s),
    ensures
        !holds_marker(with_final_newline(s)),
        with_final_newline(s).len() > 0,
        with_final_newline(s).last() == '\n',
{
    if !ends_with_newline(s) {
        let nl = seq!['\n'];
        lemma_no_m_no_marker(nl);
        lemma_cat_free(s, nl);
        assert(s.push('\n') =~= s + nl);
    }
}

/// The fixed texts of a production bundle hold no `M`, and where they meet
/// the module's texts stand non-letters.
proof fn lemma_production_literals()
    ensures
        !holds_marker("-- generated by lunar-bundler\n"@),
        !holds_marker("\n-- "@),
        !holds_marker("\n"@),
        !holds_marker("__modules[\""@),
        !holds_marker("\"] = (function()\n"@),
        !holds_marker("end)()\n"@),
        !holds_marker(prod_shim()),
        ("-- generated by lunar-bundler\n"@).last() == '\n',
        ("\n-- "@).last() == ' ',
        ("\n"@)[0] == '\n' && ("\n"@).len() == 1,
        ("__modules[\""@).last() == '"',
        ("\"] = (function()\n"@)[0] == '"' && ("\"] = (function()\n"@).last() == '\n' && ("\"] = (function()\n"@).len() > 0,
        ("__modules[\""@).len() > 0 && ("\n-- "@).len() > 0 && ("-- generated by lunar-bundler\n"@).len() > 0,
        ("end)()\n"@).last() == '\n' && ("end)()\n"@).len() > 0,
        prod_shim().len() > 0 && prod_shim().last() == '\n',
{
    reveal_strlit("-- generated by lunar-bundler\n");
    reveal_strlit("\n-- ");
    reveal_strlit("\n");
    reveal_strlit("__modules[\"");
    reveal_strlit("\"] = (function()\n");
    reveal_strlit("end)()\n");
    reveal_strlit("
local __modules = {}
local __require = require
local function require(name)
    if __modules[name] ~= nil then
        return __modules[name]
    end
    return __require(name)
end
");
    lemma_no_m_no_marker("-- generated by lunar-bundler\n"@);
    lemma_no_m_no_marker("\n-- "@);
    lemma_no_m_no_marker("\n"@);
    lemma_no_m_no_marker("__modules[\""@);
    lemma_no_m_no_marker("\"] = (function()\n"@);
    lemma_no_m_no_marker("end)()\n"@);
    lemma_no_m_no_marker(prod_shim());
}

proof fn lemma_path_comment_free(p: Seq<char>)
    requires
        !holds_marker(p),
    ensures
        !holds_marker(path_comment(p)),
        path_comment(p).len() > 0 && path_comment(p).last() == '\n',
{
    lemma_production_literals();
    lemma_cat_free("\n-- "@, p);
    lemma_cat_free("\n-- "@ + p, "\n"@);
}

proof fn lemma_module_text_free(m: ModuleView)
    requires
        !holds_marker(m.0),
        !holds_marker(m.1),
        !holds_marker(m.2),
    ensures
        !holds_marker(module_text(BuildMode::Production, m)),
        module_text(BuildMode::Production, m).len() > 0 && module_text(BuildMode::Production, m).last() == '\n',
{
    lemma_production_literals();
    lemma_path_comment_free(m.0);
    let h1 = "__modules[\""@ + m.1;
    lemma_cat_free("__modules[\""@, m.1);
    lemma_cat_free(h1, "\"] = (function()\n"@);
    let h = module_header(BuildMode::Production, m.1, m.0);
    assert(h == h1 + "\"] = (function()\n"@);
    lemma_cat_free(path_comment(m.0), h);
    lemma_final_newline_free(m.2);
    lemma_cat_free(path_comment(m.0) + h, with_final_newline(m.2));
    lemma_cat_free(path_comment(m.0) + h + with_final_newline(m.2), "end)()\n"@);
}

proof fn lemma_modules_text_free(mods: Seq<ModuleView>, k: int)
    requires
        0 <= k <= mods.len(),
        forall|j: int|
            0 <= j < mods.len() ==> !holds_marker((#[trigger] mods[j]).0) && !holds_marker(mods[j].1) && !holds_marker(
                mods[j].2,
            ),
    ensures
        !holds_marker(modules_text(BuildMode::Production, mods, k)),
        modules_text(BuildMode::Production, mods, k).len() == 0 || modules_text(BuildMode::Production, mods, k).last()
            == '\n',
    decreases k,
{
    if k > 0 {
        lemma_modules_text_free(mods, k - 1);
        lemma_module_text_free(mods[k - 1]);
        lemma_cat_free(modules_text(BuildMode::Production, mods, k - 1), module_text(BuildMode::Production, mods[k - 1]));
    } else {
        assert(!holds_marker(Seq::<char>::empty()));
    }
}

/// The source map hint stands in a bundle exactly in development: a
/// development bundle holds `sourceMappingURL`, and a production bundle
/// holds none when neither injection nor any module's path, name or source
/// does.
pub proof fn lemma_map_marker_only_in_development(
    top: Option<Seq<char>>,
    bottom: Option<Seq<char>>,
    mode: BuildMode,
    mods: Seq<ModuleView>,
)
    requires
        mods.len() > 0,
        mode is Production ==> (top matches Some(t) ==> !holds_marker(t)),
        mode is Production ==> (bottom matches Some(t) ==> !holds_marker(t)),
        mode is Production ==> forall|j: int|
            0 <= j < mods.len() ==> !holds_marker((#[trigger] mods[j]).0) && !holds_marker(mods[j].1) && !holds_marker(
                mods[j].2,
            ),
    ensures
        holds_marker(spec_bundle_text(top, bottom, mode, mods)) == (mode is Development),
{
    let t = spec_bundle_text(top, bottom, mode, mods);
    if mode is Development {
        lemma_source_map_hint(top, bottom, mode, mods);
        let h = url_hint(BuildMode::Development);
        reveal_strlit("--# sourceMappingURL=");
        reveal_strlit("bundle.lua");
        reveal_strlit(".map\n");
        let i = t.len() - h.len() + 4;
        assert(h.subrange(4, 20) =~= map_marker());
        assert(t.subrange(i, i + 16) =~= h.subrange(4, 20));
    } else {
        lemma_production_literals();
        let n = mods.len() as int;
        let head = "-- generated by lunar-bundler\n"@;
        let it = injection_text(top);
        let ib = injection_text(bottom);
        match top {
            Some(x) => lemma_final_newline_free(x),
            None => assert(!holds_marker(Seq::<char>::empty())),
        }
        match bottom {
            Some(x) => lemma_final_newline_free(x),
            None => assert(!holds_marker(Seq::<char>::empty())),
        }
        lemma_cat_free(head, it);
        lemma_cat_free(head + it, prod_shim());
        lemma_modules_text_free(mods, n - 1);
        lemma_cat_free(head + it + prod_shim(), modules_text(mode, mods, n - 1));
        let e = mods[n - 1];
        lemma_path_comment_free(e.0);
        lemma_final_newline_free(e.2);
        lemma_cat_free(path_comment(e.0), with_final_newline(e.2));
        let body = head + it + prod_shim() + modules_text(mode, mods, n - 1);
        lemma_cat_free(body, entry_text(e));
        lemma_cat_free(body + entry_text(e), ib);
        assert(url_hint(mode) =~= Seq::<char>::empty());
        assert(t =~= body + entry_text(e) + ib);
    }
}

/// The character that the Lua escape `\c` stands for inside a quoted
/// string, for the escapes `\\`, `\"`, `\'`, `\n`, `\t` and `\r`; none for
/// any other (such as `\u`, which Lua reads as the start of a code point).
pub open spec fn lua_escape_value(c: char) -> Option<char> {
    if c == '\\' {
        Some('\\')
    } else if c == '"' {
        Some('"')
    } else if c == '\'' {
        Some('\'')
    } else if c == 'n' {
        Some('\n')
    } else if c == 't' {
        Some('\t')
    } else if c == 'r' {
        Some('\r')
    } else {
        None
    }
}

/// How Lua reads the body of a double-quoted string literal from position
/// `i` of `t`: the characters up to the first `"` that no backslash escapes,
/// each escape read as the character it stands for; the value read and the
/// position of that closing quote, or none when the text ends first or holds
/// an escape other than those of [`lua_escape_value`].
pub open spec fn lua_read(t: Seq<char>, i: int) -> Option<(Seq<char>, int)>
    decreases t.len() - i,
{
    if i < 0 || i >= t.len() {
        None
    } else if t[i] == '"' {
        Some((Seq::empty(), i))
    } else if t[i] == '\\' {
        if i + 1 >= t.len() {
            None
        } else {
            match lua_escape_value(t[i + 1]) {
                Some(x) => match lua_read(t, i + 2) {
                    Some((v, e)) => Some((seq![x] + v, e)),
                    None => None,
                },
                None => None,
            }
        }
    } else {
        match lua_read(t, i + 1) {
            Some((v, e)) => Some((seq![t[i]] + v, e)),
            None => None,
        }
    }
}

proof fn lemma_escape_lua_front(c: char, s: Seq<char>)
    ensures
        escape_lua(seq![c] + s) == escape_char(c) + escape_lua(s),
    decreases s.len(),
{
    if s.len() == 0 {
        assert(seq![c] + s =~= seq![c]);
        assert(seq![c].drop_last() =~= Seq::<char>::empty());
        assert(escape_lua(Seq::<char>::empty()) =~= Seq::<char>::empty());
        assert(escape_char(c) + escape_lua(s) =~= escape_char(c));
    } else {
        let t = seq![c] + s;
        assert(t.drop_last() =~= seq![c] + s.drop_last());
        assert(t.last() == s.last());
        lemma_escape_lua_front(c, s.drop_last());
        assert(escape_lua(t) =~= escape_char(c) + escape_lua(s.drop_last()) + escape_char(s.last()));
    }
}

/// What a Lua string literal holds when a name or path is written between
/// double quotes as the bundle writes it: reading the escaped text back, up
/// to the closing quote, gives the name or path itself, whatever precedes and
/// follows it.
pub proof fn lemma_escape_reads_back(p: Seq<char>, s: Seq<char>, rest: Seq<char>)
    ensures
        lua_read(p + escape_lua(s) + seq!['"'] + rest, p.len() as int) == Some((s, (p.len() + escape_lua(s).len()) as int)),
    decreases s.len(),
{
    let t = p + escape_lua(s) + seq!['"'] + rest;
    let i = p.len() as int;
    if s.len() == 0 {
        assert(escape_lua(s) =~= Seq::<char>::empty());
        assert(t[i] == '"');
        assert(s =~= Seq::<char>::empty());
    } else {
        let c = s[0];
        let s2 = s.drop_first();
        assert(s =~= seq![c] + s2);
        lemma_escape_lua_front(c, s2);
        let ec = escape_char(c);
        let p2 = p + ec;
        assert(t =~= p2 + escape_lua(s2) + seq!['"'] + rest);
        lemma_escape_reads_back(p2, s2, rest);
        assert(t[i] == ec[0]);
        if c == '\\' || c == '"' {
            assert(t[i] == '\\');
            assert(t[i + 1] == ec[1]);
            assert(lua_escape_value(ec[1]) == Some(c));
        } else {
            assert(t[i] == c);
        }
        assert(seq![c] + s2 =~= s);
    }
}

/// The wrapper of a development build opens with the module's name and path
/// as Lua string literals that read back as the name and the path.
pub proof fn lemma_dev_header_names(name: Seq<char>, path: Seq<char>)
    ensures
        ({
            let h = module_header(BuildMode::Development, name, path);
            let a = "__modules[\""@.len() as int;
            &&& lua_read(h, a) == Some((name, a + escape_lua(name).len()))
            &&& lua_read(h, a + escape_lua(name).len() + "\"] = __module_wrap(\""@.len()) == Some(
                (name, a + escape_lua(name).len() + "\"] = __module_wrap(\""@.len() + escape_lua(name).len()),
            )
            &&& lua_read(
                h,
                a + escape_lua(name).len() + "\"] = __module_wrap(\""@.len() + escape_lua(name).len() + "\", \""@.len(),
            ) == Some(
                (
                    path,
                    a + escape_lua(name).len() + "\"] = __module_wrap(\""@.len() + escape_lua(name).len()
                        + "\", \""@.len() + escape_lua(path).len(),
                ),
            )
        }),
{
    reveal_strlit("\"] = __module_wrap(\"");
    reveal_strlit("\", \"");
    reveal_strlit("\", function()\n");
    let l1 = "__modules[\""@;
    let l2 = "\"] = __module_wrap(\""@;
    let l3 = "\", \""@;
    let l4 = "\", function()\n"@;
    let en = escape_lua(name);
    let ep = escape_lua(path);
    let h = module_header(BuildMode::Development, name, path);
    assert(h == l1 + en + l2 + en + l3 + ep + l4);
    assert(l2 =~= seq!['"'] + l2.drop_first());
    assert(l3 =~= seq!['"'] + l3.drop_first());
    assert(l4 =~= seq!['"'] + l4.drop_first());
    assert(h =~= l1 + en + seq!['"'] + (l2.drop_first() + en + l3 + ep + l4));
    lemma_escape_reads_back(l1, name, l2.drop_first() + en + l3 + ep + l4);
    assert(h =~= (l1 + en + l2) + en + seq!['"'] + (l3.drop_first() + ep + l4));
    lemma_escape_reads_back(l1 + en + l2, name, l3.drop_first() + ep + l4);
    assert(h =~= (l1 + en + l2 + en + l3) + ep + seq!['"'] + l4.drop_first());
    lemma_escape_reads_back(l1 + en + l2 + en + l3, path, l4.drop_first());
}

} // verus!

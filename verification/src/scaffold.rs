//! Project templates for `init`: the files that a new project starts with.
use vstd::prelude::*;

use crate::text::{push_str, str_chars, chars_eq_str, chars_to_string};

verus! {

/// The configuration of a Moonscript project.
pub const MOONSCRIPT_CONFIG: &'static str = r#"[bundle]
entry = "src/main.lua"
output = "bundle.lua"

[resolve]
extensions = ["moon", "lua"]

[loaders]
commands = { moonscript = "moonc -" }

[[loaders.rules]]
test = "*.moon"
use = ["@moonscript"]
"#;

/// The entry point of a Moonscript project.
pub const MOONSCRIPT_MAIN: &'static str = r#"-- entry point
local Greeting = require("greeting")

local g = Greeting("world")
g:say()
"#;

/// The module of a Moonscript project.
pub const MOONSCRIPT_GREETING: &'static str = r#"class Greeting
  new: (name) =>
    @name = name
  say: =>
    print "Hello, #{@name}!"

{ :Greeting }
"#;

/// The configuration of a Teal project.
pub const TEAL_CONFIG: &'static str = r#"[bundle]
entry = "src/main.lua"
output = "bundle.lua"

[resolve]
extensions = ["tl", "lua"]

[loaders]
commands = { teal = "tl gen -" }

[[loaders.rules]]
test = "*.tl"
use = ["teal"]
"#;

/// The entry point of a Teal or a plain Lua project.
pub const GREET_MAIN: &'static str = r#"-- entry point
local greet = require("greeting")

greet.hello("world")
"#;

/// The module of a Teal project.
pub const TEAL_GREETING: &'static str = r#"local function hello(name: string)
    print("Hello, " .. name)
end

return { hello = hello }
"#;

/// The configuration of a plain Lua project.
pub const LUA_CONFIG: &'static str = r#"[bundle]
entry = "src/main.lua"
output = "bundle.lua"

[paths]
search = ["."]
"#;

/// The module of a plain Lua project.
pub const LUA_GREETING: &'static str = r#"local function hello(name)
    print("Hello, " .. name)
end

return { hello = hello }
"#;

/// A file of a new project: its path relative to the project directory
/// (components separated by `/`) and its contents.
pub struct ScaffoldFile {
    pub path: String,
    pub contents: String,
}

/// What `init` writes for a template: the template's display name and the
/// files, the configuration first.
pub struct ScaffoldPlan {
    pub label: String,
    pub files: Vec<ScaffoldFile>,
}

/// The files of each template, as (path, contents) views.
pub open spec fn template_files(template: Seq<char>) -> Seq<(Seq<char>, Seq<char>)> {
    if template == "moonscript"@ {
        seq![
            ("lunar_bundler.toml"@, MOONSCRIPT_CONFIG@),
            ("src/main.lua"@, MOONSCRIPT_MAIN@),
            ("src/greeting.moon"@, MOONSCRIPT_GREETING@),
        ]
    } else if template == "teal"@ {
        seq![
            ("lunar_bundler.toml"@, TEAL_CONFIG@),
            ("src/main.lua"@, GREET_MAIN@),
            ("src/greeting.tl"@, TEAL_GREETING@),
        ]
    } else {
        seq![
            ("lunar_bundler.toml"@, LUA_CONFIG@),
            ("src/main.lua"@, GREET_MAIN@),
            ("src/greeting.lua"@, LUA_GREETING@),
        ]
    }
}

/// The display name of each template.
pub open spec fn template_label(template: Seq<char>) -> Seq<char> {
    if template == "moonscript"@ {
        "Moonscript"@
    } else if template == "teal"@ {
        "Teal"@
    } else {
        "Lua"@
    }
}

/// Whether `init` knows the template.
pub open spec fn known_template(template: Seq<char>) -> bool {
    template == "moonscript"@ || template == "teal"@ || template == "lua"@
}

/// The view of a list of files.
pub open spec fn files_view(files: Seq<ScaffoldFile>) -> Seq<(Seq<char>, Seq<char>)> {
    files.map_values(|f: ScaffoldFile| (f.path@, f.contents@))
}

/// A file of the plan.
fn file(path: &str, contents: &str) -> (r: ScaffoldFile)
    ensures
        r.path@ == path@,
        r.contents@ == contents@,
{
    ScaffoldFile { path: path.to_owned(), contents: contents.to_owned() }
}

/// The project that `init` scaffolds for a template: `moonscript`, `teal` or
/// `lua`, each with a configuration, an entry point and one module. Any
/// other name is refused with the list of the known ones.
pub fn scaffold_plan(template: &str) -> (r: Result<ScaffoldPlan, String>)
    ensures
        match r {
            Ok(plan) => known_template(template@) && plan.label@ == template_label(template@) && files_view(
                plan.files@,
            ) == template_files(template@),
            Err(msg) => !known_template(template@) && msg@ == "unknown template '"@ + template@
                + "'. available: moonscript, teal, lua"@,
        },
{
    let t = str_chars(template);
    let mut files: Vec<ScaffoldFile> = Vec::new();
    if chars_eq_str(&t, "moonscript") {
        files.push(file("lunar_bundler.toml", MOONSCRIPT_CONFIG));
        files.push(file("src/main.lua", MOONSCRIPT_MAIN));
        files.push(file("src/greeting.moon", MOONSCRIPT_GREETING));
        assert(files_view(files@) =~= template_files(template@));
        Ok(ScaffoldPlan { label: "Moonscript".to_owned(), files })
    } else if chars_eq_str(&t, "teal") {
        files.push(file("lunar_bundler.toml", TEAL_CONFIG));
        files.push(file("src/main.lua", GREET_MAIN));
        files.push(file("src/greeting.tl", TEAL_GREETING));
        assert(files_view(files@) =~= template_files(template@));
        Ok(ScaffoldPlan { label: "Teal".to_owned(), files })
    } else if chars_eq_str(&t, "lua") {
        files.push(file("lunar_bundler.toml", LUA_CONFIG));
        files.push(file("src/main.lua", GREET_MAIN));
        files.push(file("src/greeting.lua", LUA_GREETING));
        assert(files_view(files@) =~= template_files(template@));
        Ok(ScaffoldPlan { label: "Lua".to_owned(), files })
    } else {
        let mut m: Vec<char> = Vec::new();
        push_str(&mut m, "unknown template '");
        push_str(&mut m, template);
        push_str(&mut m, "'. available: moonscript, teal, lua");
        Err(chars_to_string(&m))
    }
}

} // verus!

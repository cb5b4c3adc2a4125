//! LuaRocks support: where pure-Lua rocks are installed, and which modules
//! are native C libraries that cannot be bundled.
use vstd::prelude::*;

use crate::bundler::string_views;
use crate::emitter::text_view;
use crate::paths::{bare_name, joined, name_extension, path_exists, path_extension, path_join, plain_join};
use crate::text::{chars_eq, chars_eq_str, chars_to_string, push_str, str_chars, trim, trim_chars};

verus! {

/// The dotted form of a Lua version: `51` .. `55` become `5.1` .. `5.5`;
/// anything else stays as it is.
pub open spec fn spec_normalize_version(v: Seq<char>) -> Seq<char> {
    if v == "51"@ {
        "5.1"@
    } else if v == "52"@ {
        "5.2"@
    } else if v == "53"@ {
        "5.3"@
    } else if v == "54"@ {
        "5.4"@
    } else if v == "55"@ {
        "5.5"@
    } else {
        v
    }
}

/// The dotted form of a Lua version, as LuaRocks names its directories.
pub fn normalize_version(lua_version: &str) -> (r: String)
    ensures
        r@ == spec_normalize_version(lua_version@),
{
    let v = str_chars(lua_version);
    if chars_eq_str(&v, "51") {
        "5.1".to_owned()
    } else if chars_eq_str(&v, "52") {
        "5.2".to_owned()
    } else if chars_eq_str(&v, "53") {
        "5.3".to_owned()
    } else if chars_eq_str(&v, "54") {
        "5.4".to_owned()
    } else if chars_eq_str(&v, "55") {
        "5.5".to_owned()
    } else {
        lua_version.to_owned()
    }
}

/// Whether a file extension is that of a native library: `so`, `dll`, `dylib`.
pub open spec fn spec_native_extension(ext: Option<Seq<char>>) -> bool {
    match ext {
        Some(e) => e == "so"@ || e == "dll"@ || e == "dylib"@,
        None => false,
    }
}

/// Whether a file extension is that of a native library.
pub fn is_native_extension(ext: Option<&str>) -> (b: bool)
    ensures
        b == spec_native_extension(match ext { Some(e) => Some(e@), None => None }),
{
    match ext {
        Some(e) => {
            let v = str_chars(e);
            chars_eq_str(&v, "so") || chars_eq_str(&v, "dll") || chars_eq_str(&v, "dylib")
        },
        None => false,
    }
}

/// Whether the file at `path` is a native C library (by its extension), which
/// cannot be bundled. The extension is taken by the platform's path rules; for
/// a bare file name it is what follows the name's last `.`.
pub fn is_native_module(path: &str) -> (b: bool)
    ensures
        bare_name(path@) ==> b == spec_native_extension(name_extension(path@)),
{
    match path_extension(path) {
        Some(e) => is_native_extension(Some(e.as_str())),
        None => is_native_extension(None),
    }
}

/// The operating systems whose LuaRocks layouts the bundler knows.
#[derive(Debug, Clone, Copy, PartialEq, Eq, Structural)]
pub enum Platform {
    Windows,
    MacOs,
    Linux,
    Other,
}

/// `s` split at each `sep`, as `str::split` yields the pieces (the last one
/// possibly empty).
pub open spec fn split_on(s: Seq<char>, sep: char) -> Seq<Seq<char>>
    decreases s.len(),
{
    if s.len() == 0 {
        seq![Seq::<char>::empty()]
    } else {
        let rest = split_on(s.drop_last(), sep);
        if s.last() == sep {
            rest.push(Seq::empty())
        } else {
            rest.update(rest.len() - 1, rest.last().push(s.last()))
        }
    }
}

/// `s` with every trailing repetition of `suffix` removed, as
/// `str::trim_end_matches` with a string pattern does.
pub open spec fn strip_suffix_all(s: Seq<char>, suffix: Seq<char>) -> Seq<char>
    decreases s.len(),
{
    if suffix.len() > 0 && suffix.len() <= s.len() && s.subrange(s.len() - suffix.len(), s.len() as int)
        == suffix {
        strip_suffix_all(s.subrange(0, s.len() - suffix.len()), suffix)
    } else {
        s
    }
}

/// `s` without trailing `/` and `\`.
pub open spec fn strip_slashes(s: Seq<char>) -> Seq<char>
    decreases s.len(),
{
    if s.len() > 0 && (s.last() == '/' || s.last() == '\\') {
        strip_slashes(s.drop_last())
    } else {
        s
    }
}

/// The directory that one entry of `luarocks path --lr-path` names: the
/// entry trimmed, without its `?/init.lua` and `?.lua` templates and
/// without trailing separators.
pub open spec fn lr_base(entry: Seq<char>) -> Seq<char> {
    strip_slashes(strip_suffix_all(strip_suffix_all(trim(entry), "?/init.lua"@), "?.lua"@))
}

/// The non-empty directories of a list of `--lr-path` entries.
pub open spec fn lr_dirs(entries: Seq<Seq<char>>) -> Seq<Seq<char>>
    decreases entries.len(),
{
    if entries.len() == 0 {
        Seq::empty()
    } else {
        let rest = lr_dirs(entries.drop_last());
        let b = lr_base(entries.last());
        if b.len() > 0 {
            rest.push(b)
        } else {
            rest
        }
    }
}

/// The directories that the output of `luarocks path --lr-path` names:
/// entries are separated by `;` on every platform.
pub open spec fn spec_parse_lr_path(output: Seq<char>) -> Seq<Seq<char>> {
    lr_dirs(split_on(output, ';'))
}

/// Splits `s` at each `sep`.
fn split_chars(s: &Vec<char>, sep: char) -> (r: Vec<Vec<char>>)
    ensures
        r@.map_values(|v: Vec<char>| v@) == split_on(s@, sep),
{
    let mut pieces: Vec<Vec<char>> = Vec::new();
    let mut cur: Vec<char> = Vec::new();
    let mut i: usize = 0;
    while i < s.len()
        invariant
            i <= s@.len(),
            pieces@.map_values(|v: Vec<char>| v@).push(cur@) == split_on(s@.take(i as int), sep),
        decreases s@.len() - i,
    {
        let ghost before = pieces@.map_values(|v: Vec<char>| v@).push(cur@);
        assert(s@.take(i + 1).drop_last() == s@.take(i as int));
        assert(s@.take(i + 1).last() == s@[i as int]);
        if s[i] == sep {
            let done = cur;
            pieces.push(done);
            cur = Vec::new();
            assert(pieces@.map_values(|v: Vec<char>| v@).push(cur@) =~= before.push(Seq::empty()));
        } else {
            let ghost old_cur = cur@;
            cur.push(s[i]);
            assert(pieces@.map_values(|v: Vec<char>| v@).push(cur@) =~= before.update(
                before.len() - 1,
                before.last().push(s@[i as int]),
            ));
        }
        i = i + 1;
    }
    assert(s@.take(s@.len() as int) == s@);
    let ghost before = pieces@.map_values(|v: Vec<char>| v@);
    pieces.push(cur);
    assert(pieces@.map_values(|v: Vec<char>| v@) =~= before.push(pieces@.last()@));
    pieces
}

/// `v` with every trailing repetition of `suffix` removed.
fn strip_suffix_chars(v: Vec<char>, suffix: &str) -> (r: Vec<char>)
    ensures
        r@ == strip_suffix_all(v@, suffix@),
{
    let suf = str_chars(suffix);
    let mut n: usize = v.len();
    assert(v@.subrange(0, n as int) == v@);
    loop
        invariant
            n <= v@.len(),
            suf@ == suffix@,
            strip_suffix_all(v@, suffix@) == strip_suffix_all(v@.subrange(0, n as int), suffix@),
        ensures
            n <= v@.len(),
            strip_suffix_all(v@, suffix@) == v@.subrange(0, n as int),
        decreases n,
    {
        let ghost cur = v@.subrange(0, n as int);
        if suf.len() == 0 || suf.len() > n {
            assert(strip_suffix_all(cur, suffix@) == cur);
            break;
        }
        let start = n - suf.len();
        let mut same = true;
        let mut j: usize = 0;
        while j < suf.len()
            invariant
                j <= suf@.len(),
                start + suf@.len() == n <= v@.len(),
                same == (forall|t: int| 0 <= t < j ==> v@[start + t] == suf@[t]),
            decreases suf@.len() - j,
        {
            if v[start + j] != suf[j] {
                same = false;
            }
            j = j + 1;
        }
        proof {
            if same {
                assert(cur.subrange(cur.len() - suf@.len(), cur.len() as int) =~= suf@);
            } else {
                let t = choose|t: int| 0 <= t < suf@.len() && v@[start + t] != suf@[t];
                assert(cur.subrange(cur.len() - suf@.len(), cur.len() as int)[t] != suf@[t]);
            }
        }
        if !same {
            assert(strip_suffix_all(cur, suffix@) == cur);
            break;
        }
        assert(cur.subrange(0, cur.len() - suf@.len()) == v@.subrange(0, start as int));
        n = start;
    }
    let mut r: Vec<char> = Vec::new();
    let mut i: usize = 0;
    while i < n
        invariant
            i <= n <= v@.len(),
            r@ == v@.subrange(0, i as int),
        decreases n - i,
    {
        r.push(v[i]);
        i = i + 1;
        assert(r@ == v@.subrange(0, i as int));
    }
    r
}

/// `v` without trailing `/` and `\`.
fn strip_slash_chars(v: Vec<char>) -> (r: Vec<char>)
    ensures
        r@ == strip_slashes(v@),
{
    let mut r = v;
    while r.len() > 0 && (r[r.len() - 1] == '/' || r[r.len() - 1] == '\\')
        invariant
            strip_slashes(r@) == strip_slashes(v@),
        decreases r@.len(),
    {
        r.pop();
    }
    r
}

/// The directories that the output of `luarocks path --lr-path` names, in
/// order: each `;`-separated entry trimmed, stripped of its `?/init.lua` and
/// `?.lua` templates and of trailing separators; empty ones are dropped.
pub fn parse_lr_path(output: &str) -> (r: Vec<String>)
    ensures
        string_views(r@) == spec_parse_lr_path(output@),
{
    let chars = str_chars(output);
    let parts = split_chars(&chars, ';');
    let ghost views = parts@.map_values(|v: Vec<char>| v@);
    let mut r: Vec<String> = Vec::new();
    let mut k: usize = 0;
    while k < parts.len()
        invariant
            k <= parts@.len(),
            views == parts@.map_values(|v: Vec<char>| v@),
            views == split_on(output@, ';'),
            string_views(r@) == lr_dirs(views.take(k as int)),
        decreases parts@.len() - k,
    {
        let ghost before = string_views(r@);
        assert(views.take(k + 1).drop_last() == views.take(k as int));
        assert(views.take(k + 1).last() == parts@[k as int]@);
        let piece = chars_to_string(&parts[k]);
        let t = trim_chars(piece.as_str());
        let t = strip_suffix_chars(t, "?/init.lua");
        let t = strip_suffix_chars(t, "?.lua");
        let t = strip_slash_chars(t);
        if t.len() > 0 {
            r.push(chars_to_string(&t));
            assert(string_views(r@) =~= before.push(t@));
        }
        k = k + 1;
    }
    assert(views.take(views.len() as int) == views);
    r
}

/// The install trees that LuaRocks uses on a platform for a Lua version
/// (with dots), apart from those under `%APPDATA%` on Windows.
pub open spec fn fixed_defaults(version: Seq<char>, platform: Platform) -> Seq<Seq<char>> {
    match platform {
        Platform::Windows => seq![
            "C:/Program Files/Lua/"@ + version + "/lua"@,
            "C:/LuaRocks/share/lua/"@ + version,
            "C:/LuaRocks/lib/lua/"@ + version,
        ],
        Platform::MacOs => seq![
            "/usr/local/share/lua/"@ + version,
            "/usr/local/lib/lua/"@ + version,
            "/opt/homebrew/share/lua/"@ + version,
            "/opt/homebrew/lib/lua/"@ + version,
            "/opt/local/share/lua/"@ + version,
        ],
        Platform::Linux => seq![
            "/usr/local/share/lua/"@ + version,
            "/usr/local/lib/lua/"@ + version,
            "/usr/share/lua/"@ + version,
            "/usr/lib/lua/"@ + version,
        ],
        Platform::Other => seq!["/usr/local/share/lua/"@ + version, "/usr/local/lib/lua/"@ + version],
    }
}

/// `prefix` followed by `version`, as a string.
fn prefixed_path(prefix: &str, version: &str, suffix: &str) -> (r: String)
    ensures
        r@ == prefix@ + version@ + suffix@,
{
    let mut v: Vec<char> = Vec::new();
    push_str(&mut v, prefix);
    push_str(&mut v, version);
    push_str(&mut v, suffix);
    chars_to_string(&v)
}

/// The install trees that LuaRocks uses on a platform for a Lua version
/// (with dots): the fixed ones, then, on Windows with `%APPDATA%` set, the
/// `share` tree and then the `lib` tree under it (joined by the platform's
/// path rules).
pub fn default_paths(version: &str, platform: Platform, appdata: Option<String>) -> (r: Vec<String>)
    ensures
        string_views(r@).take(fixed_defaults(version@, platform).len() as int) == fixed_defaults(version@, platform),
        r@.len() == fixed_defaults(version@, platform).len() + (if platform == Platform::Windows && appdata is Some {
            2int
        } else {
            0int
        }),
        platform == Platform::Windows && appdata is Some && plain_join(appdata.unwrap()@, "LuaRocks/share/lua/"@ + version@)
            ==> joined(appdata.unwrap()@, "LuaRocks/share/lua/"@ + version@, r@[3]@),
        platform == Platform::Windows && appdata is Some && plain_join(appdata.unwrap()@, "LuaRocks/lib/lua/"@ + version@)
            ==> joined(appdata.unwrap()@, "LuaRocks/lib/lua/"@ + version@, r@[4]@),
{
    proof {
        reveal_strlit("");
    }
    let mut r: Vec<String> = Vec::new();
    match platform {
        Platform::Windows => {
            r.push(prefixed_path("C:/Program Files/Lua/", version, "/lua"));
            r.push(prefixed_path("C:/LuaRocks/share/lua/", version, ""));
            r.push(prefixed_path("C:/LuaRocks/lib/lua/", version, ""));
            assert(string_views(r@) =~= fixed_defaults(version@, platform));
            match appdata {
                Some(dir) => {
                    r.push(path_join(dir.as_str(), prefixed_path("LuaRocks/share/lua/", version, "").as_str()));
                    r.push(path_join(dir.as_str(), prefixed_path("LuaRocks/lib/lua/", version, "").as_str()));
                },
                None => {},
            }
        },
        Platform::MacOs => {
            r.push(prefixed_path("/usr/local/share/lua/", version, ""));
            r.push(prefixed_path("/usr/local/lib/lua/", version, ""));
            r.push(prefixed_path("/opt/homebrew/share/lua/", version, ""));
            r.push(prefixed_path("/opt/homebrew/lib/lua/", version, ""));
            r.push(prefixed_path("/opt/local/share/lua/", version, ""));
        },
        Platform::Linux => {
            r.push(prefixed_path("/usr/local/share/lua/", version, ""));
            r.push(prefixed_path("/usr/local/lib/lua/", version, ""));
            r.push(prefixed_path("/usr/share/lua/", version, ""));
            r.push(prefixed_path("/usr/lib/lua/", version, ""));
        },
        Platform::Other => {
            r.push(prefixed_path("/usr/local/share/lua/", version, ""));
            r.push(prefixed_path("/usr/local/lib/lua/", version, ""));
        },
    }
    assert(string_views(r@).take(fixed_defaults(version@, platform).len() as int) =~= fixed_defaults(version@, platform));
    r
}

/// `dirs::home_dir`: the current user's home directory, if the platform
/// reports one. It comes from the environment and the user database, so
/// nothing is stated of it.
#[verifier::external_body]
fn home_dir() -> Option<String> {
    match dirs::home_dir() {
        Some(p) => Some(p.to_string_lossy().into_owned()),
        None => None,
    }
}

/// Whether `r` is `rel` joined to `base`, as far as joining is stated.
pub open spec fn tree_fits(base: Seq<char>, rel: Seq<char>, r: Seq<char>) -> bool {
    plain_join(base, rel) ==> joined(base, rel, r)
}

/// Where the per-user LuaRocks tree of `kind` (`share` or `lib`) lies under
/// the home directory: `AppData/Roaming/LuaRocks/<kind>/lua/<version>` on
/// Windows, `.luarocks/<kind>/lua/<version>` elsewhere.
pub open spec fn home_tree(platform: Platform, kind: Seq<char>, version: Seq<char>) -> Seq<char> {
    if platform == Platform::Windows {
        "AppData/Roaming/LuaRocks/"@ + kind + "/lua/"@ + version
    } else {
        ".luarocks/"@ + kind + "/lua/"@ + version
    }
}

/// Whether `t` is the per-user `share` tree and then the `lib` tree under
/// the home directory `home`.
pub open spec fn home_trees_fit(home: Seq<char>, version: Seq<char>, platform: Platform, t: Seq<Seq<char>>) -> bool {
    &&& t.len() == 2
    &&& tree_fits(home, home_tree(platform, "share"@, version), t[0])
    &&& tree_fits(home, home_tree(platform, "lib"@, version), t[1])
}

/// Whether `t` is the `share` tree and then the `lib` tree under `%APPDATA%`.
pub open spec fn appdata_trees_fit(appdata: Seq<char>, version: Seq<char>, t: Seq<Seq<char>>) -> bool {
    &&& t.len() == 2
    &&& tree_fits(appdata, "LuaRocks/share/lua/"@ + version, t[0])
    &&& tree_fits(appdata, "LuaRocks/lib/lua/"@ + version, t[1])
}

/// The per-user install trees under a home directory (joined by the
/// platform's path rules): the `share` tree, then the `lib` tree.
fn home_paths(version: &str, platform: Platform, home: &str) -> (r: Vec<String>)
    ensures
        home_trees_fit(home@, version@, platform, string_views(r@)),
{
    proof {
        reveal_strlit("share");
        reveal_strlit("lib");
        reveal_strlit("/lua/");
        reveal_strlit("AppData/Roaming/LuaRocks/");
        reveal_strlit(".luarocks/");
        reveal_strlit("AppData/Roaming/LuaRocks/share/lua/");
        reveal_strlit("AppData/Roaming/LuaRocks/lib/lua/");
        reveal_strlit(".luarocks/share/lua/");
        reveal_strlit(".luarocks/lib/lua/");
        reveal_strlit("");
    }
    let (share, lib) = match platform {
        Platform::Windows => (
            prefixed_path("AppData/Roaming/LuaRocks/share/lua/", version, ""),
            prefixed_path("AppData/Roaming/LuaRocks/lib/lua/", version, ""),
        ),
        _ => (prefixed_path(".luarocks/share/lua/", version, ""), prefixed_path(".luarocks/lib/lua/", version, "")),
    };
    assert(share@ =~= home_tree(platform, "share"@, version@));
    assert(lib@ =~= home_tree(platform, "lib"@, version@));
    let mut r: Vec<String> = Vec::new();
    r.push(path_join(home, share.as_str()));
    r.push(path_join(home, lib.as_str()));
    r
}

/// `s` with each run of equal neighbours reduced to one, as `Vec::dedup` does.
pub open spec fn dedup(s: Seq<Seq<char>>) -> Seq<Seq<char>>
    decreases s.len(),
{
    if s.len() == 0 {
        Seq::empty()
    } else {
        let rest = dedup(s.drop_last());
        if rest.len() > 0 && rest.last() == s.last() {
            rest
        } else {
            rest.push(s.last())
        }
    }
}

/// After `dedup`, no two neighbours are equal, and the first element stays first.
pub proof fn lemma_dedup_no_equal_neighbours(s: Seq<Seq<char>>)
    ensures
        forall|i: int| 0 <= i < dedup(s).len() - 1 ==> #[trigger] dedup(s)[i] != dedup(s)[i + 1],
        s.len() > 0 ==> dedup(s).len() > 0 && dedup(s)[0] == s[0],
        dedup(s).len() <= s.len(),
    decreases s.len(),
{
    if s.len() > 0 {
        let rest = dedup(s.drop_last());
        lemma_dedup_no_equal_neighbours(s.drop_last());
        if !(rest.len() > 0 && rest.last() == s.last()) {
            let d = rest.push(s.last());
            assert forall|i: int| 0 <= i < d.len() - 1 implies #[trigger] d[i] != d[i + 1] by {
                if i < rest.len() - 1 {
                    assert(d[i] == rest[i] && d[i + 1] == rest[i + 1]);
                }
            }
        }
    }
}

/// The elements of `s` whose flag in `keep` is set, in order.
pub open spec fn kept(s: Seq<Seq<char>>, keep: Seq<bool>) -> Seq<Seq<char>>
    decreases s.len(),
{
    if s.len() == 0 || keep.len() != s.len() {
        Seq::empty()
    } else {
        let rest = kept(s.drop_last(), keep.drop_last());
        if keep.last() {
            rest.push(s.last())
        } else {
            rest
        }
    }
}

/// A list of paths with each run of equal neighbours reduced to one.
pub fn dedup_paths(v: Vec<String>) -> (r: Vec<String>)
    ensures
        string_views(r@) == dedup(string_views(v@)),
{
    let mut r: Vec<String> = Vec::new();
    let mut k: usize = 0;
    while k < v.len()
        invariant
            k <= v@.len(),
            string_views(r@) == dedup(string_views(v@).take(k as int)),
        decreases v@.len() - k,
    {
        let ghost before = string_views(r@);
        assert(string_views(v@).take(k + 1).drop_last() == string_views(v@).take(k as int));
        assert(string_views(v@).take(k + 1).last() == v@[k as int]@);
        let n = r.len();
        let same = if n > 0 {
            let a = str_chars(r[n - 1].as_str());
            let b = str_chars(v[k].as_str());
            chars_eq(&a, &b)
        } else {
            false
        };
        if !same {
            r.push(v[k].clone());
            assert(string_views(r@) =~= before.push(v@[k as int]@));
        }
        k = k + 1;
    }
    assert(string_views(v@).take(v@.len() as int) == string_views(v@));
    r
}

/// The paths whose answer is `true`, in order; none when the two lists differ
/// in length.
pub fn keep_existing(paths: &Vec<String>, answers: &Vec<bool>) -> (r: Vec<String>)
    ensures
        string_views(r@) == kept(string_views(paths@), answers@),
{
    let ghost d = string_views(paths@);
    let mut r: Vec<String> = Vec::new();
    if paths.len() != answers.len() {
        return r;
    }
    let mut k: usize = 0;
    while k < paths.len()
        invariant
            k <= paths@.len(),
            paths@.len() == answers@.len(),
            d == string_views(paths@),
            string_views(r@) == kept(d.take(k as int), answers@.take(k as int)),
        decreases paths@.len() - k,
    {
        let ghost before = string_views(r@);
        assert(d.take(k + 1).drop_last() == d.take(k as int));
        assert(d.take(k + 1).last() == paths@[k as int]@);
        assert(answers@.take(k + 1).drop_last() == answers@.take(k as int));
        assert(answers@.take(k + 1).last() == answers@[k as int]);
        if answers[k] {
            r.push(paths[k].clone());
            assert(string_views(r@) =~= before.push(paths@[k as int]@));
        }
        k = k + 1;
    }
    assert(d.take(d.len() as int) == d);
    assert(answers@.take(answers@.len() as int) == answers@);
    r
}

/// Whether `c` is the list of candidate trees for a Lua version (with dots)
/// on a platform: the directories named by the LuaRocks output (if it ran),
/// then the fixed trees, then the `share` and `lib` trees under `%APPDATA%`
/// (Windows, when set), then those under the home directory `home` (when
/// there is one).
pub open spec fn is_candidate_list(
    c: Seq<Seq<char>>,
    luarocks_output: Option<Seq<char>>,
    version: Seq<char>,
    platform: Platform,
    appdata: Option<Seq<char>>,
    home: Option<Seq<char>>,
) -> bool {
    let from_lr = match luarocks_output {
        Some(o) => spec_parse_lr_path(o),
        None => Seq::empty(),
    };
    let fixed = from_lr + fixed_defaults(version, platform);
    let f = fixed.len() as int;
    let a: int = if platform == Platform::Windows && appdata is Some { 2 } else { 0 };
    &&& c.len() >= f + a
    &&& c.take(f) == fixed
    &&& (platform == Platform::Windows && appdata is Some) ==> appdata_trees_fit(
        appdata.unwrap(),
        version,
        c.subrange(f, f + 2),
    )
    &&& match home {
        Some(h) => c.len() == f + a + 2 && home_trees_fit(h, version, platform, c.subrange(f + a, c.len() as int)),
        None => c.len() == f + a,
    }
}

/// The LuaRocks trees for a Lua version that exist on this machine, given
/// the output of `luarocks path --lr-path` (if it ran and succeeded), the
/// platform and `%APPDATA%`: the candidate trees, with runs of equal
/// neighbours reduced to one, that the file system has. Which of them exist
/// depends on the disk, and the home directory on the environment; the
/// result keeps, in order, some of the candidates.
pub fn discover_paths(
    lua_version: &str,
    luarocks_output: Option<String>,
    platform: Platform,
    appdata: Option<String>,
) -> (r: Vec<String>)
    ensures
        exists|c: Seq<Seq<char>>, keep: Seq<bool>, home: Option<Seq<char>>|
            #[trigger] is_candidate_list(
                c,
                text_view(luarocks_output),
                spec_normalize_version(lua_version@),
                platform,
                text_view(appdata),
                home,
            ) && keep.len() == dedup(c).len() && string_views(r@) == #[trigger] kept(dedup(c), keep),
{
    let version = normalize_version(lua_version);
    let mut paths: Vec<String> = match &luarocks_output {
        Some(o) => parse_lr_path(o.as_str()),
        None => Vec::new(),
    };
    let ghost appdata_view = text_view(appdata);
    let ghost p0 = string_views(paths@);
    let mut defaults = default_paths(version.as_str(), platform, appdata);
    let ghost dv = string_views(defaults@);
    paths.append(&mut defaults);
    let ghost p1 = string_views(paths@);
    assert(p1 =~= p0 + dv);
    let ghost mut home_view: Option<Seq<char>> = None;
    match home_dir() {
        Some(home) => {
            let mut extra = home_paths(version.as_str(), platform, home.as_str());
            let ghost ev = string_views(extra@);
            paths.append(&mut extra);
            proof {
                home_view = Some(home@);
                assert(string_views(paths@) =~= p1 + ev);
            }
        },
        None => {},
    }
    let ghost c = string_views(paths@);
    proof {
        let from_lr = match luarocks_output {
            Some(o) => spec_parse_lr_path(o@),
            None => Seq::<Seq<char>>::empty(),
        };
        let fixed = from_lr + fixed_defaults(version@, platform);
        let f = fixed.len() as int;
        assert(c.take(f) =~= fixed);
        if platform == Platform::Windows && appdata_view is Some {
            assert(c.subrange(f, f + 2) =~= dv.subrange(3, 5));
        }
    }
    let deduped = dedup_paths(paths);
    let mut answers: Vec<bool> = Vec::new();
    let mut k: usize = 0;
    while k < deduped.len()
        invariant
            k <= deduped@.len(),
            answers@.len() == k,
        decreases deduped@.len() - k,
    {
        answers.push(path_exists(deduped[k].as_str()));
        k = k + 1;
    }
    let r = keep_existing(&deduped, &answers);
    let ghost d = string_views(deduped@);
    let ghost keep = answers@;
    assert(is_candidate_list(
        c,
        text_view(luarocks_output),
        spec_normalize_version(lua_version@),
        platform,
        appdata_view,
        home_view,
    ));
    r
}

} // verus!

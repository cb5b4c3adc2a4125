//! Resolution of a `require()`d module name to a file.
use vstd::prelude::*;

use crate::luarocks::{is_native_extension, spec_native_extension};
use crate::paths::{joined, main_separator, path_exists, path_join, plain_join};
use crate::text::{chars_to_string, push_str, str_chars};

verus! {

pub enum ResolveResult {
    Found(String),
    External,
    NotFound,
}

pub struct Resolver {
    search_paths: Vec<String>,
    externals: Vec<String>,
    overrides: Vec<(String, String)>,
    extensions: Vec<String>,
}

/// Whether an externals entry marks `module` as external: `prefix/*` marks
/// every name under `prefix/`; any other entry marks itself.
pub open spec fn marks_external(ext: Seq<char>, module: Seq<char>) -> bool {
    if ext.len() >= 2 && ext[ext.len() - 2] == '/' && ext[ext.len() - 1] == '*' {
        let prefix = ext.drop_last();
        prefix.len() <= module.len() && module.subrange(0, prefix.len() as int) == prefix
    } else {
        module == ext
    }
}

/// Whether some entry of `externals` marks `module` as external.
pub open spec fn spec_is_external(externals: Seq<String>, module: Seq<char>) -> bool {
    exists|k: int| 0 <= k < externals.len() && marks_external((#[trigger] externals[k])@, module)
}

/// The path that the last override for `module` names, if any.
pub open spec fn override_for(overrides: Seq<(String, String)>, module: Seq<char>) -> Option<Seq<char>>
    decreases overrides.len(),
{
    if overrides.len() == 0 {
        None
    } else if overrides.last().0@ == module {
        Some(overrides.last().1@)
    } else {
        override_for(overrides.drop_last(), module)
    }
}

/// The value of the last pair whose key is `key`, if any: a list of pairs
/// read as a map in which later entries win.
pub fn last_value(pairs: &Vec<(String, String)>, key: &str) -> (r: Option<String>)
    ensures
        match r {
            Some(p) => override_for(pairs@, key@) == Some(p@),
            None => override_for(pairs@, key@) is None,
        },
{
    let m = str_chars(key);
    let mut k = pairs.len();
    assert(pairs@.subrange(0, k as int) == pairs@);
    while k > 0
        invariant
            k <= pairs@.len(),
            m@ == key@,
            override_for(pairs@, key@) == override_for(pairs@.subrange(0, k as int), key@),
        decreases k,
    {
        let ghost sub = pairs@.subrange(0, k as int);
        assert(sub.last() == pairs@[k - 1]);
        assert(sub.drop_last() == pairs@.subrange(0, k - 1));
        let candidate = str_chars(pairs[k - 1].0.as_str());
        if crate::text::chars_eq(&m, &candidate) {
            return Some(pairs[k - 1].1.clone());
        }
        k = k - 1;
    }
    None
}

/// A file that a module name may resolve to, as probed: the search path and
/// the relative name it was found from (for a directory's `init.lua`, the
/// directory's name), the path that joining them gave, whether it exists, the
/// extension the name was given (none for an `init.lua`), and whether it is
/// a directory's `init.lua`.
pub struct Candidate {
    pub base: String,
    pub name: String,
    pub path: String,
    pub exists: bool,
    pub extension: Option<String>,
    pub is_init: bool,
}

/// A module name as a relative path: each `.` and `/` turned into `sep`.
pub open spec fn module_rel_path(module: Seq<char>, sep: char) -> Seq<char> {
    module.map_values(|c: char| if c == '.' || c == '/' { sep } else { c })
}

/// The extensions of native libraries, probed after the Lua files.
pub open spec fn native_extensions() -> Seq<Seq<char>> {
    seq!["so"@, "dll"@, "dylib"@]
}

/// What is probed under one search path, in order: `name.ext` for each
/// extension, then, when `with_init`, the directory `name`, whose `init.lua`
/// is probed. Each probe: the search path, the relative name, whether it is
/// an `init.lua`, and the extension given.
pub open spec fn probe_row(base: Seq<char>, name: Seq<char>, exts: Seq<Seq<char>>, with_init: bool) -> Seq<
    (Seq<char>, Seq<char>, bool, Option<Seq<char>>),
> {
    exts.map_values(|e: Seq<char>| (base, name + seq!['.'] + e, false, Some(e))) + if with_init {
        seq![(base, name, true, None::<Seq<char>>)]
    } else {
        Seq::empty()
    }
}

/// The rows of probes for each search path, in order.
pub open spec fn probe_plan(bases: Seq<Seq<char>>, name: Seq<char>, exts: Seq<Seq<char>>, with_init: bool) -> Seq<
    (Seq<char>, Seq<char>, bool, Option<Seq<char>>),
>
    decreases bases.len(),
{
    if bases.len() == 0 {
        Seq::empty()
    } else {
        probe_plan(bases.drop_last(), name, exts, with_init) + probe_row(bases.last(), name, exts, with_init)
    }
}

/// Every probe for the relative name `name`, in search order: the Lua files
/// (`name.ext` for each extension, then `name/init.lua`) under each search
/// path, then the native libraries (`name.so`, `name.dll`, `name.dylib`)
/// under each search path.
pub open spec fn full_plan(bases: Seq<Seq<char>>, name: Seq<char>, exts: Seq<Seq<char>>) -> Seq<
    (Seq<char>, Seq<char>, bool, Option<Seq<char>>),
> {
    probe_plan(bases, name, exts, true) + probe_plan(bases, name, native_extensions(), false)
}

/// What a candidate says of the probe it came from.
pub open spec fn probe_of(c: Candidate) -> (Seq<char>, Seq<char>, bool, Option<Seq<char>>) {
    (
        c.base@,
        c.name@,
        c.is_init,
        match c.extension {
            Some(e) => Some(e@),
            None => None,
        },
    )
}

/// What a list of candidates says of its probes.
pub open spec fn probes(c: Seq<Candidate>) -> Seq<(Seq<char>, Seq<char>, bool, Option<Seq<char>>)> {
    c.map_values(|x: Candidate| probe_of(x))
}

/// A candidate's path is its name joined to its search path, and for an
/// `init.lua` candidate `init.lua` joined to that in turn, as far as joining
/// is stated.
pub open spec fn path_fits(c: Candidate) -> bool {
    &&& !c.is_init && plain_join(c.base@, c.name@) ==> joined(c.base@, c.name@, c.path@)
    &&& c.is_init && plain_join(c.base@, c.name@) ==> exists|d: Seq<char>|
        #[trigger] joined(c.base@, c.name@, d) && (plain_join(d, "init.lua"@) ==> joined(d, "init.lua"@, c.path@))
}

/// The views of a list of strings.
pub open spec fn views(v: Seq<String>) -> Seq<Seq<char>> {
    v.map_values(|s: String| s@)
}

/// Probes the files for the relative name `name` under `base`: `name.ext`
/// for each extension, then, when `with_init`, `name/init.lua`.
fn probe_under(out: &mut Vec<Candidate>, base: &str, name: &str, exts: &Vec<String>, with_init: bool)
    ensures
        probes(final(out)@) == probes(old(out)@) + probe_row(base@, name@, views(exts@), with_init),
        final(out)@.len() >= old(out)@.len(),
        forall|i: int| 0 <= i < old(out)@.len() ==> final(out)@[i] == old(out)@[i],
        forall|i: int| old(out)@.len() <= i < final(out)@.len() ==> path_fits(#[trigger] final(out)@[i]),
{
    let ghost o0 = out@;
    let ghost row = exts@.map_values(|e: String| (base@, name@ + seq!['.'] + e@, false, Some(e@)));
    let mut x: usize = 0;
    while x < exts.len()
        invariant
            x <= exts@.len(),
            out@.len() == o0.len() + x,
            forall|i: int| 0 <= i < o0.len() ==> out@[i] == o0[i],
            forall|i: int| o0.len() <= i < out@.len() ==> path_fits(#[trigger] out@[i]),
            row == exts@.map_values(|e: String| (base@, name@ + seq!['.'] + e@, false, Some(e@))),
            probes(out@) == probes(o0) + row.take(x as int),
        decreases exts@.len() - x,
    {
        let ghost before = out@;
        let mut file: Vec<char> = str_chars(name);
        file.push('.');
        push_str(&mut file, exts[x].as_str());
        let file = chars_to_string(&file);
        let path = path_join(base, file.as_str());
        let exists = path_exists(path.as_str());
        let ext = exts[x].as_str().to_owned();
        out.push(Candidate { base: base.to_owned(), name: file, path, exists, extension: Some(ext), is_init: false });
        proof {
            assert(row.take(x + 1) =~= row.take(x as int).push(row[x as int]));
            assert(probes(out@) =~= probes(before).push(probe_of(out@.last())));
            assert(probe_of(out@.last()) == row[x as int]);
        }
        x = x + 1;
    }
    assert(row.take(exts@.len() as int) =~= row);
    assert(views(exts@).map_values(|e: Seq<char>| (base@, name@ + seq!['.'] + e, false, Some(e))) =~= row);
    if with_init {
        let ghost before = out@;
        let dir = path_join(base, name);
        let path = path_join(dir.as_str(), "init.lua");
        assert(plain_join(base@, name@) ==> joined(base@, name@, dir@));
        let exists = path_exists(path.as_str());
        out.push(Candidate { base: base.to_owned(), name: name.to_owned(), path, exists, extension: None, is_init: true });
        assert(probes(out@) =~= probes(before).push(probe_of(out@.last())));
    }
    assert(probes(out@) =~= probes(o0) + probe_row(base@, name@, views(exts@), with_init));
}

/// The resolution given the probed candidates, in search order: the first
/// existing one is found, unless it is a native library (by the extension
/// it was probed with; an `init.lua` never is), which makes the module
/// external.
pub open spec fn spec_choose(cands: Seq<Candidate>) -> ResolveResult
    decreases cands.len(),
{
    if cands.len() == 0 {
        ResolveResult::NotFound
    } else if cands[0].exists {
        if !cands[0].is_init && spec_native_extension(
            match cands[0].extension {
                Some(e) => Some(e@),
                None => None,
            },
        ) {
            ResolveResult::External
        } else {
            ResolveResult::Found(cands[0].path)
        }
    } else {
        spec_choose(cands.drop_first())
    }
}

/// Picks the resolution among the probed candidates, in search order.
pub fn choose_candidate(cands: &Vec<Candidate>) -> (r: ResolveResult)
    ensures
        r == spec_choose(cands@),
{
    let mut k: usize = 0;
    assert(cands@.subrange(0, cands@.len() as int) == cands@);
    while k < cands.len()
        invariant
            k <= cands@.len(),
            spec_choose(cands@) == spec_choose(cands@.subrange(k as int, cands@.len() as int)),
        decreases cands@.len() - k,
    {
        assert(cands@.subrange(k as int, cands@.len() as int).drop_first() == cands@.subrange(
            k + 1 as int,
            cands@.len() as int,
        ));
        let c = &cands[k];
        if c.exists {
            let native = match &c.extension {
                Some(e) => is_native_extension(Some(e.as_str())),
                None => is_native_extension(None),
            };
            if !c.is_init && native {
                return ResolveResult::External;
            }
            return ResolveResult::Found(c.path.clone());
        }
        k = k + 1;
    }
    ResolveResult::NotFound
}

impl Resolver {
    pub fn new(search_paths: Vec<String>, externals: Vec<String>, overrides: Vec<(String, String)>) -> (r: Self)
        ensures
            r.search() == search_paths@,
            r.external_entries() == externals@,
            r.override_entries() == overrides@,
            r.extension_list().len() == 1 && r.extension_list()[0]@ == "lua"@,
    {
        Self { search_paths, externals, overrides, extensions: vec!["lua".to_owned()] }
    }

    pub fn with_paths(search_paths: Vec<String>) -> (r: Self)
        ensures
            r.search() == search_paths@,
            r.external_entries().len() == 0,
            r.override_entries().len() == 0,
            r.extension_list().len() == 1 && r.extension_list()[0]@ == "lua"@,
    {
        Self::new(search_paths, vec![], vec![])
    }

    /// The file extensions tried for `name.ext`, in order.
    pub fn with_extensions(self, extensions: Vec<String>) -> (r: Self)
        ensures
            r.search() == self.search(),
            r.external_entries() == self.external_entries(),
            r.override_entries() == self.override_entries(),
            r.extension_list() == extensions@,
    {
        Self { extensions, ..self }
    }

    pub closed spec fn search(&self) -> Seq<String> {
        self.search_paths@
    }

    pub closed spec fn external_entries(&self) -> Seq<String> {
        self.externals@
    }

    pub closed spec fn override_entries(&self) -> Seq<(String, String)> {
        self.overrides@
    }

    pub closed spec fn extension_list(&self) -> Seq<String> {
        self.extensions@
    }

    /// Whether `module` is marked external.
    pub fn is_external(&self, module: &str) -> (b: bool)
        ensures
            b == spec_is_external(self.external_entries(), module@),
    {
        let m = str_chars(module);
        let mut k: usize = 0;
        while k < self.externals.len()
            invariant
                k <= self.externals@.len(),
                m@ == module@,
                forall|j: int| 0 <= j < k ==> !marks_external(#[trigger] self.externals@[j]@, module@),
            decreases self.externals@.len() - k,
        {
            let e = str_chars(self.externals[k].as_str());
            let marks = if e.len() >= 2 && e[e.len() - 2] == '/' && e[e.len() - 1] == '*' {
                // wildcard: "lunar/*" marks "lunar/router", "lunar/middleware" etc
                let plen = e.len() - 1;
                if plen <= m.len() {
                    let mut i: usize = 0;
                    let mut same = true;
                    while i < plen
                        invariant
                            i <= plen <= m@.len(),
                            plen <= e@.len(),
                            same == (forall|j: int| 0 <= j < i ==> m@[j] == e@[j]),
                            plen == e@.len() - 1,
                        decreases plen - i,
                    {
                        if m[i] != e[i] {
                            same = false;
                        }
                        i = i + 1;
                    }
                    proof {
                        assert(e@.drop_last() =~= e@.subrange(0, plen as int));
                        if same {
                            assert(m@.subrange(0, plen as int) =~= e@.subrange(0, plen as int));
                        } else {
                            let j = choose|j: int| 0 <= j < plen && m@[j] != e@[j];
                            assert(m@.subrange(0, plen as int)[j] != e@.subrange(0, plen as int)[j]);
                        }
                    }
                    same
                } else {
                    false
                }
            } else {
                crate::text::chars_eq(&m, &e)
            };
            if marks {
                assert(marks_external(self.externals@[k as int]@, module@));
                return true;
            }
            k = k + 1;
        }
        false
    }

    /// The path that an override gives `module`, if any.
    fn override_path(&self, module: &str) -> (r: Option<String>)
        ensures
            match r {
                Some(p) => override_for(self.override_entries(), module@) == Some(p@),
                None => override_for(self.override_entries(), module@) is None,
            },
    {
        last_value(&self.overrides, module)
    }

    /// The files that `module` may resolve to, probed in search order (see
    /// `full_plan`), where `name` is the module name with `.` and `/` turned
    /// into `sep`. The joined paths (beyond `path_fits`) and whether they
    /// exist are the platform's and the file system's.
    pub fn probe_candidates(&self, module: &str, sep: char) -> (r: Vec<Candidate>)
        ensures
            probes(r@) == full_plan(views(self.search()), module_rel_path(module@, sep), views(self.extension_list())),
            forall|i: int| 0 <= i < r@.len() ==> path_fits(#[trigger] r@[i]),
    {
        let m = str_chars(module);
        let mut as_path: Vec<char> = Vec::new();
        let mut i: usize = 0;
        while i < m.len()
            invariant
                i <= m@.len(),
                m@ == module@,
                as_path@ == module_rel_path(m@.subrange(0, i as int), sep),
            decreases m@.len() - i,
        {
            if m[i] == '.' || m[i] == '/' {
                as_path.push(sep);
            } else {
                as_path.push(m[i]);
            }
            i = i + 1;
            assert(module_rel_path(m@.subrange(0, i as int), sep) =~= module_rel_path(m@.subrange(0, i - 1), sep).push(
                if m@[i - 1] == '.' || m@[i - 1] == '/' { sep } else { m@[i - 1] },
            ));
        }
        assert(m@.subrange(0, m@.len() as int) =~= m@);
        let ghost name = as_path@;
        let as_path = chars_to_string(&as_path);
        let ghost bases = views(self.search_paths@);
        let ghost exts = views(self.extensions@);
        let natives: Vec<String> = vec!["so".to_owned(), "dll".to_owned(), "dylib".to_owned()];
        assert(views(natives@) =~= native_extensions());
        let mut out: Vec<Candidate> = Vec::new();
        let nb = self.search_paths.len();
        let mut b: usize = 0;
        while b < nb
            invariant
                b <= nb,
                nb == self.search_paths@.len(),
                as_path@ == name,
                bases == views(self.search_paths@),
                exts == views(self.extensions@),
                probes(out@) == probe_plan(bases.take(b as int), name, exts, true),
                forall|i: int| 0 <= i < out@.len() ==> path_fits(#[trigger] out@[i]),
            decreases nb - b,
        {
            probe_under(&mut out, self.search_paths[b].as_str(), as_path.as_str(), &self.extensions, true);
            proof {
                assert(bases.take(b + 1).drop_last() =~= bases.take(b as int));
                assert(bases.take(b + 1).last() == self.search_paths@[b as int]@);
            }
            b = b + 1;
        }
        assert(bases.take(nb as int) =~= bases);
        let ghost lua = probes(out@);
        let mut b: usize = 0;
        while b < nb
            invariant
                b <= nb,
                nb == self.search_paths@.len(),
                as_path@ == name,
                bases == views(self.search_paths@),
                views(natives@) == native_extensions(),
                lua == probe_plan(bases, name, exts, true),
                probes(out@) == lua + probe_plan(bases.take(b as int), name, native_extensions(), false),
                forall|i: int| 0 <= i < out@.len() ==> path_fits(#[trigger] out@[i]),
            decreases nb - b,
        {
            probe_under(&mut out, self.search_paths[b].as_str(), as_path.as_str(), &natives, false);
            proof {
                assert(bases.take(b + 1).drop_last() =~= bases.take(b as int));
                assert(bases.take(b + 1).last() == self.search_paths@[b as int]@);
            }
            b = b + 1;
        }
        out
    }

    /// Resolves a module name: external when marked so; the override's path
    /// when one is given; else the first existing candidate file: for each
    /// search path one name per extension and an `init.lua`, then for each
    /// search path the native libraries (`.so`, `.dll`, `.dylib`), which make
    /// the module external; `.` and `/` in the name are turned into the
    /// platform's separator. Which files exist, and the paths
    /// that the platform's rules join, are the file system's and the
    /// platform's; so the candidates are stated by what was probed.
    pub fn resolve(&self, module: &str) -> (r: ResolveResult)
        ensures
            spec_is_external(self.external_entries(), module@) ==> r is External,
            !spec_is_external(self.external_entries(), module@) ==> match override_for(self.override_entries(), module@) {
                Some(p) => r matches ResolveResult::Found(f) && f@ == p,
                None => exists|c: Seq<Candidate>, sep: char|
                    #![trigger spec_choose(c), module_rel_path(module@, sep)]
                    (sep == '/' || sep == '\\') && probes(c) == full_plan(
                        views(self.search()),
                        module_rel_path(module@, sep),
                        views(self.extension_list()),
                    ) && (forall|i: int| 0 <= i < c.len() ==> path_fits(#[trigger] c[i])) && r == spec_choose(c),
            },
    {
        if self.is_external(module) {
            return ResolveResult::External;
        }
        match self.override_path(module) {
            Some(p) => ResolveResult::Found(p),
            None => {
                let sep = main_separator();
                let cands = self.probe_candidates(module, sep);
                let r = choose_candidate(&cands);
                assert(r == spec_choose(cands@));
                assert(module_rel_path(module@, sep) == module_rel_path(module@, sep));
                r
            },
        }
    }
}

} // verus!

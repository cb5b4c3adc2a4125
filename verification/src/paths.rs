//! Filesystem paths as text, and the few questions the bundler asks the
//! platform about them.
use vstd::prelude::*;

verus! {

/// `std::path::MAIN_SEPARATOR`: the platform's separator of path components,
/// `/` or `\`.
#[verifier::external_body]
pub(crate) fn main_separator() -> (c: char)
    ensures
        c == '/' || c == '\\',
{
    std::path::MAIN_SEPARATOR
}

/// Whether joining `rel` to `base` appends it on every platform: `rel` has no
/// root (it does not start with `/` or `\`) and no prefix (no `:`), and
/// `base` is not a Windows verbatim path (starting `\\?\`), after which
/// joining normalizes what it appends.
pub open spec fn plain_join(base: Seq<char>, rel: Seq<char>) -> bool {
    &&& !(rel.len() > 0 && (rel[0] == '/' || rel[0] == '\\'))
    &&& forall|i: int| 0 <= i < rel.len() ==> #[trigger] rel[i] != ':'
    &&& !(base.len() >= 4 && base[0] == '\\' && base[1] == '\\' && base[2] == '?' && base[3] == '\\')
}

/// Whether `r` is `rel` appended to `base`, with nothing or one separator
/// (`/` or `\`) between them.
pub open spec fn joined(base: Seq<char>, rel: Seq<char>, r: Seq<char>) -> bool {
    ||| r == base + rel
    ||| (r.len() == base.len() + rel.len() + 1 && (r[base.len() as int] == '/' || r[base.len() as int] == '\\')
        && r == base + seq![r[base.len() as int]] + rel)
}

/// `Path::join`: `rel` adjoined to `base` by the platform's rules. An absolute
/// `rel` replaces `base`, and which paths are absolute differs between
/// platforms. A `rel` without root or prefix is appended to `base`, after
/// the platform's separator when `base` needs one, as the documentation of
/// `PathBuf::push` says.
#[verifier::external_body]
pub(crate) fn path_join(base: &str, rel: &str) -> (r: String)
    ensures
        plain_join(base@, rel@) ==> joined(base@, rel@, r@),
{
    std::path::Path::new(base).join(rel).to_string_lossy().into_owned()
}

/// `Path::exists`: whether the file system has an entry at `path` now. The
/// answer depends on the disk, so nothing is stated of it.
#[verifier::external_body]
pub(crate) fn path_exists(path: &str) -> bool {
    std::path::Path::new(path).exists()
}

/// A bare file name: not empty, not `.` or `..`, and without `/`, `\\` or
/// `:`, so that on every platform the path is one plain component.
pub open spec fn bare_name(s: Seq<char>) -> bool {
    &&& s.len() > 0
    &&& s != seq!['.']
    &&& s != seq!['.', '.']
    &&& forall|i: int| 0 <= i < s.len() ==> #[trigger] s[i] != '/' && s[i] != '\\' && s[i] != ':'
}

/// The position of the last `.` among the first `k` characters of `f`, or -1.
pub open spec fn last_dot(f: Seq<char>, k: int) -> int
    decreases k,
{
    if k <= 0 {
        -1
    } else if f[k - 1] == '.' {
        k - 1
    } else {
        last_dot(f, k - 1)
    }
}

/// The extension of a file name, as `Path::extension` documents it: none
/// without a `.`, none when the only `.` begins the name, else what follows
/// the last `.`.
pub open spec fn name_extension(f: Seq<char>) -> Option<Seq<char>> {
    let i = last_dot(f, f.len() as int);
    if i <= 0 {
        None
    } else {
        Some(f.subrange(i + 1, f.len() as int))
    }
}

/// `Path::extension`: the part of the file name after its last `.`, by the
/// platform's rules for where the file name starts. Those rules differ
/// between platforms; only for a bare file name, which is its own file name
/// everywhere, is the result stated.
#[verifier::external_body]
pub(crate) fn path_extension(path: &str) -> (r: Option<String>)
    ensures
        bare_name(path@) ==> match r {
            Some(e) => name_extension(path@) == Some(e@),
            None => name_extension(path@) is None,
        },
{
    match std::path::Path::new(path).extension() {
        Some(e) => Some(e.to_string_lossy().into_owned()),
        None => None,
    }
}

/// The position of the last `/` among the first `k` characters of `f`, or -1.
pub open spec fn last_slash(f: Seq<char>, k: int) -> int
    decreases k,
{
    if k <= 0 {
        -1
    } else if f[k - 1] == '/' {
        k - 1
    } else {
        last_slash(f, k - 1)
    }
}

/// A path whose components every platform reads alike and that none
/// normalizes: separated by single `/`s, without a trailing `/`, without `\`
/// or `:` (so no Windows prefix), and without `.` components.
pub open spec fn slash_path(p: Seq<char>) -> bool {
    &&& forall|i: int| 0 <= i < p.len() ==> #[trigger] p[i] != '\\' && p[i] != ':'
    &&& forall|i: int| 0 <= i < p.len() - 1 ==> !(#[trigger] p[i] == '/' && p[i + 1] == '/')
    &&& !(p.len() > 0 && p.last() == '/')
    &&& forall|i: int|
        0 <= i < p.len() && #[trigger] p[i] == '.' && (i == 0 || p[i - 1] == '/') ==> i + 1 < p.len() && p[i
            + 1] != '/'
}

/// `Path::parent`: the path without its last component, by the platform's
/// rules. Those rules differ between platforms; for a bare file name the
/// parent is the empty path everywhere (as the documentation's `foo` example
/// shows), and for a `slash_path` whose last `/` is not its first character
/// it is the text before that `/`.
#[verifier::external_body]
pub(crate) fn path_parent(path: &str) -> (r: Option<String>)
    ensures
        bare_name(path@) ==> r is Some,
        bare_name(path@) ==> r.unwrap()@ == Seq::<char>::empty(),
        slash_path(path@) && last_slash(path@, path@.len() as int) > 0 ==> r is Some,
        slash_path(path@) && last_slash(path@, path@.len() as int) > 0 ==> r.unwrap()@ == path@.take(
            last_slash(path@, path@.len() as int),
        ),
{
    match std::path::Path::new(path).parent() {
        Some(p) => Some(p.to_string_lossy().into_owned()),
        None => None,
    }
}

/// The text after the last `/` of `p` (all of `p` when it has none).
pub open spec fn last_component(p: Seq<char>) -> Seq<char> {
    p.subrange(last_slash(p, p.len() as int) + 1, p.len() as int)
}

/// A path whose last component every platform reads alike: a `slash_path`,
/// not empty, whose last component is not `..`.
pub open spec fn plain_file_path(p: Seq<char>) -> bool {
    &&& slash_path(p)
    &&& p.len() > 0
    &&& last_component(p) != seq!['.', '.']
}

/// Where the last `/` among the first `k` characters stands, and that none
/// comes after it.
pub proof fn lemma_last_slash(p: Seq<char>, k: int)
    requires
        0 <= k <= p.len(),
    ensures
        -1 <= last_slash(p, k) < k,
        last_slash(p, k) >= 0 ==> p[last_slash(p, k)] == '/',
        forall|j: int| last_slash(p, k) < j < k ==> p[j] != '/',
    decreases k,
{
    if k > 0 && p[k - 1] != '/' {
        lemma_last_slash(p, k - 1);
    }
}

/// `Path::file_name`: the last component of the path, by the platform's
/// rules. Those rules differ between platforms; a bare file name is its own
/// last component everywhere, and for a `plain_file_path` the last
/// component is the text after the last `/` everywhere.
#[verifier::external_body]
pub(crate) fn path_file_name(path: &str) -> (r: Option<String>)
    ensures
        bare_name(path@) ==> r is Some,
        bare_name(path@) ==> r.unwrap()@ == path@,
        plain_file_path(path@) ==> r is Some,
        plain_file_path(path@) ==> r.unwrap()@ == last_component(path@),
{
    match std::path::Path::new(path).file_name() {
        Some(p) => Some(p.to_string_lossy().into_owned()),
        None => None,
    }
}

} // verus!

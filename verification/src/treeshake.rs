//! Tree shaking: removal of top-level local declarations that nothing uses.
//!
//! What the parser finds in a module (the locals it declares, the names it
//! refers to, its top-level statements with their character spans) arrives as
//! a [`LocalUsage`]; the decisions and the text surgery are made here.
use vstd::prelude::*;

use crate::preprocessor::{preprocess, spec_preprocess};
use crate::text::{chars_eq_str, chars_to_string, newline_from, lemma_newline_from_bounds, push_str, str_chars, trim, trim_chars};

verus! {

/// Level of tree shaking to apply
#[derive(Debug, Clone, Copy, PartialEq, Eq, Structural)]
pub enum TreeShakeLevel {
    Off,
    /// Remove unused local variables and local function declarations
    Basic,
    /// Remove unused locals + attempt cross-module unused export removal
    Aggressive,
}

impl Default for TreeShakeLevel {
    fn default() -> (r: Self)
        ensures
            r == TreeShakeLevel::Off,
    {
        Self::Off
    }
}

/// The level a name stands for, after lowercasing: `off`, `basic`, and
/// `aggressive` or `full`; `None` for any other name.
pub open spec fn level_named(lowered: Seq<char>) -> Option<TreeShakeLevel> {
    if lowered == "off"@ {
        Some(TreeShakeLevel::Off)
    } else if lowered == "basic"@ {
        Some(TreeShakeLevel::Basic)
    } else if lowered == "aggressive"@ || lowered == "full"@ {
        Some(TreeShakeLevel::Aggressive)
    } else {
        None
    }
}

impl TreeShakeLevel {
    /// Parses a tree shaking level, case-insensitively; an unknown name is an
    /// error that names it and the accepted ones.
    pub fn parse_level(s: &str) -> (r: Result<Self, String>)
        ensures
            level_named(crate::text::lowercase(s@)) matches Some(l) ==> r == Ok::<Self, String>(l),
            level_named(crate::text::lowercase(s@)) is None ==> (r matches Err(msg) && msg@
                == "unknown tree shake level '"@ + crate::text::lowercase(s@)
                + "', expected: off, basic, or aggressive"@),
    {
        let lowered = crate::text::to_lowercase(s);
        Self::level_from_lowered(lowered.as_str())
    }

    /// The tree shaking level an already lowercased name stands for; an
    /// unknown name is an error that names it and the accepted ones.
    pub fn level_from_lowered(lowered: &str) -> (r: Result<Self, String>)
        ensures
            level_named(lowered@) matches Some(l) ==> r == Ok::<Self, String>(l),
            level_named(lowered@) is None ==> (r matches Err(msg) && msg@ == "unknown tree shake level '"@
                + lowered@ + "', expected: off, basic, or aggressive"@),
    {
        let v = str_chars(lowered);
        if chars_eq_str(&v, "off") {
            Ok(Self::Off)
        } else if chars_eq_str(&v, "basic") {
            Ok(Self::Basic)
        } else if chars_eq_str(&v, "aggressive") || chars_eq_str(&v, "full") {
            Ok(Self::Aggressive)
        } else {
            let mut msg: Vec<char> = Vec::new();
            push_str(&mut msg, "unknown tree shake level '");
            push_str(&mut msg, lowered);
            push_str(&mut msg, "', expected: off, basic, or aggressive");
            Err(chars_to_string(&msg))
        }
    }
}

impl core::str::FromStr for TreeShakeLevel {
    type Err = String;

    fn from_str(s: &str) -> (r: Result<Self, String>)
        ensures
            level_named(crate::text::lowercase(s@)) matches Some(l) ==> r == Ok::<Self, String>(l),
            level_named(crate::text::lowercase(s@)) is None ==> (r matches Err(msg) && msg@
                == "unknown tree shake level '"@ + crate::text::lowercase(s@)
                + "', expected: off, basic, or aggressive"@),
    {
        Self::parse_level(s)
    }
}

/// Lua's keywords (and Lua 5.5's `global`), which a bare symbol may be
/// without naming a variable.
pub open spec fn is_keyword(w: Seq<char>) -> bool {
    ||| w == "true"@
    ||| w == "false"@
    ||| w == "nil"@
    ||| w == "and"@
    ||| w == "or"@
    ||| w == "not"@
    ||| w == "function"@
    ||| w == "end"@
    ||| w == "if"@
    ||| w == "then"@
    ||| w == "else"@
    ||| w == "elseif"@
    ||| w == "for"@
    ||| w == "while"@
    ||| w == "repeat"@
    ||| w == "until"@
    ||| w == "do"@
    ||| w == "break"@
    ||| w == "return"@
    ||| w == "local"@
    ||| w == "in"@
    ||| w == "goto"@
    ||| w == "global"@
}

/// Whether a symbol's text, trimmed, names a variable (is no keyword).
pub open spec fn spec_is_identifier_token(text: Seq<char>) -> bool {
    !is_keyword(trim(text))
}

/// Checks if the text looks like an identifier (not a keyword).
pub fn is_identifier_token(text: &str) -> (b: bool)
    ensures
        b == spec_is_identifier_token(text@),
{
    let t = trim_chars(text);
    let kw = chars_eq_str(&t, "true") || chars_eq_str(&t, "false") || chars_eq_str(&t, "nil")
        || chars_eq_str(&t, "and") || chars_eq_str(&t, "or") || chars_eq_str(&t, "not")
        || chars_eq_str(&t, "function") || chars_eq_str(&t, "end") || chars_eq_str(&t, "if")
        || chars_eq_str(&t, "then") || chars_eq_str(&t, "else") || chars_eq_str(&t, "elseif")
        || chars_eq_str(&t, "for") || chars_eq_str(&t, "while") || chars_eq_str(&t, "repeat")
        || chars_eq_str(&t, "until") || chars_eq_str(&t, "do") || chars_eq_str(&t, "break")
        || chars_eq_str(&t, "return") || chars_eq_str(&t, "local") || chars_eq_str(&t, "in")
        || chars_eq_str(&t, "goto") || chars_eq_str(&t, "global");
    !kw
}

/// The shape of an expression, as far as purity is concerned.
pub enum Value {
    /// A number literal.
    Number,
    /// A string literal.
    Str,
    /// A bare symbol (`true`, `false`, `nil`, `...`), with its text.
    Symbol(String),
    /// An expression in parentheses.
    Parenthesized(Box<Value>),
    /// Anything else.
    Other,
}

/// Whether an expression is a literal without side effects.
pub open spec fn spec_is_pure(v: Value) -> bool
    decreases v,
{
    match v {
        Value::Number => true,
        Value::Str => true,
        Value::Symbol(t) => trim(t@) == "true"@ || trim(t@) == "false"@ || trim(t@) == "nil"@,
        Value::Parenthesized(inner) => spec_is_pure(*inner),
        Value::Other => false,
    }
}

/// Check if an expression is a pure literal (no side effects).
pub fn is_pure_expression(v: &Value) -> (b: bool)
    ensures
        b == spec_is_pure(*v),
    decreases v,
{
    match v {
        Value::Number => true,
        Value::Str => true,
        Value::Symbol(t) => {
            let text = trim_chars(t.as_str());
            chars_eq_str(&text, "true") || chars_eq_str(&text, "false") || chars_eq_str(
                &text,
                "nil",
            )
        },
        Value::Parenthesized(inner) => is_pure_expression(inner),
        Value::Other => false,
    }
}

/// A top-level statement, as far as tree shaking is concerned.
pub enum Statement {
    /// `local a, b = x, y`: the declared names and the assigned values.
    LocalAssignment { names: Vec<String>, values: Vec<Value> },
    /// `local function f() ... end`: the declared name.
    LocalFunction { name: String },
    /// Any other statement.
    Other,
}

/// A top-level statement with its character span in the preprocessed source
/// (start, end; `None` when the parser has no position for it) and the end of
/// its trailing semicolon, if any.
pub struct TopStatement {
    pub statement: Statement,
    pub span: Option<(usize, usize)>,
    pub semicolon_end: Option<usize>,
}

/// A name as the parser meets it anywhere in a module.
pub enum Mention {
    /// Declared by `local x` or `local function x`.
    Local(String),
    /// Referred to as a variable, a table prefix or a called function.
    Reference(String),
    /// A bare symbol, which refers to a variable unless it is a keyword.
    Symbol(String),
}

/// What the parser found in a module: every mention of a name, and the
/// top-level statements in source order.
pub struct LocalUsage {
    pub mentions: Vec<Mention>,
    pub statements: Vec<TopStatement>,
}

/// Whether `name` is declared as a local somewhere.
pub open spec fn is_declared(mentions: Seq<Mention>, name: Seq<char>) -> bool {
    exists|k: int|
        0 <= k < mentions.len() && match #[trigger] mentions[k] {
            Mention::Local(t) => trim(t@) == name,
            _ => false,
        }
}

/// Whether `name` is referred to somewhere.
pub open spec fn is_referenced(mentions: Seq<Mention>, name: Seq<char>) -> bool {
    exists|k: int|
        0 <= k < mentions.len() && match #[trigger] mentions[k] {
            Mention::Reference(t) => trim(t@) == name,
            Mention::Symbol(t) => spec_is_identifier_token(t@) && trim(t@) == name,
            Mention::Local(_) => false,
        }
}

/// A declared local that nothing refers to.
pub open spec fn is_unused(mentions: Seq<Mention>, name: Seq<char>) -> bool {
    is_declared(mentions, name) && !is_referenced(mentions, name)
}

/// Whether no declared local is unused.
pub open spec fn all_used(mentions: Seq<Mention>) -> bool {
    forall|name: Seq<char>| !is_unused(mentions, name)
}

/// Whether a top-level statement may go: a local assignment whose names are
/// all unused and whose values are all pure, or an unused local function.
pub open spec fn removable(mentions: Seq<Mention>, st: Statement) -> bool {
    match st {
        Statement::LocalAssignment { names, values } => {
            &&& forall|k: int| 0 <= k < names@.len() ==> is_unused(mentions, trim(#[trigger] names@[k]@))
            &&& forall|k: int| 0 <= k < values@.len() ==> spec_is_pure(#[trigger] values@[k])
        },
        Statement::LocalFunction { name } => is_unused(mentions, trim(name@)),
        Statement::Other => false,
    }
}

/// The end of the line that holds position `pos`, past its `'\n'`, or the
/// end of the text.
pub open spec fn spec_extend_to_line(s: Seq<char>, pos: int) -> int {
    if pos >= s.len() {
        s.len() as int
    } else if newline_from(s, pos) < s.len() {
        newline_from(s, pos) + 1
    } else {
        s.len() as int
    }
}

/// Extend a position to the end of the line (inclusive of newline).
pub fn extend_to_line(source: &str, pos: usize) -> (r: usize)
    ensures
        r == spec_extend_to_line(source@, pos as int),
{
    let s = str_chars(source);
    if pos >= s.len() {
        return s.len();
    }
    proof {
        lemma_newline_from_bounds(s@, pos as int);
    }
    let mut i = pos;
    while i < s.len() && s[i] != '\n'
        invariant
            pos <= i <= s@.len(),
            newline_from(s@, i as int) == newline_from(s@, pos as int),
        decreases s@.len() - i,
    {
        i = i + 1;
    }
    if i < s.len() {
        i + 1
    } else {
        s.len()
    }
}

/// Whether `s[i..j]` holds only spaces, tabs and carriage returns.
pub open spec fn blank_between(s: Seq<char>, i: int, j: int) -> bool {
    forall|k: int| i <= k < j ==> #[trigger] s[k] == ' ' || s[k] == '\t' || s[k] == '\r'
}

/// Where the removal of a statement that ends at `pos` stops: past the line
/// ending when only blanks follow the statement on its line, else at `pos`.
pub open spec fn spec_removal_end(s: Seq<char>, pos: int) -> int {
    if pos >= s.len() {
        s.len() as int
    } else if blank_between(s, pos, newline_from(s, pos)) {
        spec_extend_to_line(s, pos)
    } else {
        pos
    }
}

/// Where the removal of a statement that ends at `pos` stops: through the line
/// break that ends the statement, when nothing but blanks comes between.
pub fn removal_end(source: &str, pos: usize) -> (r: usize)
    ensures
        r == spec_removal_end(source@, pos as int),
{
    let s = str_chars(source);
    if pos >= s.len() {
        return s.len();
    }
    proof {
        lemma_newline_from_bounds(s@, pos as int);
    }
    let mut i = pos;
    while i < s.len() && s[i] != '\n'
        invariant
            pos <= i <= s@.len(),
            s@ == source@,
            newline_from(s@, i as int) == newline_from(s@, pos as int),
            blank_between(s@, pos as int, i as int),
        decreases s@.len() - i,
    {
        if !(s[i] == ' ' || s[i] == '\t' || s[i] == '\r') {
            proof {
                lemma_newline_from_bounds(s@, i as int);
                assert(newline_from(s@, i as int) == newline_from(s@, i + 1));
                lemma_newline_from_bounds(s@, i + 1);
                assert(!blank_between(s@, pos as int, newline_from(s@, pos as int)));
            }
            return pos;
        }
        i = i + 1;
    }
    assert(newline_from(s@, i as int) == i);
    extend_to_line(source, pos)
}

/// The character range that removing a top-level statement takes out: from
/// its start through its semicolon (or its end), and the line break that ends
/// it when only blanks come before that.
pub open spec fn removal_of(pre: Seq<char>, mentions: Seq<Mention>, st: TopStatement) -> Option<(int, int)> {
    match st.span {
        Some((start, end)) => if removable(mentions, st.statement) {
            let e = match st.semicolon_end {
                Some(se) => se as int,
                None => end as int,
            };
            Some((start as int, spec_removal_end(pre, e)))
        } else {
            None
        },
        None => None,
    }
}

/// The removals of the first `k` statements, in statement order.
pub open spec fn removals_upto(pre: Seq<char>, mentions: Seq<Mention>, sts: Seq<TopStatement>, k: int) -> Seq<(int, int)>
    decreases k,
{
    if k <= 0 {
        Seq::empty()
    } else {
        let rest = removals_upto(pre, mentions, sts, k - 1);
        match removal_of(pre, mentions, sts[k - 1]) {
            Some(r) => rest.push(r),
            None => rest,
        }
    }
}

/// `s` with the range `r` cut out, when it is a non-empty range within `s`.
pub open spec fn cut(s: Seq<char>, r: (int, int)) -> Seq<char> {
    if r.0 < s.len() && r.1 <= s.len() && r.0 < r.1 {
        s.subrange(0, r.0) + s.subrange(r.1, s.len() as int)
    } else {
        s
    }
}

/// `s` with the ranges cut out, the last one first.
pub open spec fn cut_all(s: Seq<char>, rs: Seq<(int, int)>) -> Seq<char>
    decreases rs.len(),
{
    if rs.len() == 0 {
        s
    } else {
        cut_all(cut(s, rs.last()), rs.drop_last())
    }
}

/// Whether the statements with spans come in strictly increasing start order,
/// as the statements of a parsed block do.
pub open spec fn in_source_order(sts: Seq<TopStatement>) -> bool {
    forall|a: int, b: int|
        0 <= a < b < sts.len() ==> match ((#[trigger] sts[a]).span, (#[trigger] sts[b]).span) {
            (Some((sa, _)), Some((sb, _))) => sa < sb,
            _ => true,
        }
}

/// The preprocessed text `pre` with its unused local declarations removed.
pub open spec fn spec_remove_unused(pre: Seq<char>, usage: LocalUsage) -> Seq<char> {
    if all_used(usage.mentions@) {
        pre
    } else {
        cut_all(pre, removals_upto(pre, usage.mentions@, usage.statements@, usage.statements@.len() as int))
    }
}

/// Tree shaking of `source` at `level`, given what the parser found in the
/// preprocessed source (`None` when it did not parse).
pub open spec fn spec_treeshake(source: Seq<char>, level: TreeShakeLevel, usage: Option<LocalUsage>) -> Seq<char> {
    match level {
        TreeShakeLevel::Off => source,
        _ => match usage {
            None => source,
            Some(u) => spec_remove_unused(spec_preprocess(source), u),
        },
    }
}

/// Whether `name` is a declared local that nothing refers to.
fn name_is_unused(mentions: &Vec<Mention>, name: &Vec<char>) -> (b: bool)
    ensures
        b == is_unused(mentions@, name@),
{
    let mut declared = false;
    let mut referenced = false;
    let mut k: usize = 0;
    while k < mentions.len()
        invariant
            k <= mentions@.len(),
            declared == exists|j: int|
                0 <= j < k && match #[trigger] mentions@[j] {
                    Mention::Local(t) => trim(t@) == name@,
                    _ => false,
                },
            referenced == exists|j: int|
                0 <= j < k && match #[trigger] mentions@[j] {
                    Mention::Reference(t) => trim(t@) == name@,
                    Mention::Symbol(t) => spec_is_identifier_token(t@) && trim(t@) == name@,
                    Mention::Local(_) => false,
                },
        decreases mentions@.len() - k,
    {
        match &mentions[k] {
            Mention::Local(t) => {
                let tt = trim_chars(t.as_str());
                if crate::text::chars_eq(&tt, name) {
                    declared = true;
                }
            },
            Mention::Reference(t) => {
                let tt = trim_chars(t.as_str());
                if crate::text::chars_eq(&tt, name) {
                    referenced = true;
                }
            },
            Mention::Symbol(t) => {
                if is_identifier_token(t.as_str()) {
                    let tt = trim_chars(t.as_str());
                    if crate::text::chars_eq(&tt, name) {
                        referenced = true;
                    }
                }
            },
        }
        k = k + 1;
    }
    declared && !referenced
}

/// Whether every declared local is referred to somewhere.
fn every_local_used(mentions: &Vec<Mention>) -> (b: bool)
    ensures
        b == all_used(mentions@),
{
    let mut k: usize = 0;
    while k < mentions.len()
        invariant
            k <= mentions@.len(),
            forall|j: int|
                0 <= j < k ==> match #[trigger] mentions@[j] {
                    Mention::Local(t) => !is_unused(mentions@, trim(t@)),
                    _ => true,
                },
        decreases mentions@.len() - k,
    {
        match &mentions[k] {
            Mention::Local(t) => {
                let tt = trim_chars(t.as_str());
                if name_is_unused(mentions, &tt) {
                    return false;
                }
            },
            _ => {},
        }
        k = k + 1;
    }
    assert forall|name: Seq<char>| !is_unused(mentions@, name) by {
        if is_unused(mentions@, name) {
            let j = choose|j: int|
                0 <= j < mentions@.len() && match #[trigger] mentions@[j] {
                    Mention::Local(t) => trim(t@) == name,
                    _ => false,
                };
            assert(match mentions@[j] {
                Mention::Local(t) => !is_unused(mentions@, trim(t@)),
                _ => true,
            });
        }
    }
    true
}

/// Whether a top-level statement may be removed.
#[verifier::loop_isolation(false)]
fn statement_removable(mentions: &Vec<Mention>, st: &Statement) -> (b: bool)
    ensures
        b == removable(mentions@, *st),
{
    match st {
        Statement::LocalAssignment { names, values } => {
            let mut k: usize = 0;
            while k < names.len()
                invariant
                    k <= names@.len(),
                    forall|j: int| 0 <= j < k ==> is_unused(mentions@, trim(#[trigger] names@[j]@)),
                decreases names@.len() - k,
            {
                let t = trim_chars(names[k].as_str());
                if !name_is_unused(mentions, &t) {
                    assert(!is_unused(mentions@, trim(names@[k as int]@)));
                    return false;
                }
                k = k + 1;
            }
            // only remove if the values have no side effects (or there are none)
            let mut k: usize = 0;
            while k < values.len()
                invariant
                    k <= values@.len(),
                    forall|j: int| 0 <= j < names@.len() ==> is_unused(mentions@, trim(#[trigger] names@[j]@)),
                    forall|j: int| 0 <= j < k ==> spec_is_pure(#[trigger] values@[j]),
                decreases values@.len() - k,
            {
                if !is_pure_expression(&values[k]) {
                    assert(!spec_is_pure(values@[k as int]));
                    return false;
                }
                k = k + 1;
            }
            true
        },
        Statement::LocalFunction { name } => {
            let t = trim_chars(name.as_str());
            name_is_unused(mentions, &t)
        },
        Statement::Other => false,
    }
}

/// `s` with `s[start..end]` cut out when that is a non-empty range within `s`.
fn cut_range(s: Vec<char>, start: usize, end: usize) -> (r: Vec<char>)
    ensures
        r@ == cut(s@, (start as int, end as int)),
{
    if start < s.len() && end <= s.len() && start < end {
        let mut r: Vec<char> = Vec::new();
        let mut i: usize = 0;
        while i < start
            invariant
                i <= start < s@.len(),
                r@ == s@.subrange(0, i as int),
            decreases start - i,
        {
            r.push(s[i]);
            i = i + 1;
            assert(r@ == s@.subrange(0, i as int));
        }
        let mut j: usize = end;
        while j < s.len()
            invariant
                start < end <= j <= s@.len(),
                r@ == s@.subrange(0, start as int) + s@.subrange(end as int, j as int),
            decreases s@.len() - j,
        {
            r.push(s[j]);
            j = j + 1;
            assert(s@.subrange(end as int, j as int) == s@.subrange(end as int, j - 1 as int).push(s@[j - 1]));
        }
        r
    } else {
        s
    }
}

/// Remove unused local variable declarations from the preprocessed source:
/// each top-level `local` statement whose names nothing refers to and whose
/// values are pure literals, and each unused `local function`, together with
/// its semicolon and the line break that ends it.
pub fn remove_unused_locals(preprocessed: &str, usage: &LocalUsage) -> (r: String)
    ensures
        r@ == spec_remove_unused(preprocessed@, *usage),
{
    let mentions = &usage.mentions;
    if every_local_used(mentions) {
        return preprocessed.to_owned();
    }
    // collect the character ranges to remove
    let sts = &usage.statements;
    let mut removals: Vec<(usize, usize)> = Vec::new();
    let mut k: usize = 0;
    while k < sts.len()
        invariant
            k <= sts@.len(),
            removals@.len() == removals_upto(preprocessed@, mentions@, sts@, k as int).len(),
            forall|j: int| 0 <= j < removals@.len() ==> (#[trigger] removals@[j].0 as int, removals@[j].1 as int)
                == removals_upto(preprocessed@, mentions@, sts@, k as int)[j],
        decreases sts@.len() - k,
    {
        let st = &sts[k];
        match st.span {
            Some((start, end)) => {
                if statement_removable(mentions, &st.statement) {
                    // extend over the optional semicolon, then the line break that ends it
                    let e = match st.semicolon_end {
                        Some(se) => se,
                        None => end,
                    };
                    let e = removal_end(preprocessed, e);
                    removals.push((start, e));
                }
            },
            None => {},
        }
        k = k + 1;
    }
    let ghost rs = removals_upto(preprocessed@, mentions@, sts@, sts@.len() as int);
    assert(removals@.len() == rs.len());
    // apply removals in reverse order to preserve positions
    let mut result = str_chars(preprocessed);
    let mut n = removals.len();
    assert(rs.subrange(0, n as int) == rs);
    while n > 0
        invariant
            n <= removals@.len(),
            removals@.len() == rs.len(),
            forall|j: int| 0 <= j < removals@.len() ==> (#[trigger] removals@[j].0 as int, removals@[j].1 as int) == rs[j],
            cut_all(result@, rs.subrange(0, n as int)) == cut_all(preprocessed@, rs),
        decreases n,
    {
        let (start, end) = removals[n - 1];
        assert(rs.subrange(0, n as int).drop_last() == rs.subrange(0, n - 1 as int));
        result = cut_range(result, start, end);
        n = n - 1;
    }
    assert(rs.subrange(0, 0) == Seq::<(int, int)>::empty());
    chars_to_string(&result)
}

/// Apply tree shaking to a Lua source string, given what the parser found in
/// its preprocessed form (`None` when it did not parse): at `Off` the source
/// is returned as it is, and so it is when it does not parse; otherwise the
/// preprocessed source loses its unused local declarations.
pub fn treeshake(source: &str, level: TreeShakeLevel, usage: Option<&LocalUsage>) -> (r: String)
    ensures
        r@ == spec_treeshake(source@, level, match usage { Some(u) => Some(*u), None => None }),
{
    match level {
        TreeShakeLevel::Off => source.to_owned(),
        _ => match usage {
            None => source.to_owned(),
            Some(u) => {
                let pre = preprocess(source);
                remove_unused_locals(pre.as_str(), u)
            },
        },
    }
}

/// A statement is cut out only when what it declares is unused: every name
/// of a removed `local` assignment is declared and referred to nowhere, its
/// values are literals, and the name of a removed `local function` is
/// declared and referred to nowhere; no other statement is ever cut out.
pub proof fn lemma_removed_only_unreferenced(pre: Seq<char>, mentions: Seq<Mention>, st: TopStatement)
    ensures
        removal_of(pre, mentions, st) is Some ==> match st.statement {
            Statement::LocalAssignment { names, values } => {
                &&& forall|k: int|
                    0 <= k < names@.len() ==> is_declared(mentions, trim(#[trigger] names@[k]@)) && !is_referenced(
                        mentions,
                        trim(names@[k]@),
                    )
                &&& forall|k: int| 0 <= k < values@.len() ==> spec_is_pure(#[trigger] values@[k])
            },
            Statement::LocalFunction { name } => is_declared(mentions, trim(name@)) && !is_referenced(
                mentions,
                trim(name@),
            ),
            Statement::Other => false,
        },
{
}

/// Every range that tree shaking cuts out is that of one of the statements,
/// cut as [`lemma_removed_only_unreferenced`] allows.
pub proof fn lemma_removals_come_from_statements(pre: Seq<char>, mentions: Seq<Mention>, sts: Seq<TopStatement>, k: int)
    requires
        0 <= k <= sts.len(),
    ensures
        forall|r: int|
            0 <= r < removals_upto(pre, mentions, sts, k).len() ==> exists|j: int|
                0 <= j < k && removal_of(pre, mentions, sts[j]) == Some(
                    #[trigger] removals_upto(pre, mentions, sts, k)[r],
                ),
    decreases k,
{
    if k > 0 {
        lemma_removals_come_from_statements(pre, mentions, sts, k - 1);
        let prev = removals_upto(pre, mentions, sts, k - 1);
        let cur = removals_upto(pre, mentions, sts, k);
        assert forall|r: int| 0 <= r < cur.len() implies exists|j: int|
            0 <= j < k && removal_of(pre, mentions, sts[j]) == Some(#[trigger] cur[r]) by {
            if r < prev.len() {
                assert(cur[r] == prev[r]);
                let j = choose|j: int| 0 <= j < k - 1 && removal_of(pre, mentions, sts[j]) == Some(#[trigger] prev[r]);
                assert(removal_of(pre, mentions, sts[j]) == Some(cur[r]));
            } else {
                assert(removal_of(pre, mentions, sts[k - 1]) == Some(cur[r]));
            }
        }
    }
}

} // verus!

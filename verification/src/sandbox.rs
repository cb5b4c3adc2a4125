//! Sandbox checks: uses of denied globals (`os`, `io`, `dofile`, ...).
//!
//! The parser reports each name that a module reads or calls as a variable;
//! which of them are violations is decided here.
use vstd::prelude::*;

use crate::text::{chars_eq_str, str_chars};

verus! {

#[derive(Debug)]
pub struct SandboxViolation {
    pub name: String,
    pub line: usize,
}

#[derive(Debug, Clone, Copy, PartialEq, Eq, Structural)]
pub enum SandboxLevel {
    Off,
    Warn,
    Error,
}

impl Default for SandboxLevel {
    fn default() -> (r: Self)
        ensures
            r == SandboxLevel::Off,
    {
        SandboxLevel::Off
    }
}

/// The level a configuration name stands for: `error`, `warn`, anything else off.
pub open spec fn level_named(s: Seq<char>) -> SandboxLevel {
    if s == "error"@ {
        SandboxLevel::Error
    } else if s == "warn"@ {
        SandboxLevel::Warn
    } else {
        SandboxLevel::Off
    }
}

impl SandboxLevel {
    /// The level a configuration name stands for.
    pub fn parse_level(s: &str) -> (r: Self)
        ensures
            r == level_named(s@),
    {
        let v = str_chars(s);
        if chars_eq_str(&v, "error") {
            SandboxLevel::Error
        } else if chars_eq_str(&v, "warn") {
            SandboxLevel::Warn
        } else {
            SandboxLevel::Off
        }
    }
}

impl core::str::FromStr for SandboxLevel {
    type Err = ();

    fn from_str(s: &str) -> (r: Result<Self, ()>)
        ensures
            r == Ok::<Self, ()>(level_named(s@)),
    {
        Ok(Self::parse_level(s))
    }
}

/// Whether `name` is one of the denied globals.
pub open spec fn is_denied(deny: Seq<String>, name: Seq<char>) -> bool {
    exists|k: int| 0 <= k < deny.len() && (#[trigger] deny[k])@ == name
}

/// Records a violation when the global `name`, used at `line`, is denied.
pub fn check_name(violations: &mut Vec<SandboxViolation>, deny: &Vec<String>, name: &str, line: usize)
    ensures
        is_denied(deny@, name@) ==> {
            &&& final(violations)@.len() == old(violations)@.len() + 1
            &&& final(violations)@.drop_last() == old(violations)@
            &&& final(violations)@.last().name@ == name@
            &&& final(violations)@.last().line == line
        },
        !is_denied(deny@, name@) ==> final(violations)@ == old(violations)@,
{
    let n = str_chars(name);
    let mut k: usize = 0;
    while k < deny.len()
        invariant
            k <= deny@.len(),
            n@ == name@,
            violations@ == old(violations)@,
            forall|j: int| 0 <= j < k ==> deny@[j]@ != name@,
        decreases deny@.len() - k,
    {
        if chars_eq_str(&n, deny[k].as_str()) {
            assert(deny@[k as int]@ == name@);
            violations.push(SandboxViolation { name: name.to_owned(), line });
            return;
        }
        k = k + 1;
    }
}

} // verus!

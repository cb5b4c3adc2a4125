//! Compatibility checks: Lua features that the target version lacks.
//!
//! The parser walks a module and reports each construct of interest to a
//! [`CompatVisitor`]; which constructs need which Lua version, and which of
//! them are reported, is decided here.
use vstd::prelude::*;

use crate::scanner::{trim_quotes, spec_trim_quotes, CallArgument};
use crate::text::{chars_eq_str, lowercase, str_chars, to_lowercase};

verus! {

#[derive(Debug, Clone, Copy, PartialEq, Eq, Hash, Structural)]
pub enum CompatIssueKind {
    GotoUsed,
    ConstAttribute,
    ToBeClosedAttribute,
    IntegerDivision,
    BitwiseOps,
    BitwiseNot,
    Utf8Library,
    TableMove,
    StringPack,
    MathTointeger,
    MathType,
    FfiLibrary,
    BitLibrary,
    JitLibrary,
}

/// The target versions (normalized) in which a feature is available.
pub open spec fn spec_supported_in(kind: CompatIssueKind) -> Seq<Seq<char>> {
    match kind {
        CompatIssueKind::GotoUsed => seq!["52"@, "53"@, "54"@, "55"@, "jit"@],
        CompatIssueKind::ConstAttribute => seq!["54"@, "55"@],
        CompatIssueKind::ToBeClosedAttribute => seq!["54"@, "55"@],
        CompatIssueKind::BitwiseOps => seq!["53"@, "54"@, "55"@],
        CompatIssueKind::BitwiseNot => seq!["53"@, "54"@, "55"@],
        CompatIssueKind::IntegerDivision => seq!["53"@, "54"@, "55"@],
        CompatIssueKind::FfiLibrary => seq!["jit"@],
        CompatIssueKind::BitLibrary => seq!["jit"@],
        CompatIssueKind::JitLibrary => seq!["jit"@],
        CompatIssueKind::Utf8Library => seq!["53"@, "54"@, "55"@],
        CompatIssueKind::TableMove => seq!["53"@, "54"@, "55"@],
        CompatIssueKind::StringPack => seq!["53"@, "54"@, "55"@],
        CompatIssueKind::MathTointeger => seq!["53"@, "54"@, "55"@],
        CompatIssueKind::MathType => seq!["53"@, "54"@, "55"@],
    }
}

/// A target version name, already lowercased, in normal form: `luajit` and
/// `jit` become `jit`, `5.x` becomes `5x`; other names stay as they are.
pub open spec fn normalize_target(lowered: Seq<char>) -> Seq<char> {
    if lowered == "luajit"@ || lowered == "jit"@ {
        "jit"@
    } else if lowered == "51"@ || lowered == "5.1"@ {
        "51"@
    } else if lowered == "52"@ || lowered == "5.2"@ {
        "52"@
    } else if lowered == "53"@ || lowered == "5.3"@ {
        "53"@
    } else if lowered == "54"@ || lowered == "5.4"@ {
        "54"@
    } else if lowered == "55"@ || lowered == "5.5"@ {
        "55"@
    } else {
        lowered
    }
}

/// Whether using `kind` is an issue when targeting `target`: its normalized
/// name is not among the versions that support it.
pub open spec fn spec_is_issue_for(kind: CompatIssueKind, target: Seq<char>) -> bool {
    !spec_supported_in(kind).contains(normalize_target(lowercase(target)))
}

/// The lowest Lua 5.x minor version whose interpreter has the feature that
/// `kind` detects: `goto` came with 5.2, the `<const>` and `<close>`
/// attributes with 5.4, the integer and bitwise operators and the `utf8`,
/// `table.move`, `string.pack` and `math` additions with 5.3; the `ffi`,
/// `bit` and `jit` libraries belong to LuaJIT alone.
pub open spec fn introduced_in(kind: CompatIssueKind) -> Option<int> {
    match kind {
        CompatIssueKind::GotoUsed => Some(2),
        CompatIssueKind::ConstAttribute => Some(4),
        CompatIssueKind::ToBeClosedAttribute => Some(4),
        CompatIssueKind::FfiLibrary => None,
        CompatIssueKind::BitLibrary => None,
        CompatIssueKind::JitLibrary => None,
        _ => Some(3),
    }
}

/// Whether LuaJIT has the feature that `kind` detects: `goto` and its own
/// libraries.
pub open spec fn in_luajit(kind: CompatIssueKind) -> bool {
    kind is GotoUsed || kind is FfiLibrary || kind is BitLibrary || kind is JitLibrary
}

/// Whether `kind` is an issue for a target whose name is already lowercased.
pub open spec fn issue_for_lowered(kind: CompatIssueKind, lowered: Seq<char>) -> bool {
    !spec_supported_in(kind).contains(normalize_target(lowered))
}

/// The kind a name of the configuration stands for.
pub open spec fn kind_named(s: Seq<char>) -> Option<CompatIssueKind> {
    if s == "GotoUsed"@ {
        Some(CompatIssueKind::GotoUsed)
    } else if s == "ConstAttribute"@ {
        Some(CompatIssueKind::ConstAttribute)
    } else if s == "ToBeClosedAttribute"@ {
        Some(CompatIssueKind::ToBeClosedAttribute)
    } else if s == "IntegerDivision"@ {
        Some(CompatIssueKind::IntegerDivision)
    } else if s == "BitwiseOps"@ {
        Some(CompatIssueKind::BitwiseOps)
    } else if s == "BitwiseNot"@ {
        Some(CompatIssueKind::BitwiseNot)
    } else if s == "Utf8Library"@ {
        Some(CompatIssueKind::Utf8Library)
    } else if s == "TableMove"@ {
        Some(CompatIssueKind::TableMove)
    } else if s == "StringPack"@ {
        Some(CompatIssueKind::StringPack)
    } else if s == "MathTointeger"@ {
        Some(CompatIssueKind::MathTointeger)
    } else if s == "MathType"@ {
        Some(CompatIssueKind::MathType)
    } else if s == "FfiLibrary"@ {
        Some(CompatIssueKind::FfiLibrary)
    } else if s == "BitLibrary"@ {
        Some(CompatIssueKind::BitLibrary)
    } else if s == "JitLibrary"@ {
        Some(CompatIssueKind::JitLibrary)
    } else {
        None
    }
}

impl CompatIssueKind {
    /// The target versions (normalized) in which the feature is available.
    pub fn supported_in(&self) -> (r: Vec<&'static str>)
        ensures
            r@.map_values(|s: &str| s@) == spec_supported_in(*self),
    {
        let r = match self {
            Self::GotoUsed => vec!["52", "53", "54", "55", "jit"],
            Self::ConstAttribute => vec!["54", "55"],
            Self::ToBeClosedAttribute => vec!["54", "55"],
            Self::BitwiseOps => vec!["53", "54", "55"],
            Self::BitwiseNot => vec!["53", "54", "55"],
            Self::IntegerDivision => vec!["53", "54", "55"],
            Self::FfiLibrary => vec!["jit"],
            Self::BitLibrary => vec!["jit"],
            Self::JitLibrary => vec!["jit"],
            Self::Utf8Library => vec!["53", "54", "55"],
            Self::TableMove => vec!["53", "54", "55"],
            Self::StringPack => vec!["53", "54", "55"],
            Self::MathTointeger => vec!["53", "54", "55"],
            Self::MathType => vec!["53", "54", "55"],
        };
        assert(r@.map_values(|s: &str| s@) =~= spec_supported_in(*self));
        r
    }

    /// Whether using this feature is an issue when targeting `target_version`.
    pub fn is_issue_for(&self, target_version: &str) -> (b: bool)
        ensures
            b == spec_is_issue_for(*self, target_version@),
    {
        let lowered = to_lowercase(target_version);
        self.is_issue_for_lowered(lowered.as_str())
    }

    /// Whether using this feature is an issue when targeting the version
    /// named by `lowered`, an already lowercased name (`luajit` and `jit`,
    /// `5.1` and `51`, ... name the same version).
    pub fn is_issue_for_lowered(&self, lowered: &str) -> (b: bool)
        ensures
            b == !spec_supported_in(*self).contains(normalize_target(lowered@)),
    {
        let l = str_chars(lowered);
        let normalized: &str = if chars_eq_str(&l, "luajit") || chars_eq_str(&l, "jit") {
            "jit"
        } else if chars_eq_str(&l, "51") || chars_eq_str(&l, "5.1") {
            "51"
        } else if chars_eq_str(&l, "52") || chars_eq_str(&l, "5.2") {
            "52"
        } else if chars_eq_str(&l, "53") || chars_eq_str(&l, "5.3") {
            "53"
        } else if chars_eq_str(&l, "54") || chars_eq_str(&l, "5.4") {
            "54"
        } else if chars_eq_str(&l, "55") || chars_eq_str(&l, "5.5") {
            "55"
        } else {
            lowered
        };
        assert(normalized@ == normalize_target(lowered@));
        let n = str_chars(normalized);
        let supported = self.supported_in();
        let ghost sup = spec_supported_in(*self);
        let mut k: usize = 0;
        while k < supported.len()
            invariant
                k <= supported@.len(),
                supported@.map_values(|s: &str| s@) == sup,
                sup == spec_supported_in(*self),
                n@ == normalize_target(lowered@),
                forall|j: int| 0 <= j < k ==> sup[j] != n@,
            decreases supported@.len() - k,
        {
            assert(sup[k as int] == supported@[k as int]@);
            if chars_eq_str(&n, supported[k]) {
                assert(sup[k as int] == n@);
                assert(sup.contains(n@));
                return false;
            }
            k = k + 1;
        }
        true
    }

    /// The kind that a configuration name stands for, if any.
    pub fn parse_kind(s: &str) -> (r: Option<Self>)
        ensures
            r == kind_named(s@),
    {
        let v = str_chars(s);
        if chars_eq_str(&v, "GotoUsed") {
            Some(Self::GotoUsed)
        } else if chars_eq_str(&v, "ConstAttribute") {
            Some(Self::ConstAttribute)
        } else if chars_eq_str(&v, "ToBeClosedAttribute") {
            Some(Self::ToBeClosedAttribute)
        } else if chars_eq_str(&v, "IntegerDivision") {
            Some(Self::IntegerDivision)
        } else if chars_eq_str(&v, "BitwiseOps") {
            Some(Self::BitwiseOps)
        } else if chars_eq_str(&v, "BitwiseNot") {
            Some(Self::BitwiseNot)
        } else if chars_eq_str(&v, "Utf8Library") {
            Some(Self::Utf8Library)
        } else if chars_eq_str(&v, "TableMove") {
            Some(Self::TableMove)
        } else if chars_eq_str(&v, "StringPack") {
            Some(Self::StringPack)
        } else if chars_eq_str(&v, "MathTointeger") {
            Some(Self::MathTointeger)
        } else if chars_eq_str(&v, "MathType") {
            Some(Self::MathType)
        } else if chars_eq_str(&v, "FfiLibrary") {
            Some(Self::FfiLibrary)
        } else if chars_eq_str(&v, "BitLibrary") {
            Some(Self::BitLibrary)
        } else if chars_eq_str(&v, "JitLibrary") {
            Some(Self::JitLibrary)
        } else {
            None
        }
    }
}

/// The variant name of a kind, as `Debug` writes it.
pub open spec fn kind_name(kind: CompatIssueKind) -> Seq<char> {
    match kind {
        CompatIssueKind::GotoUsed => "GotoUsed"@,
        CompatIssueKind::ConstAttribute => "ConstAttribute"@,
        CompatIssueKind::ToBeClosedAttribute => "ToBeClosedAttribute"@,
        CompatIssueKind::IntegerDivision => "IntegerDivision"@,
        CompatIssueKind::BitwiseOps => "BitwiseOps"@,
        CompatIssueKind::BitwiseNot => "BitwiseNot"@,
        CompatIssueKind::Utf8Library => "Utf8Library"@,
        CompatIssueKind::TableMove => "TableMove"@,
        CompatIssueKind::StringPack => "StringPack"@,
        CompatIssueKind::MathTointeger => "MathTointeger"@,
        CompatIssueKind::MathType => "MathType"@,
        CompatIssueKind::FfiLibrary => "FfiLibrary"@,
        CompatIssueKind::BitLibrary => "BitLibrary"@,
        CompatIssueKind::JitLibrary => "JitLibrary"@,
    }
}

/// Targeting Lua 5.1 (named `51` or `5.1`, in any case) flags every feature
/// the compatibility check knows: none of them is available there.
pub proof fn lemma_lua51_flags_every_kind(kind: CompatIssueKind, target: Seq<char>)
    requires
        lowercase(target) == "51"@ || lowercase(target) == "5.1"@,
    ensures
        spec_is_issue_for(kind, target),
{
    reveal_strlit("51");
    reveal_strlit("5.1");
    reveal_strlit("52");
    reveal_strlit("53");
    reveal_strlit("54");
    reveal_strlit("55");
    reveal_strlit("jit");
    reveal_strlit("luajit");
    assert("51"@.len() != "jit"@.len() && "51"@.len() != "luajit"@.len());
    assert("5.1"@.len() != "luajit"@.len() && "5.1"@[0] != "jit"@[0] && "5.1"@.len() != "51"@.len());
    assert(normalize_target(lowercase(target)) == "51"@);
    assert("51"@[1] != "52"@[1] && "51"@[1] != "53"@[1] && "51"@[1] != "54"@[1] && "51"@[1] != "55"@[1]);
    let supported = spec_supported_in(kind);
    assert forall|i: int| 0 <= i < supported.len() implies supported[i] != "51"@ by {
        assert(supported[i] == "52"@ || supported[i] == "53"@ || supported[i] == "54"@ || supported[i] == "55"@
            || supported[i] == "jit"@);
    }
}

/// A kind's name reads back as the kind: the names of the kinds are distinct.
pub proof fn lemma_kind_name_roundtrip(kind: CompatIssueKind)
    ensures
        kind_named(kind_name(kind)) == Some(kind),
{
    match kind {
        CompatIssueKind::GotoUsed => {
            reveal_strlit("GotoUsed");
        },
        CompatIssueKind::ConstAttribute => {
            reveal_strlit("ConstAttribute");
            reveal_strlit("GotoUsed");
            assert("ConstAttribute"@[0] != "GotoUsed"@[0] || "ConstAttribute"@.len() != "GotoUsed"@.len());
        },
        CompatIssueKind::ToBeClosedAttribute => {
            reveal_strlit("ToBeClosedAttribute");
            reveal_strlit("GotoUsed");
            assert("ToBeClosedAttribute"@[0] != "GotoUsed"@[0] || "ToBeClosedAttribute"@.len() != "GotoUsed"@.len());
            reveal_strlit("ConstAttribute");
            assert("ToBeClosedAttribute"@[0] != "ConstAttribute"@[0] || "ToBeClosedAttribute"@.len() != "ConstAttribute"@.len());
        },
        CompatIssueKind::IntegerDivision => {
            reveal_strlit("IntegerDivision");
            reveal_strlit("GotoUsed");
            assert("IntegerDivision"@[0] != "GotoUsed"@[0] || "IntegerDivision"@.len() != "GotoUsed"@.len());
            reveal_strlit("ConstAttribute");
            assert("IntegerDivision"@[0] != "ConstAttribute"@[0] || "IntegerDivision"@.len() != "ConstAttribute"@.len());
            reveal_strlit("ToBeClosedAttribute");
            assert("IntegerDivision"@[0] != "ToBeClosedAttribute"@[0] || "IntegerDivision"@.len() != "ToBeClosedAttribute"@.len());
        },
        CompatIssueKind::BitwiseOps => {
            reveal_strlit("BitwiseOps");
            reveal_strlit("GotoUsed");
            assert("BitwiseOps"@[0] != "GotoUsed"@[0] || "BitwiseOps"@.len() != "GotoUsed"@.len());
            reveal_strlit("ConstAttribute");
            assert("BitwiseOps"@[0] != "ConstAttribute"@[0] || "BitwiseOps"@.len() != "ConstAttribute"@.len());
            reveal_strlit("ToBeClosedAttribute");
            assert("BitwiseOps"@[0] != "ToBeClosedAttribute"@[0] || "BitwiseOps"@.len() != "ToBeClosedAttribute"@.len());
            reveal_strlit("IntegerDivision");
            assert("BitwiseOps"@[0] != "IntegerDivision"@[0] || "BitwiseOps"@.len() != "IntegerDivision"@.len());
        },
        CompatIssueKind::BitwiseNot => {
            reveal_strlit("BitwiseNot");
            reveal_strlit("GotoUsed");
            assert("BitwiseNot"@[0] != "GotoUsed"@[0] || "BitwiseNot"@.len() != "GotoUsed"@.len());
            reveal_strlit("ConstAttribute");
            assert("BitwiseNot"@[0] != "ConstAttribute"@[0] || "BitwiseNot"@.len() != "ConstAttribute"@.len());
            reveal_strlit("ToBeClosedAttribute");
            assert("BitwiseNot"@[0] != "ToBeClosedAttribute"@[0] || "BitwiseNot"@.len() != "ToBeClosedAttribute"@.len());
            reveal_strlit("IntegerDivision");
            assert("BitwiseNot"@[0] != "IntegerDivision"@[0] || "BitwiseNot"@.len() != "IntegerDivision"@.len());
            reveal_strlit("BitwiseOps");
            assert("BitwiseNot"@[7] != "BitwiseOps"@[7] || "BitwiseNot"@.len() != "BitwiseOps"@.len());
        },
        CompatIssueKind::Utf8Library => {
            reveal_strlit("Utf8Library");
            reveal_strlit("GotoUsed");
            assert("Utf8Library"@[0] != "GotoUsed"@[0] || "Utf8Library"@.len() != "GotoUsed"@.len());
            reveal_strlit("ConstAttribute");
            assert("Utf8Library"@[0] != "ConstAttribute"@[0] || "Utf8Library"@.len() != "ConstAttribute"@.len());
            reveal_strlit("ToBeClosedAttribute");
            assert("Utf8Library"@[0] != "ToBeClosedAttribute"@[0] || "Utf8Library"@.len() != "ToBeClosedAttribute"@.len());
            reveal_strlit("IntegerDivision");
            assert("Utf8Library"@[0] != "IntegerDivision"@[0] || "Utf8Library"@.len() != "IntegerDivision"@.len());
            reveal_strlit("BitwiseOps");
            assert("Utf8Library"@[0] != "BitwiseOps"@[0] || "Utf8Library"@.len() != "BitwiseOps"@.len());
            reveal_strlit("BitwiseNot");
            assert("Utf8Library"@[0] != "BitwiseNot"@[0] || "Utf8Library"@.len() != "BitwiseNot"@.len());
        },
        CompatIssueKind::TableMove => {
            reveal_strlit("TableMove");
            reveal_strlit("GotoUsed");
            assert("TableMove"@[0] != "GotoUsed"@[0] || "TableMove"@.len() != "GotoUsed"@.len());
            reveal_strlit("ConstAttribute");
            assert("TableMove"@[0] != "ConstAttribute"@[0] || "TableMove"@.len() != "ConstAttribute"@.len());
            reveal_strlit("ToBeClosedAttribute");
            assert("TableMove"@[1] != "ToBeClosedAttribute"@[1] || "TableMove"@.len() != "ToBeClosedAttribute"@.len());
            reveal_strlit("IntegerDivision");
            assert("TableMove"@[0] != "IntegerDivision"@[0] || "TableMove"@.len() != "IntegerDivision"@.len());
            reveal_strlit("BitwiseOps");
            assert("TableMove"@[0] != "BitwiseOps"@[0] || "TableMove"@.len() != "BitwiseOps"@.len());
            reveal_strlit("BitwiseNot");
            assert("TableMove"@[0] != "BitwiseNot"@[0] || "TableMove"@.len() != "BitwiseNot"@.len());
            reveal_strlit("Utf8Library");
            assert("TableMove"@[0] != "Utf8Library"@[0] || "TableMove"@.len() != "Utf8Library"@.len());
        },
        CompatIssueKind::StringPack => {
            reveal_strlit("StringPack");
            reveal_strlit("GotoUsed");
            assert("StringPack"@[0] != "GotoUsed"@[0] || "StringPack"@.len() != "GotoUsed"@.len());
            reveal_strlit("ConstAttribute");
            assert("StringPack"@[0] != "ConstAttribute"@[0] || "StringPack"@.len() != "ConstAttribute"@.len());
            reveal_strlit("ToBeClosedAttribute");
            assert("StringPack"@[0] != "ToBeClosedAttribute"@[0] || "StringPack"@.len() != "ToBeClosedAttribute"@.len());
            reveal_strlit("IntegerDivision");
            assert("StringPack"@[0] != "IntegerDivision"@[0] || "StringPack"@.len() != "IntegerDivision"@.len());
            reveal_strlit("BitwiseOps");
            assert("StringPack"@[0] != "BitwiseOps"@[0] || "StringPack"@.len() != "BitwiseOps"@.len());
            reveal_strlit("BitwiseNot");
            assert("StringPack"@[0] != "BitwiseNot"@[0] || "StringPack"@.len() != "BitwiseNot"@.len());
            reveal_strlit("Utf8Library");
            assert("StringPack"@[0] != "Utf8Library"@[0] || "StringPack"@.len() != "Utf8Library"@.len());
            reveal_strlit("TableMove");
            assert("StringPack"@[0] != "TableMove"@[0] || "StringPack"@.len() != "TableMove"@.len());
        },
        CompatIssueKind::MathTointeger => {
            reveal_strlit("MathTointeger");
            reveal_strlit("GotoUsed");
            assert("MathTointeger"@[0] != "GotoUsed"@[0] || "MathTointeger"@.len() != "GotoUsed"@.len());
            reveal_strlit("ConstAttribute");
            assert("MathTointeger"@[0] != "ConstAttribute"@[0] || "MathTointeger"@.len() != "ConstAttribute"@.len());
            reveal_strlit("ToBeClosedAttribute");
            assert("MathTointeger"@[0] != "ToBeClosedAttribute"@[0] || "MathTointeger"@.len() != "ToBeClosedAttribute"@.len());
            reveal_strlit("IntegerDivision");
            assert("MathTointeger"@[0] != "IntegerDivision"@[0] || "MathTointeger"@.len() != "IntegerDivision"@.len());
            reveal_strlit("BitwiseOps");
            assert("MathTointeger"@[0] != "BitwiseOps"@[0] || "MathTointeger"@.len() != "BitwiseOps"@.len());
            reveal_strlit("BitwiseNot");
            assert("MathTointeger"@[0] != "BitwiseNot"@[0] || "MathTointeger"@.len() != "BitwiseNot"@.len());
            reveal_strlit("Utf8Library");
            assert("MathTointeger"@[0] != "Utf8Library"@[0] || "MathTointeger"@.len() != "Utf8Library"@.len());
            reveal_strlit("TableMove");
            assert("MathTointeger"@[0] != "TableMove"@[0] || "MathTointeger"@.len() != "TableMove"@.len());
            reveal_strlit("StringPack");
            assert("MathTointeger"@[0] != "StringPack"@[0] || "MathTointeger"@.len() != "StringPack"@.len());
        },
        CompatIssueKind::MathType => {
            reveal_strlit("MathType");
            reveal_strlit("GotoUsed");
            assert("MathType"@[0] != "GotoUsed"@[0] || "MathType"@.len() != "GotoUsed"@.len());
            reveal_strlit("ConstAttribute");
            assert("MathType"@[0] != "ConstAttribute"@[0] || "MathType"@.len() != "ConstAttribute"@.len());
            reveal_strlit("ToBeClosedAttribute");
            assert("MathType"@[0] != "ToBeClosedAttribute"@[0] || "MathType"@.len() != "ToBeClosedAttribute"@.len());
            reveal_strlit("IntegerDivision");
            assert("MathType"@[0] != "IntegerDivision"@[0] || "MathType"@.len() != "IntegerDivision"@.len());
            reveal_strlit("BitwiseOps");
            assert("MathType"@[0] != "BitwiseOps"@[0] || "MathType"@.len() != "BitwiseOps"@.len());
            reveal_strlit("BitwiseNot");
            assert("MathType"@[0] != "BitwiseNot"@[0] || "MathType"@.len() != "BitwiseNot"@.len());
            reveal_strlit("Utf8Library");
            assert("MathType"@[0] != "Utf8Library"@[0] || "MathType"@.len() != "Utf8Library"@.len());
            reveal_strlit("TableMove");
            assert("MathType"@[0] != "TableMove"@[0] || "MathType"@.len() != "TableMove"@.len());
            reveal_strlit("StringPack");
            assert("MathType"@[0] != "StringPack"@[0] || "MathType"@.len() != "StringPack"@.len());
            reveal_strlit("MathTointeger");
            assert("MathType"@[5] != "MathTointeger"@[5] || "MathType"@.len() != "MathTointeger"@.len());
        },
        CompatIssueKind::FfiLibrary => {
            reveal_strlit("FfiLibrary");
            reveal_strlit("GotoUsed");
            assert("FfiLibrary"@[0] != "GotoUsed"@[0] || "FfiLibrary"@.len() != "GotoUsed"@.len());
            reveal_strlit("ConstAttribute");
            assert("FfiLibrary"@[0] != "ConstAttribute"@[0] || "FfiLibrary"@.len() != "ConstAttribute"@.len());
            reveal_strlit("ToBeClosedAttribute");
            assert("FfiLibrary"@[0] != "ToBeClosedAttribute"@[0] || "FfiLibrary"@.len() != "ToBeClosedAttribute"@.len());
            reveal_strlit("IntegerDivision");
            assert("FfiLibrary"@[0] != "IntegerDivision"@[0] || "FfiLibrary"@.len() != "IntegerDivision"@.len());
            reveal_strlit("BitwiseOps");
            assert("FfiLibrary"@[0] != "BitwiseOps"@[0] || "FfiLibrary"@.len() != "BitwiseOps"@.len());
            reveal_strlit("BitwiseNot");
            assert("FfiLibrary"@[0] != "BitwiseNot"@[0] || "FfiLibrary"@.len() != "BitwiseNot"@.len());
            reveal_strlit("Utf8Library");
            assert("FfiLibrary"@[0] != "Utf8Library"@[0] || "FfiLibrary"@.len() != "Utf8Library"@.len());
            reveal_strlit("TableMove");
            assert("FfiLibrary"@[0] != "TableMove"@[0] || "FfiLibrary"@.len() != "TableMove"@.len());
            reveal_strlit("StringPack");
            assert("FfiLibrary"@[0] != "StringPack"@[0] || "FfiLibrary"@.len() != "StringPack"@.len());
            reveal_strlit("MathTointeger");
            assert("FfiLibrary"@[0] != "MathTointeger"@[0] || "FfiLibrary"@.len() != "MathTointeger"@.len());
            reveal_strlit("MathType");
            assert("FfiLibrary"@[0] != "MathType"@[0] || "FfiLibrary"@.len() != "MathType"@.len());
        },
        CompatIssueKind::BitLibrary => {
            reveal_strlit("BitLibrary");
            reveal_strlit("GotoUsed");
            assert("BitLibrary"@[0] != "GotoUsed"@[0] || "BitLibrary"@.len() != "GotoUsed"@.len());
            reveal_strlit("ConstAttribute");
            assert("BitLibrary"@[0] != "ConstAttribute"@[0] || "BitLibrary"@.len() != "ConstAttribute"@.len());
            reveal_strlit("ToBeClosedAttribute");
            assert("BitLibrary"@[0] != "ToBeClosedAttribute"@[0] || "BitLibrary"@.len() != "ToBeClosedAttribute"@.len());
            reveal_strlit("IntegerDivision");
            assert("BitLibrary"@[0] != "IntegerDivision"@[0] || "BitLibrary"@.len() != "IntegerDivision"@.len());
            reveal_strlit("BitwiseOps");
            assert("BitLibrary"@[3] != "BitwiseOps"@[3] || "BitLibrary"@.len() != "BitwiseOps"@.len());
            reveal_strlit("BitwiseNot");
            assert("BitLibrary"@[3] != "BitwiseNot"@[3] || "BitLibrary"@.len() != "BitwiseNot"@.len());
            reveal_strlit("Utf8Library");
            assert("BitLibrary"@[0] != "Utf8Library"@[0] || "BitLibrary"@.len() != "Utf8Library"@.len());
            reveal_strlit("TableMove");
            assert("BitLibrary"@[0] != "TableMove"@[0] || "BitLibrary"@.len() != "TableMove"@.len());
            reveal_strlit("StringPack");
            assert("BitLibrary"@[0] != "StringPack"@[0] || "BitLibrary"@.len() != "StringPack"@.len());
            reveal_strlit("MathTointeger");
            assert("BitLibrary"@[0] != "MathTointeger"@[0] || "BitLibrary"@.len() != "MathTointeger"@.len());
            reveal_strlit("MathType");
            assert("BitLibrary"@[0] != "MathType"@[0] || "BitLibrary"@.len() != "MathType"@.len());
            reveal_strlit("FfiLibrary");
            assert("BitLibrary"@[0] != "FfiLibrary"@[0] || "BitLibrary"@.len() != "FfiLibrary"@.len());
        },
        CompatIssueKind::JitLibrary => {
            reveal_strlit("JitLibrary");
            reveal_strlit("GotoUsed");
            assert("JitLibrary"@[0] != "GotoUsed"@[0] || "JitLibrary"@.len() != "GotoUsed"@.len());
            reveal_strlit("ConstAttribute");
            assert("JitLibrary"@[0] != "ConstAttribute"@[0] || "JitLibrary"@.len() != "ConstAttribute"@.len());
            reveal_strlit("ToBeClosedAttribute");
            assert("JitLibrary"@[0] != "ToBeClosedAttribute"@[0] || "JitLibrary"@.len() != "ToBeClosedAttribute"@.len());
            reveal_strlit("IntegerDivision");
            assert("JitLibrary"@[0] != "IntegerDivision"@[0] || "JitLibrary"@.len() != "IntegerDivision"@.len());
            reveal_strlit("BitwiseOps");
            assert("JitLibrary"@[0] != "BitwiseOps"@[0] || "JitLibrary"@.len() != "BitwiseOps"@.len());
            reveal_strlit("BitwiseNot");
            assert("JitLibrary"@[0] != "BitwiseNot"@[0] || "JitLibrary"@.len() != "BitwiseNot"@.len());
            reveal_strlit("Utf8Library");
            assert("JitLibrary"@[0] != "Utf8Library"@[0] || "JitLibrary"@.len() != "Utf8Library"@.len());
            reveal_strlit("TableMove");
            assert("JitLibrary"@[0] != "TableMove"@[0] || "JitLibrary"@.len() != "TableMove"@.len());
            reveal_strlit("StringPack");
            assert("JitLibrary"@[0] != "StringPack"@[0] || "JitLibrary"@.len() != "StringPack"@.len());
            reveal_strlit("MathTointeger");
            assert("JitLibrary"@[0] != "MathTointeger"@[0] || "JitLibrary"@.len() != "MathTointeger"@.len());
            reveal_strlit("MathType");
            assert("JitLibrary"@[0] != "MathType"@[0] || "JitLibrary"@.len() != "MathType"@.len());
            reveal_strlit("FfiLibrary");
            assert("JitLibrary"@[0] != "FfiLibrary"@[0] || "JitLibrary"@.len() != "FfiLibrary"@.len());
            reveal_strlit("BitLibrary");
            assert("JitLibrary"@[0] != "BitLibrary"@[0] || "JitLibrary"@.len() != "BitLibrary"@.len());
        },
    }
}

impl CompatIssueKind {
    /// The variant name, as `Debug` writes it (and as the configuration's
    /// `ignore` list names it).
    pub fn name(&self) -> (r: &'static str)
        ensures
            r@ == kind_name(*self),
            kind_named(r@) == Some(*self),
    {
        proof {
            lemma_kind_name_roundtrip(*self);
        }
        match self {
            Self::GotoUsed => "GotoUsed",
            Self::ConstAttribute => "ConstAttribute",
            Self::ToBeClosedAttribute => "ToBeClosedAttribute",
            Self::IntegerDivision => "IntegerDivision",
            Self::BitwiseOps => "BitwiseOps",
            Self::BitwiseNot => "BitwiseNot",
            Self::Utf8Library => "Utf8Library",
            Self::TableMove => "TableMove",
            Self::StringPack => "StringPack",
            Self::MathTointeger => "MathTointeger",
            Self::MathType => "MathType",
            Self::FfiLibrary => "FfiLibrary",
            Self::BitLibrary => "BitLibrary",
            Self::JitLibrary => "JitLibrary",
        }
    }
}

impl core::str::FromStr for CompatIssueKind {
    type Err = ();

    fn from_str(s: &str) -> (r: Result<Self, ()>)
        ensures
            r == (match kind_named(s@) {
                Some(k) => Ok::<Self, ()>(k),
                None => Err(()),
            }),
    {
        match Self::parse_kind(s) {
            Some(k) => Ok(k),
            None => Err(()),
        }
    }
}

#[derive(Debug)]
pub struct CompatIssue {
    pub line: usize,
    pub kind: CompatIssueKind,
}

#[derive(Debug, Clone, Copy, PartialEq, Eq, Structural)]
pub enum CompatLevel {
    Off,
    Warn,
    Error,
}

impl Default for CompatLevel {
    fn default() -> (r: Self)
        ensures
            r == CompatLevel::Off,
    {
        CompatLevel::Off
    }
}

pub struct CompatConfig {
    pub level: CompatLevel,
    pub ignore: Vec<CompatIssueKind>,
}

/// A binary operator, as far as compatibility is concerned.
pub enum BinaryOperator {
    /// `//`
    DoubleSlash,
    /// `&`
    Ampersand,
    /// `|`
    Pipe,
    /// `~`
    Tilde,
    /// `<<`
    DoubleLessThan,
    /// `>>`
    DoubleGreaterThan,
    /// Any other operator.
    Other,
}

/// The feature a binary operator uses, if any.
pub open spec fn binop_kind(op: BinaryOperator) -> Option<CompatIssueKind> {
    match op {
        BinaryOperator::DoubleSlash => Some(CompatIssueKind::IntegerDivision),
        BinaryOperator::Other => None,
        _ => Some(CompatIssueKind::BitwiseOps),
    }
}

/// The library feature a `prefix.name` access uses, if any.
pub open spec fn spec_stdlib_kind(prefix: Seq<char>, name: Seq<char>) -> Option<CompatIssueKind> {
    if prefix == "table"@ && name == "move"@ {
        Some(CompatIssueKind::TableMove)
    } else if prefix == "string"@ && (name == "pack"@ || name == "unpack"@ || name == "packsize"@) {
        Some(CompatIssueKind::StringPack)
    } else if prefix == "math"@ && name == "tointeger"@ {
        Some(CompatIssueKind::MathTointeger)
    } else if prefix == "math"@ && name == "type"@ {
        Some(CompatIssueKind::MathType)
    } else if prefix == "utf8"@ {
        Some(CompatIssueKind::Utf8Library)
    } else {
        None
    }
}

/// The library a `require` of `module` loads, if it is one with limited support.
pub open spec fn required_library_kind(module: Seq<char>) -> Option<CompatIssueKind> {
    if module == "ffi"@ {
        Some(CompatIssueKind::FfiLibrary)
    } else if module == "bit"@ {
        Some(CompatIssueKind::BitLibrary)
    } else if module == "jit"@ {
        Some(CompatIssueKind::JitLibrary)
    } else if module == "utf8"@ {
        Some(CompatIssueKind::Utf8Library)
    } else {
        None
    }
}

/// The feature a local attribute (`<const>`, `<close>`) uses, if any.
pub open spec fn attribute_kind(name: Seq<char>) -> Option<CompatIssueKind> {
    if name == "const"@ {
        Some(CompatIssueKind::ConstAttribute)
    } else if name == "close"@ {
        Some(CompatIssueKind::ToBeClosedAttribute)
    } else {
        None
    }
}

/// The issues found so far while walking one module, for one target version
/// and the kinds to leave out.
pub struct CompatVisitor {
    pub target_version: String,
    pub ignore: Vec<CompatIssueKind>,
    pub issues: Vec<CompatIssue>,
}

/// The issue list after meeting `kind` at `line` (when it is an issue for the
/// target and not ignored, it is added).
pub open spec fn after_check(v: CompatVisitor, kind: Option<CompatIssueKind>, line: usize) -> Seq<CompatIssue> {
    match kind {
        Some(k) => if spec_is_issue_for(k, v.target_version@) && !v.ignore@.contains(k) {
            v.issues@.push(CompatIssue { line, kind: k })
        } else {
            v.issues@
        },
        None => v.issues@,
    }
}

/// The issues found when the kinds `met` are met in order, each at its line:
/// those that are issues for `target` and not in `ignore`, in order.
pub open spec fn issues_of(
    target: Seq<char>,
    ignore: Seq<CompatIssueKind>,
    met: Seq<(CompatIssueKind, usize)>,
) -> Seq<CompatIssue>
    decreases met.len(),
{
    if met.len() == 0 {
        Seq::empty()
    } else {
        let rest = issues_of(target, ignore, met.drop_last());
        let (k, l) = met.last();
        if spec_is_issue_for(k, target) && !ignore.contains(k) {
            rest.push(CompatIssue { line: l, kind: k })
        } else {
            rest
        }
    }
}

/// Meeting one more kind with [`CompatVisitor::check`] extends the issues
/// found by the kinds met before.
pub proof fn lemma_check_extends(v: CompatVisitor, met: Seq<(CompatIssueKind, usize)>, kind: CompatIssueKind, line: usize)
    requires
        v.issues@ == issues_of(v.target_version@, v.ignore@, met),
    ensures
        after_check(v, Some(kind), line) == issues_of(v.target_version@, v.ignore@, met.push((kind, line))),
{
    assert(met.push((kind, line)).drop_last() =~= met);
}

/// Every issue found is an issue for the target version and not ignored, and
/// ignoring kinds only drops the issues of those kinds, keeping the order of
/// the others.
pub proof fn lemma_issues_respect_ignore(
    target: Seq<char>,
    ignore: Seq<CompatIssueKind>,
    met: Seq<(CompatIssueKind, usize)>,
)
    ensures
        forall|i: int|
            0 <= i < issues_of(target, ignore, met).len() ==> spec_is_issue_for(
                (#[trigger] issues_of(target, ignore, met)[i]).kind,
                target,
            ) && !ignore.contains(issues_of(target, ignore, met)[i].kind),
        issues_of(target, ignore, met) == issues_of(target, Seq::empty(), met).filter(
            |c: CompatIssue| !ignore.contains(c.kind),
        ),
    decreases met.len(),
{
    if met.len() > 0 {
        lemma_issues_respect_ignore(target, ignore, met.drop_last());
        let rest = issues_of(target, ignore, met.drop_last());
        let all = issues_of(target, Seq::empty(), met.drop_last());
        let (k, l) = met.last();
        let pred = |c: CompatIssue| !ignore.contains(c.kind);
        if spec_is_issue_for(k, target) {
            let c = CompatIssue { line: l, kind: k };
            reveal(Seq::filter);
            assert(!Seq::<CompatIssueKind>::empty().contains(k));
            assert(all.push(c).drop_last() =~= all);
            assert(all.push(c).filter(pred) == if pred(c) {
                all.filter(pred).push(c)
            } else {
                all.filter(pred)
            });
        }
        let r = issues_of(target, ignore, met);
        assert forall|i: int| 0 <= i < r.len() implies spec_is_issue_for((#[trigger] r[i]).kind, target) && !ignore.contains(
            r[i].kind,
        ) by {
            if i < rest.len() {
                assert(r[i] == rest[i]);
            }
        }
    }
}

impl CompatVisitor {
    pub fn new(target_version: String, ignore: Vec<CompatIssueKind>) -> (r: Self)
        ensures
            r.target_version == target_version,
            r.ignore == ignore,
            r.issues@.len() == 0,
    {
        CompatVisitor { target_version, ignore, issues: Vec::new() }
    }

    /// Records a use of `kind` at `line`, if it is an issue for the target
    /// version and not ignored.
    pub fn check(&mut self, kind: CompatIssueKind, line: usize)
        ensures
            final(self).target_version == old(self).target_version,
            final(self).ignore == old(self).ignore,
            final(self).issues@ == after_check(*old(self), Some(kind), line),
    {
        if kind.is_issue_for(self.target_version.as_str()) {
            let mut k: usize = 0;
            while k < self.ignore.len()
                invariant
                    k <= self.ignore@.len(),
                    forall|j: int| 0 <= j < k ==> self.ignore@[j] != kind,
                decreases self.ignore@.len() - k,
            {
                if self.ignore[k] == kind {
                    assert(self.ignore@.contains(kind));
                    return;
                }
                k = k + 1;
            }
            self.issues.push(CompatIssue { line, kind });
        }
    }

    /// The library feature a `prefix.name` access uses, if any.
    pub fn stdlib_kind(&self, prefix: &str, name: &str) -> (r: Option<CompatIssueKind>)
        ensures
            r == spec_stdlib_kind(prefix@, name@),
    {
        let p = str_chars(prefix);
        let n = str_chars(name);
        if chars_eq_str(&p, "table") && chars_eq_str(&n, "move") {
            Some(CompatIssueKind::TableMove)
        } else if chars_eq_str(&p, "string") && (chars_eq_str(&n, "pack") || chars_eq_str(
            &n,
            "unpack",
        ) || chars_eq_str(&n, "packsize")) {
            Some(CompatIssueKind::StringPack)
        } else if chars_eq_str(&p, "math") && chars_eq_str(&n, "tointeger") {
            Some(CompatIssueKind::MathTointeger)
        } else if chars_eq_str(&p, "math") && chars_eq_str(&n, "type") {
            Some(CompatIssueKind::MathType)
        } else if chars_eq_str(&p, "utf8") {
            Some(CompatIssueKind::Utf8Library)
        } else {
            None
        }
    }

    /// A call whose prefix is the name `prefix`: `require` of a library with
    /// limited support is checked at the prefix's line; otherwise a call of
    /// `prefix.name(...)` (`method`: the name and its line) is checked as a
    /// library access.
    pub fn visit_call(
        &mut self,
        prefix: &str,
        prefix_line: usize,
        argument: &CallArgument,
        method: Option<(&str, usize)>,
    )
        ensures
            final(self).target_version == old(self).target_version,
            final(self).ignore == old(self).ignore,
            final(self).issues@ == if prefix@ == "require"@ {
                match *argument {
                    CallArgument::Literal(raw) => after_check(
                        *old(self),
                        required_library_kind(spec_trim_quotes(raw@)),
                        prefix_line,
                    ),
                    _ => old(self).issues@,
                }
            } else {
                match method {
                    Some((name, line)) => after_check(*old(self), spec_stdlib_kind(prefix@, name@), line),
                    None => old(self).issues@,
                }
            },
    {
        let p = str_chars(prefix);
        if chars_eq_str(&p, "require") {
            match argument {
                CallArgument::Literal(raw) => {
                    let module = trim_quotes(raw.as_str());
                    let m = str_chars(module.as_str());
                    if chars_eq_str(&m, "ffi") {
                        self.check(CompatIssueKind::FfiLibrary, prefix_line);
                    } else if chars_eq_str(&m, "bit") {
                        self.check(CompatIssueKind::BitLibrary, prefix_line);
                    } else if chars_eq_str(&m, "jit") {
                        self.check(CompatIssueKind::JitLibrary, prefix_line);
                    } else if chars_eq_str(&m, "utf8") {
                        self.check(CompatIssueKind::Utf8Library, prefix_line);
                    }
                },
                _ => {},
            }
        } else {
            match method {
                Some((name, line)) => {
                    match self.stdlib_kind(prefix, name) {
                        Some(kind) => self.check(kind, line),
                        None => {},
                    }
                },
                None => {},
            }
        }
    }

    /// A binary operation whose left operand starts at `line`.
    pub fn visit_binary_operator(&mut self, op: BinaryOperator, line: usize)
        ensures
            final(self).target_version == old(self).target_version,
            final(self).ignore == old(self).ignore,
            final(self).issues@ == after_check(*old(self), binop_kind(op), line),
    {
        match op {
            BinaryOperator::DoubleSlash => self.check(CompatIssueKind::IntegerDivision, line),
            BinaryOperator::Other => {},
            _ => self.check(CompatIssueKind::BitwiseOps, line),
        }
    }

    /// A unary `~` at `line`.
    pub fn visit_bitwise_not(&mut self, line: usize)
        ensures
            final(self).target_version == old(self).target_version,
            final(self).ignore == old(self).ignore,
            final(self).issues@ == after_check(*old(self), Some(CompatIssueKind::BitwiseNot), line),
    {
        self.check(CompatIssueKind::BitwiseNot, line);
    }

    /// A variable `prefix.name...` whose first index is `.name` at `line`.
    pub fn visit_indexed_name(&mut self, prefix: &str, name: &str, line: usize)
        ensures
            final(self).target_version == old(self).target_version,
            final(self).ignore == old(self).ignore,
            final(self).issues@ == after_check(*old(self), spec_stdlib_kind(prefix@, name@), line),
    {
        match self.stdlib_kind(prefix, name) {
            Some(kind) => self.check(kind, line),
            None => {},
        }
    }

    /// A `goto` statement at `line`.
    pub fn visit_goto(&mut self, line: usize)
        ensures
            final(self).target_version == old(self).target_version,
            final(self).ignore == old(self).ignore,
            final(self).issues@ == after_check(*old(self), Some(CompatIssueKind::GotoUsed), line),
    {
        self.check(CompatIssueKind::GotoUsed, line);
    }

    /// A local attribute `<name>` at `line`.
    pub fn visit_attribute(&mut self, name: &str, line: usize)
        ensures
            final(self).target_version == old(self).target_version,
            final(self).ignore == old(self).ignore,
            final(self).issues@ == after_check(*old(self), attribute_kind(name@), line),
    {
        let n = str_chars(name);
        if chars_eq_str(&n, "const") {
            self.check(CompatIssueKind::ConstAttribute, line);
        } else if chars_eq_str(&n, "close") {
            self.check(CompatIssueKind::ToBeClosedAttribute, line);
        }
    }
}

/// Which target versions have each feature: for Lua 5.1 to 5.5, written
/// `5.m` or `5m`, a feature is an issue exactly when the version comes
/// before the one that introduced it (always, for a LuaJIT-only library);
/// for LuaJIT, written `jit` or `luajit`, exactly when LuaJIT lacks it.
pub proof fn lemma_version_table(kind: CompatIssueKind, minor: int)
    requires
        1 <= minor <= 5,
    ensures
        issue_for_lowered(kind, seq!['5', ('0' as int + minor) as char]) == !(introduced_in(kind) matches Some(m)
            && m <= minor),
        issue_for_lowered(kind, seq!['5', '.', ('0' as int + minor) as char]) == !(introduced_in(kind) matches Some(
            m,
        ) && m <= minor),
        issue_for_lowered(kind, seq!['j', 'i', 't']) == !in_luajit(kind),
        issue_for_lowered(kind, seq!['l', 'u', 'a', 'j', 'i', 't']) == !in_luajit(kind),
{
    reveal_strlit("51");
    reveal_strlit("52");
    reveal_strlit("53");
    reveal_strlit("54");
    reveal_strlit("55");
    reveal_strlit("5.1");
    reveal_strlit("5.2");
    reveal_strlit("5.3");
    reveal_strlit("5.4");
    reveal_strlit("5.5");
    reveal_strlit("jit");
    reveal_strlit("luajit");
    let d = ('0' as int + minor) as char;
    let short = seq!['5', d];
    let dotted = seq!['5', '.', d];
    let canon: Seq<char> = if minor == 1 {
        "51"@
    } else if minor == 2 {
        "52"@
    } else if minor == 3 {
        "53"@
    } else if minor == 4 {
        "54"@
    } else {
        "55"@
    };
    if minor == 1 {
        assert(dotted =~= "5.1"@);
        assert(short =~= "51"@);
    } else if minor == 2 {
        assert(dotted =~= "5.2"@);
        assert(short =~= "52"@);
    } else if minor == 3 {
        assert(dotted =~= "5.3"@);
        assert(short =~= "53"@);
    } else if minor == 4 {
        assert(dotted =~= "5.4"@);
        assert(short =~= "54"@);
    } else {
        assert(dotted =~= "5.5"@);
        assert(short =~= "55"@);
    }
    assert(seq!['l', 'u', 'a', 'j', 'i', 't'] =~= "luajit"@);
    assert(seq!['j', 'i', 't'] =~= "jit"@);
    assert(normalize_target(short) == canon);
    assert(normalize_target(dotted) == canon);
    assert(normalize_target(seq!['j', 'i', 't']) == "jit"@);
    assert(normalize_target(seq!['l', 'u', 'a', 'j', 'i', 't']) == "jit"@);
    let sup = spec_supported_in(kind);
    assert(sup.contains(canon) == (introduced_in(kind) matches Some(m) && m <= minor)) by {
        if sup.contains(canon) {
            let k = choose|k: int| 0 <= k < sup.len() && sup[k] == canon;
        }
        if introduced_in(kind) matches Some(m) && m <= minor {
            if minor == 2 {
                assert(sup[0] == canon);
            } else if minor == 3 {
                if kind is GotoUsed {
                    assert(sup[1] == canon);
                } else {
                    assert(sup[0] == canon);
                }
            } else if minor == 4 {
                if kind is GotoUsed {
                    assert(sup[2] == canon);
                } else if kind is ConstAttribute || kind is ToBeClosedAttribute {
                    assert(sup[0] == canon);
                } else {
                    assert(sup[1] == canon);
                }
            } else if minor == 5 {
                if kind is GotoUsed {
                    assert(sup[3] == canon);
                } else if kind is ConstAttribute || kind is ToBeClosedAttribute {
                    assert(sup[1] == canon);
                } else {
                    assert(sup[2] == canon);
                }
            }
        }
    }
    assert(sup.contains("jit"@) == in_luajit(kind)) by {
        if sup.contains("jit"@) {
            let k = choose|k: int| 0 <= k < sup.len() && sup[k] == "jit"@;
        }
        if kind is GotoUsed {
            assert(sup[4] == "jit"@);
        } else if in_luajit(kind) {
            assert(sup[0] == "jit"@);
        }
    }
}

} // verus!

//! Version constraints: one comparison against one version, or none at all.

use vstd::prelude::*;
use vstd::string::StringExecFns;
use crate::version::Version;

verus! {

/// The comparison that a constraint makes.
#[derive(Clone, Copy, Debug, PartialEq, Eq, Structural)]
pub enum CompareOp {
    /// `>`
    Greater,
    /// `>=`
    GreaterEq,
    /// `<`
    Less,
    /// `<=`
    LessEq,
    /// `=`
    Exact,
}

/// A predicate over versions: anything goes, or one comparison with a
/// fixed version.
#[derive(Clone, Copy, Debug, PartialEq, Eq, Structural)]
pub enum VersionConstraint {
    /// Every version satisfies the constraint.
    Any,
    /// The version must compare as `op` says with `version`.
    Bound { op: CompareOp, version: Version },
}

impl CompareOp {
    /// Whether `v` stands in this relation to `bound`: for `Greater`,
    /// whether `v > bound`, and so on.
    pub open spec fn admits(self, v: Version, bound: Version) -> bool {
        match self {
            CompareOp::Greater => bound.spec_lt(v),
            CompareOp::GreaterEq => bound.spec_le(v),
            CompareOp::Less => v.spec_lt(bound),
            CompareOp::LessEq => v.spec_le(bound),
            CompareOp::Exact => v == bound,
        }
    }

    /// The operator as it is written.
    pub open spec fn spec_symbol(self) -> Seq<char> {
        match self {
            CompareOp::Greater => seq!['>'],
            CompareOp::GreaterEq => seq!['>', '='],
            CompareOp::Less => seq!['<'],
            CompareOp::LessEq => seq!['<', '='],
            CompareOp::Exact => seq!['='],
        }
    }

    /// The operator as it is written.
    pub fn symbol(&self) -> (r: &'static str)
        ensures
            r@ == self.spec_symbol(),
    {
        proof {
            reveal_strlit(">");
            reveal_strlit(">=");
            reveal_strlit("<");
            reveal_strlit("<=");
            reveal_strlit("=");
        }
        let r = match self {
            CompareOp::Greater => ">",
            CompareOp::GreaterEq => ">=",
            CompareOp::Less => "<",
            CompareOp::LessEq => "<=",
            CompareOp::Exact => "=",
        };
        assert(r@ =~= self.spec_symbol());
        r
    }
}

/// Asks `semver::Comparator::matches` whether the version `v` satisfies the
/// comparator made of `op` and the full version `bound`. Neither side has a
/// pre-release tag, and for such a pair the comparator compares major, then
/// minor, then patch, as `op` says.
#[verifier::external_body]
fn comparator_matches(op: CompareOp, bound: Version, v: Version) -> (r: bool)
    ensures
        r == op.admits(v, bound),
{
    let op = match op {
        CompareOp::Greater => semver::Op::Greater,
        CompareOp::GreaterEq => semver::Op::GreaterEq,
        CompareOp::Less => semver::Op::Less,
        CompareOp::LessEq => semver::Op::LessEq,
        CompareOp::Exact => semver::Op::Exact,
    };
    let (major, minor, patch) = (bound.major, Some(bound.minor), Some(bound.patch));
    let cmp = semver::Comparator { op, major, minor, patch, pre: semver::Prerelease::EMPTY };
    cmp.matches(&semver::Version::new(v.major, v.minor, v.patch))
}

impl VersionConstraint {
    /// Whether `v` satisfies the constraint.
    pub open spec fn spec_matches(self, v: Version) -> bool {
        match self {
            VersionConstraint::Any => true,
            VersionConstraint::Bound { op, version } => op.admits(v, version),
        }
    }

    /// Whether `v` satisfies the constraint.
    pub fn matches(&self, v: &Version) -> (r: bool)
        ensures
            r == self.spec_matches(*v),
    {
        match *self {
            VersionConstraint::Any => true,
            VersionConstraint::Bound { op, version } => comparator_matches(op, version, *v),
        }
    }

    /// The constraint as it is written: `*` for no constraint, else the
    /// operator followed by the version.
    pub open spec fn spec_text(self) -> Seq<char> {
        match self {
            VersionConstraint::Any => seq!['*'],
            VersionConstraint::Bound { op, version } => op.spec_symbol() + version.spec_text(),
        }
    }

    /// Writes the constraint as text.
    pub fn to_text(&self) -> (r: String)
        ensures
            r@ == self.spec_text(),
    {
        match self {
            VersionConstraint::Any => {
                proof {
                    reveal_strlit("*");
                }
                let r = String::from_str("*");
                assert(r@ =~= self.spec_text());
                r
            },
            VersionConstraint::Bound { op, version } => {
                let mut out = String::from_str(op.symbol());
                let v = version.to_text();
                out.append(v.as_str());
                out
            },
        }
    }
}

/// An exact constraint is satisfied by its own version and by no other.
pub proof fn lemma_exact_matches_only_itself(bound: Version, v: Version)
    ensures
        (VersionConstraint::Bound { op: CompareOp::Exact, version: bound }).spec_matches(v) <==> v
            == bound,
{
}

/// Of `<` and `>=` against one version exactly one holds, and likewise of
/// `>` and `<=`.
pub proof fn lemma_complementary_ops(bound: Version, v: Version)
    ensures
        CompareOp::Less.admits(v, bound) <==> !CompareOp::GreaterEq.admits(v, bound),
        CompareOp::Greater.admits(v, bound) <==> !CompareOp::LessEq.admits(v, bound),
{
}

} // verus!

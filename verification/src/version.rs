//! Release numbers: how they are read, written and ordered.

use vstd::prelude::*;
use vstd::string::StringExecFns;
use crate::text::{
    all_digits, append_decimal, decimal_text, decimal_value, lemma_decimal_round_trip,
    parse_decimal, to_chars,
};

verus! {

/// A release number: major, minor and patch, ordered in that order.
#[derive(Clone, Copy, Debug, PartialEq, Eq, Structural, Hash)]
pub struct Version {
    pub major: u64,
    pub minor: u64,
    pub patch: u64,
}

/// Why a text could not be read as a [`Version`].
#[derive(Clone, Copy, Debug, PartialEq, Eq, Structural)]
pub enum ParseError {
    /// The text has more than three dot-separated parts.
    TooManyComponents,
    /// A numeric part does not fit in 64 bits.
    ComponentTooLarge,
}

/// The end of the dot-separated part of `s` that starts at `from`: the
/// position of the next `.`, or the length of `s` where there is none.
pub open spec fn field_end(s: Seq<char>, from: int) -> int
    decreases s.len() - from,
{
    if from >= s.len() || s[from] == '.' {
        from
    } else {
        field_end(s, from + 1)
    }
}

/// Whether `t` is a numeral: one or more ASCII digits.
pub open spec fn is_numeral(t: Seq<char>) -> bool {
    t.len() > 0 && all_digits(t)
}

/// The number that one part of a version text stands for. A part that is
/// missing or is not a numeral counts as zero.
pub open spec fn component_value(t: Seq<char>) -> nat {
    if is_numeral(t) {
        decimal_value(t)
    } else {
        0
    }
}

/// The three parts of a version text, and whether anything follows them.
/// A part that the text does not have is empty.
pub struct VersionFields {
    pub major: Seq<char>,
    pub minor: Seq<char>,
    pub patch: Seq<char>,
    pub complete: bool,
}

/// Splits `s` at its first three dots.
pub open spec fn version_fields(s: Seq<char>) -> VersionFields {
    let e0 = field_end(s, 0);
    let e1 = field_end(s, e0 + 1);
    let e2 = field_end(s, e1 + 1);
    if e0 >= s.len() {
        VersionFields { major: s, minor: seq![], patch: seq![], complete: true }
    } else if e1 >= s.len() {
        VersionFields {
            major: s.subrange(0, e0),
            minor: s.subrange(e0 + 1, s.len() as int),
            patch: seq![],
            complete: true,
        }
    } else {
        VersionFields {
            major: s.subrange(0, e0),
            minor: s.subrange(e0 + 1, e1),
            patch: s.subrange(e1 + 1, e2),
            complete: e2 >= s.len(),
        }
    }
}

/// What reading `s` as a version gives.
pub open spec fn parse_version(s: Seq<char>) -> Result<Version, ParseError> {
    let f = version_fields(s);
    let major = component_value(f.major);
    let minor = component_value(f.minor);
    let patch = component_value(f.patch);
    if !f.complete {
        Err(ParseError::TooManyComponents)
    } else if major > u64::MAX || minor > u64::MAX || patch > u64::MAX {
        Err(ParseError::ComponentTooLarge)
    } else {
        Ok(Version { major: major as u64, minor: minor as u64, patch: patch as u64 })
    }
}

/// Where no dot stands between `from` and `to`, and a dot or the end of
/// the text stands at `to`, the part that starts at `from` ends at `to`.
pub proof fn lemma_field_end_at(s: Seq<char>, from: int, to: int)
    requires
        0 <= from <= to <= s.len(),
        forall|i: int| from <= i < to ==> s[i] != '.',
        to < s.len() ==> s[to] == '.',
    ensures
        field_end(s, from) == to,
    decreases to - from,
{
    if from < to {
        lemma_field_end_at(s, from + 1, to);
    }
}

/// A version that is written out and read again is the same version.
pub proof fn lemma_version_round_trip(v: Version)
    ensures
        parse_version(v.spec_text()) == Ok::<Version, ParseError>(v),
{
    let a = decimal_text(v.major as nat);
    let b = decimal_text(v.minor as nat);
    let c = decimal_text(v.patch as nat);
    lemma_decimal_round_trip(v.major as nat);
    lemma_decimal_round_trip(v.minor as nat);
    lemma_decimal_round_trip(v.patch as nat);
    let s = v.spec_text();
    let e0 = a.len() as int;
    let e1 = e0 + 1 + b.len();
    let e2 = e1 + 1 + c.len();
    assert(s.len() == e2);
    assert(forall|i: int| 0 <= i < e0 ==> s[i] == a[i]);
    assert(s[e0] == '.');
    assert(forall|i: int| e0 + 1 <= i < e1 ==> s[i] == b[i - e0 - 1]);
    assert(s[e1] == '.');
    assert(forall|i: int| e1 + 1 <= i < e2 ==> s[i] == c[i - e1 - 1]);
    lemma_field_end_at(s, 0, e0);
    lemma_field_end_at(s, e0 + 1, e1);
    lemma_field_end_at(s, e1 + 1, e2);
    assert(s.subrange(0, e0) =~= a);
    assert(s.subrange(e0 + 1, e1) =~= b);
    assert(s.subrange(e1 + 1, e2) =~= c);
}

/// Finds the end of the part of `chars` that starts at `from`.
fn scan_field(chars: &Vec<char>, from: usize) -> (end: usize)
    requires
        from <= chars.len(),
    ensures
        end == field_end(chars@, from as int),
        from <= end <= chars.len(),
{
    let mut i: usize = from;
    while i < chars.len() && chars[i] != '.'
        invariant
            from <= i <= chars.len(),
            field_end(chars@, from as int) == field_end(chars@, i as int),
        decreases chars.len() - i,
    {
        i = i + 1;
    }
    i
}

/// Whether the characters of `chars` between `from` and `to` form a numeral.
fn range_is_numeral(chars: &Vec<char>, from: usize, to: usize) -> (r: bool)
    requires
        from <= to <= chars.len(),
    ensures
        r == is_numeral(chars@.subrange(from as int, to as int)),
{
    let ghost t = chars@.subrange(from as int, to as int);
    if from == to {
        return false;
    }
    let mut i: usize = from;
    while i < to
        invariant
            from <= i <= to <= chars.len(),
            t == chars@.subrange(from as int, to as int),
            forall|j: int| 0 <= j < i - from ==> crate::text::is_digit(#[trigger] t[j]),
        decreases to - i,
    {
        if !crate::text::char_is_digit(chars[i]) {
            assert(!crate::text::is_digit(t[i - from]));
            return false;
        }
        i = i + 1;
    }
    true
}

/// Reads one part of a version text.
fn read_component(chars: &Vec<char>, from: usize, to: usize) -> (r: Option<u64>)
    requires
        from <= to <= chars.len(),
    ensures
        r is Some <==> component_value(chars@.subrange(from as int, to as int)) <= u64::MAX,
        r matches Some(v) ==> v == component_value(chars@.subrange(from as int, to as int)),
{
    if range_is_numeral(chars, from, to) {
        parse_decimal(chars, from, to)
    } else {
        Some(0)
    }
}

impl Version {
    /// The version `major.minor.patch`.
    pub fn new(major: u64, minor: u64, patch: u64) -> (v: Version)
        ensures
            v == (Version { major, minor, patch }),
    {
        Version { major, minor, patch }
    }

    /// Reads a version from text of the form `major.minor.patch`. Parts
    /// that are missing or not numerals count as zero; a fourth part or a
    /// numeral beyond 64 bits is an error.
    pub fn parse(s: &str) -> (r: Result<Version, ParseError>)
        ensures
            r == parse_version(s@),
    {
        let chars = to_chars(s);
        let n = chars.len();
        let e0 = scan_field(&chars, 0);
        let mut minor_from: usize = n;
        let mut minor_to: usize = n;
        let mut patch_from: usize = n;
        let mut patch_to: usize = n;
        let mut complete = true;
        if e0 < n {
            minor_from = e0 + 1;
            minor_to = scan_field(&chars, minor_from);
            if minor_to < n {
                patch_from = minor_to + 1;
                patch_to = scan_field(&chars, patch_from);
                complete = patch_to >= n;
            }
        }
        proof {
            let f = version_fields(chars@);
            assert(f.major =~= chars@.subrange(0, e0 as int));
            assert(f.minor =~= chars@.subrange(minor_from as int, minor_to as int));
            assert(f.patch =~= chars@.subrange(patch_from as int, patch_to as int));
            assert(f.complete == complete);
        }
        if !complete {
            return Err(ParseError::TooManyComponents);
        }
        let major = read_component(&chars, 0, e0);
        let minor = read_component(&chars, minor_from, minor_to);
        let patch = read_component(&chars, patch_from, patch_to);
        match (major, minor, patch) {
            (Some(major), Some(minor), Some(patch)) => Ok(Version { major, minor, patch }),
            _ => Err(ParseError::ComponentTooLarge),
        }
    }

    /// The text `major.minor.patch` of this version.
    pub open spec fn spec_text(self) -> Seq<char> {
        decimal_text(self.major as nat) + seq!['.'] + decimal_text(self.minor as nat) + seq!['.']
            + decimal_text(self.patch as nat)
    }

    /// Writes the version as `major.minor.patch`.
    pub fn to_text(&self) -> (r: String)
        ensures
            r@ == self.spec_text(),
    {
        proof {
            reveal_strlit(".");
        }
        let mut out = String::new();
        append_decimal(&mut out, self.major);
        out.append(".");
        append_decimal(&mut out, self.minor);
        out.append(".");
        append_decimal(&mut out, self.patch);
        assert(out@ =~= self.spec_text());
        out
    }

    /// Whether `self` comes strictly before `other`.
    pub open spec fn spec_lt(self, other: Version) -> bool {
        self.major < other.major || (self.major == other.major && (self.minor < other.minor || (
        self.minor == other.minor && self.patch < other.patch)))
    }

    /// Whether `self` comes before `other` or equals it.
    pub open spec fn spec_le(self, other: Version) -> bool {
        self == other || self.spec_lt(other)
    }

    /// Whether `self` comes strictly before `other`.
    pub fn lt(&self, other: &Version) -> (r: bool)
        ensures
            r == self.spec_lt(*other),
    {
        self.major < other.major || (self.major == other.major && (self.minor < other.minor || (
        self.minor == other.minor && self.patch < other.patch)))
    }

    /// Whether `self` comes before `other` or equals it.
    pub fn le(&self, other: &Version) -> (r: bool)
        ensures
            r == self.spec_le(*other),
    {
        !other.lt(self)
    }
}

/// The order on versions is total: of two versions exactly one comes
/// strictly first, unless they are equal.
pub proof fn lemma_version_order_total(a: Version, b: Version)
    ensures
        a.spec_lt(b) || b.spec_lt(a) || a == b,
        !(a.spec_lt(b) && b.spec_lt(a)),
        !a.spec_lt(a),
{
}

/// The order on versions is transitive.
pub proof fn lemma_version_order_transitive(a: Version, b: Version, c: Version)
    requires
        a.spec_lt(b),
        b.spec_lt(c),
    ensures
        a.spec_lt(c),
{
}

} // verus!

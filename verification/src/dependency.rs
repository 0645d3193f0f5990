//! The textual grammar in which a release declares what it depends on.
//!
//! A declaration is an optional prefix (`!`, `?`, `(?)` or `~`), a mod
//! name, and optionally an operator with a version, with white space
//! allowed between the parts:
//!
//! ```text
//! base
//! ? quality
//! (?) hidden-lib
//! ! incompatible-mod
//! ~ some-mod >= 1.0.0
//! ```

use vstd::prelude::*;
use vstd::string::{StrSliceExecFns, StringExecFns};
use crate::constraint::{CompareOp, VersionConstraint};
use crate::text::{all_digits, decimal_text, decimal_value, is_digit, parse_decimal, to_chars};
use crate::version::Version;

verus! {

/// What a dependency means for the mod that declares it.
#[derive(Clone, Copy, Debug, PartialEq, Eq, Structural)]
pub enum DependencyType {
    /// The other mod must be present (prefix `~` or none).
    Required,
    /// The other mod may be present (prefix `?` or `(?)`).
    Optional,
    /// The other mod must be absent (prefix `!`).
    Incompatible,
}

/// One declared dependency of a release.
#[derive(Debug)]
pub struct Dependency {
    pub name: String,
    pub version_req: VersionConstraint,
    pub dep_type: DependencyType,
}

/// A dependency as contracts speak of it.
pub struct DependencyView {
    pub name: Seq<char>,
    pub version_req: VersionConstraint,
    pub dep_type: DependencyType,
}

impl View for Dependency {
    type V = DependencyView;

    open spec fn view(&self) -> DependencyView {
        DependencyView {
            name: self.name@,
            version_req: self.version_req,
            dep_type: self.dep_type,
        }
    }
}

impl Clone for Dependency {
    fn clone(&self) -> (r: Dependency)
        ensures
            r@ == self@,
    {
        Dependency {
            name: self.name.clone(),
            version_req: self.version_req,
            dep_type: self.dep_type,
        }
    }
}

/// The error for a declaration that does not fit the grammar. It carries
/// the text that was refused.
#[derive(Clone, Debug)]
pub struct MalformedDependency {
    pub text: String,
}

/// The kinds of character that the grammar tells apart.
#[derive(Clone, Copy, Debug, PartialEq, Eq, Structural)]
pub enum CharClass {
    /// White space.
    Space,
    /// What a name is made of, and the blank that may stand inside one.
    NameOrBlank,
    /// What an operator is made of: `<`, `>`, `=`, `!`.
    Operator,
    /// ASCII decimal digits.
    Digit,
}

/// Whether `c` is white space: a blank, one of the ASCII controls from
/// tab to carriage return, or one of the Unicode spaces and separators.
pub open spec fn is_space(c: char) -> bool {
    c == ' ' || ('\t' <= c && c <= '\r') || c == '\u{85}' || c == '\u{A0}' || c == '\u{1680}' || (
    '\u{2000}' <= c && c <= '\u{200A}') || c == '\u{2028}' || c == '\u{2029}' || c == '\u{202F}'
        || c == '\u{205F}' || c == '\u{3000}'
}

/// Whether `c` may stand in a mod name: an ASCII letter or digit, `_` or `-`.
pub open spec fn is_name_char(c: char) -> bool {
    ('a' <= c && c <= 'z') || ('A' <= c && c <= 'Z') || ('0' <= c && c <= '9') || c == '_' || c
        == '-'
}

/// Whether `c` belongs to the class `k`.
pub open spec fn in_class(k: CharClass, c: char) -> bool {
    match k {
        CharClass::Space => is_space(c),
        CharClass::NameOrBlank => is_name_char(c) || c == ' ',
        CharClass::Operator => c == '<' || c == '>' || c == '=' || c == '!',
        CharClass::Digit => is_digit(c),
    }
}

/// The end of the longest run of characters of class `k` in `s` that
/// starts at `from`.
pub open spec fn run_end(s: Seq<char>, from: int, k: CharClass) -> int
    decreases s.len() - from,
{
    if 0 <= from < s.len() && in_class(k, s[from]) {
        run_end(s, from + 1, k)
    } else {
        from
    }
}

/// The end of `s[from..to]` once the blanks at its end are taken off.
pub open spec fn trim_blanks(s: Seq<char>, from: int, to: int) -> int
    decreases to - from,
{
    if from < to && s[to - 1] == ' ' {
        trim_blanks(s, from, to - 1)
    } else {
        to
    }
}

/// The prefix that stands at `at`, as the kind it gives and the position
/// behind it. Where no prefix stands the dependency is required.
pub open spec fn prefix_at(s: Seq<char>, at: int) -> (DependencyType, int) {
    if at + 3 <= s.len() && s[at] == '(' && s[at + 1] == '?' && s[at + 2] == ')' {
        (DependencyType::Optional, at + 3)
    } else if at < s.len() && s[at] == '?' {
        (DependencyType::Optional, at + 1)
    } else if at < s.len() && s[at] == '!' {
        (DependencyType::Incompatible, at + 1)
    } else if at < s.len() && s[at] == '~' {
        (DependencyType::Required, at + 1)
    } else {
        (DependencyType::Required, at)
    }
}

/// The first half of a declaration: its kind and where its name stands.
pub struct Head {
    pub dep_type: DependencyType,
    pub name_from: int,
    pub name_to: int,
}

/// Reads the prefix and the name of the declaration `s`. `None` where no
/// name stands behind the prefix.
pub open spec fn head_of(s: Seq<char>) -> Option<Head> {
    let (dep_type, after_prefix) = prefix_at(s, run_end(s, 0, CharClass::Space));
    let name_from = run_end(s, after_prefix, CharClass::Space);
    let name_to = trim_blanks(s, name_from, run_end(s, name_from, CharClass::NameOrBlank));
    if name_to > name_from {
        Some(Head { dep_type, name_from, name_to })
    } else {
        None
    }
}

/// The operator that the characters `t` spell.
pub open spec fn op_of(t: Seq<char>) -> Option<CompareOp> {
    if t == seq!['>'] {
        Some(CompareOp::Greater)
    } else if t == seq!['>', '='] {
        Some(CompareOp::GreaterEq)
    } else if t == seq!['<'] {
        Some(CompareOp::Less)
    } else if t == seq!['<', '='] {
        Some(CompareOp::LessEq)
    } else if t == seq!['='] {
        Some(CompareOp::Exact)
    } else {
        None
    }
}

/// Whether `t` is a numeral of a version literal: digits, no zero in
/// front of another digit, and a value that fits in 64 bits.
pub open spec fn is_strict_numeral(t: Seq<char>) -> bool {
    &&& t.len() > 0
    &&& all_digits(t)
    &&& (t.len() == 1 || t[0] != '0')
    &&& decimal_value(t) <= u64::MAX
}

/// The version literal `major.minor.patch` that starts at `at`, with the
/// position behind it.
pub open spec fn version_literal_at(s: Seq<char>, at: int) -> Option<(Version, int)> {
    let a = run_end(s, at, CharClass::Digit);
    let b = run_end(s, a + 1, CharClass::Digit);
    let c = run_end(s, b + 1, CharClass::Digit);
    if 0 <= at && a < s.len() && s[a] == '.' && b < s.len() && s[b] == '.' && is_strict_numeral(
        s.subrange(at, a),
    ) && is_strict_numeral(s.subrange(a + 1, b)) && is_strict_numeral(s.subrange(b + 1, c)) {
        Some(
            (
                Version {
                    major: decimal_value(s.subrange(at, a)) as u64,
                    minor: decimal_value(s.subrange(a + 1, b)) as u64,
                    patch: decimal_value(s.subrange(b + 1, c)) as u64,
                },
                c,
            ),
        )
    } else {
        None
    }
}

/// What stands behind the name, from `at` on: nothing but white space
/// (no constraint), or an operator and a version literal. `None` where it
/// is neither.
pub open spec fn constraint_at(s: Seq<char>, at: int) -> Option<VersionConstraint> {
    let op_from = run_end(s, at, CharClass::Space);
    let op_to = run_end(s, op_from, CharClass::Operator);
    let literal_from = run_end(s, op_to, CharClass::Space);
    if op_from >= s.len() {
        Some(VersionConstraint::Any)
    } else {
        match (op_of(s.subrange(op_from, op_to)), version_literal_at(s, literal_from)) {
            (Some(op), Some((version, end))) => if run_end(s, end, CharClass::Space) >= s.len() {
                Some(VersionConstraint::Bound { op, version })
            } else {
                None
            },
            _ => None,
        }
    }
}

/// What the declaration `s` says, or `None` where it does not fit the
/// grammar.
pub open spec fn parse_dependency(s: Seq<char>) -> Option<DependencyView> {
    match head_of(s) {
        None => None,
        Some(head) => match constraint_at(s, head.name_to) {
            None => None,
            Some(version_req) => Some(
                DependencyView {
                    name: s.subrange(head.name_from, head.name_to),
                    version_req,
                    dep_type: head.dep_type,
                },
            ),
        },
    }
}

/// A run ends inside the text, holds only characters of its class, and
/// stops at the first character that is not of the class.
pub proof fn lemma_run_end(s: Seq<char>, from: int, k: CharClass)
    requires
        0 <= from <= s.len(),
    ensures
        from <= run_end(s, from, k) <= s.len(),
        forall|i: int| from <= i < run_end(s, from, k) ==> in_class(k, #[trigger] s[i]),
        run_end(s, from, k) < s.len() ==> !in_class(k, s[run_end(s, from, k)]),
    decreases s.len() - from,
{
    if from < s.len() && in_class(k, s[from]) {
        lemma_run_end(s, from + 1, k);
    }
}

/// Trimming keeps the start, and what is left does not end in a blank.
pub proof fn lemma_trim_blanks(s: Seq<char>, from: int, to: int)
    requires
        0 <= from <= to <= s.len(),
    ensures
        from <= trim_blanks(s, from, to) <= to,
        trim_blanks(s, from, to) > from ==> s[trim_blanks(s, from, to) - 1] != ' ',
        forall|i: int| trim_blanks(s, from, to) <= i < to ==> #[trigger] s[i] == ' ',
    decreases to - from,
{
    if from < to && s[to - 1] == ' ' {
        lemma_trim_blanks(s, from, to - 1);
    }
}

/// The name of a dependency that was read is a name: it is not empty, it
/// begins and ends with a letter, a digit, `_` or `-`, and holds nothing
/// but those and blanks.
pub proof fn lemma_parsed_name_is_a_name(s: Seq<char>)
    ensures
        parse_dependency(s) matches Some(d) ==> d.name.len() > 0 && is_name_char(d.name[0])
            && is_name_char(d.name[d.name.len() - 1]) && forall|i: int|
            0 <= i < d.name.len() ==> is_name_char(#[trigger] d.name[i]) || d.name[i] == ' ',
{
    if let Some(d) = parse_dependency(s) {
        let head = head_of(s).unwrap();
        let start = run_end(s, 0, CharClass::Space);
        lemma_run_end(s, 0, CharClass::Space);
        let after_prefix = prefix_at(s, start).1;
        lemma_run_end(s, after_prefix, CharClass::Space);
        let from = head.name_from;
        lemma_run_end(s, from, CharClass::NameOrBlank);
        let run = run_end(s, from, CharClass::NameOrBlank);
        lemma_trim_blanks(s, from, run);
        let to = head.name_to;
        assert(d.name == s.subrange(from, to));
        assert(in_class(CharClass::NameOrBlank, s[from]));
        assert(!in_class(CharClass::Space, s[from]));
        assert(d.name[0] == s[from]);
        assert(in_class(CharClass::NameOrBlank, s[to - 1]));
        assert(d.name[d.name.len() - 1] == s[to - 1]);
        assert forall|i: int| 0 <= i < d.name.len() implies is_name_char(#[trigger] d.name[i])
            || d.name[i] == ' ' by {
            assert(in_class(CharClass::NameOrBlank, s[from + i]));
        }
    }
}

/// A dependency that was read is unconstrained exactly when nothing but
/// white space follows its name.
pub proof fn lemma_constraint_kind(s: Seq<char>)
    ensures
        parse_dependency(s) matches Some(d) ==> (d.version_req is Any <==> run_end(
            s,
            head_of(s).unwrap().name_to,
            CharClass::Space,
        ) >= s.len()),
{
}

/// Where the characters from `from` up to `to` are of the class `k`, and
/// the text ends at `to` or goes on with a character of another class,
/// the run that starts at `from` ends at `to`.
pub proof fn lemma_run_end_at(s: Seq<char>, from: int, to: int, k: CharClass)
    requires
        0 <= from <= to <= s.len(),
        forall|i: int| from <= i < to ==> in_class(k, #[trigger] s[i]),
        to < s.len() ==> !in_class(k, s[to]),
    ensures
        run_end(s, from, k) == to,
    decreases to - from,
{
    if from < to {
        assert(in_class(k, s[from]));
        lemma_run_end_at(s, from + 1, to, k);
    }
}

/// Where blanks stand from `end` up to `to`, and no blank stands before
/// `end`, trimming `s[from..to]` leaves `s[from..end]`.
pub proof fn lemma_trim_blanks_at(s: Seq<char>, from: int, end: int, to: int)
    requires
        0 <= from <= end <= to <= s.len(),
        forall|i: int| end <= i < to ==> #[trigger] s[i] == ' ',
        end > from ==> s[end - 1] != ' ',
    ensures
        trim_blanks(s, from, to) == end,
    decreases to - end,
{
    if end < to {
        assert(s[to - 1] == ' ');
        lemma_trim_blanks_at(s, from, end, to - 1);
    }
}

/// Whether `name` can be the name of a mod: it is not empty, it begins
/// and ends with a letter, a digit, `_` or `-`, and holds nothing but
/// those and blanks.
pub open spec fn is_mod_name(name: Seq<char>) -> bool {
    &&& name.len() > 0
    &&& is_name_char(name[0])
    &&& is_name_char(name[name.len() - 1])
    &&& forall|i: int| 0 <= i < name.len() ==> is_name_char(#[trigger] name[i]) || name[i] == ' '
}

/// The prefix that is written for a dependency of the kind `kind`.
pub open spec fn written_prefix(kind: DependencyType) -> Seq<char> {
    match kind {
        DependencyType::Required => seq![],
        DependencyType::Optional => seq!['?', ' '],
        DependencyType::Incompatible => seq!['!', ' '],
    }
}

/// What is written behind the name for the constraint `c`.
pub open spec fn written_constraint(c: VersionConstraint) -> Seq<char> {
    match c {
        VersionConstraint::Any => seq![],
        VersionConstraint::Bound { op, version } => seq![' '] + op.spec_symbol() + seq![' ']
            + version.spec_text(),
    }
}

/// The declaration that is written for the dependency `d`.
pub open spec fn written(d: DependencyView) -> Seq<char> {
    written_prefix(d.dep_type) + d.name + written_constraint(d.version_req)
}

/// The operator that was written is the operator that is read.
pub proof fn lemma_symbol_is_read_back(op: CompareOp)
    ensures
        op_of(op.spec_symbol()) == Some(op),
        op.spec_symbol().len() >= 1,
        forall|i: int|
            0 <= i < op.spec_symbol().len() ==> in_class(
                CharClass::Operator,
                #[trigger] op.spec_symbol()[i],
            ),
{
    assert(seq!['>'] != seq!['>', '=']) by {
        assert(seq!['>'].len() != seq!['>', '='].len());
    }
    assert(seq!['<'] != seq!['<', '=']) by {
        assert(seq!['<'].len() != seq!['<', '='].len());
    }
    assert(seq!['>'][0] != seq!['<'][0]);
    assert(seq!['>'][0] != seq!['='][0]);
    assert(seq!['<'][0] != seq!['='][0]);
    assert(seq!['>', '='][0] != seq!['<', '='][0]);
    assert(seq!['>', '='].len() != seq!['<'].len());
    assert(seq!['<', '='].len() != seq!['>'].len());
    assert(seq!['>', '='].len() != seq!['='].len());
    assert(seq!['<', '='].len() != seq!['='].len());
}

/// A version that was written is read back as a version literal.
pub proof fn lemma_version_literal_is_read_back(s: Seq<char>, at: int, v: Version)
    requires
        0 <= at,
        at + v.spec_text().len() == s.len(),
        s.subrange(at, s.len() as int) == v.spec_text(),
    ensures
        version_literal_at(s, at) == Some((v, s.len() as int)),
{
    let a = decimal_text(v.major as nat);
    let b = decimal_text(v.minor as nat);
    let c = decimal_text(v.patch as nat);
    crate::text::lemma_decimal_round_trip(v.major as nat);
    crate::text::lemma_decimal_round_trip(v.minor as nat);
    crate::text::lemma_decimal_round_trip(v.patch as nat);
    crate::text::lemma_decimal_text_is_strict(v.major as nat);
    crate::text::lemma_decimal_text_is_strict(v.minor as nat);
    crate::text::lemma_decimal_text_is_strict(v.patch as nat);
    let t = v.spec_text();
    let e0 = at + a.len();
    let e1 = e0 + 1 + b.len();
    let e2 = e1 + 1 + c.len();
    assert(t.len() == a.len() + 1 + b.len() + 1 + c.len());
    assert(forall|i: int| at <= i < s.len() ==> s[i] == t[i - at]) by {
        assert forall|i: int| at <= i < s.len() implies s[i] == t[i - at] by {
            assert(s.subrange(at, s.len() as int)[i - at] == s[i]);
        }
    }
    assert(forall|i: int| 0 <= i < a.len() ==> t[i] == a[i]);
    assert(t[a.len() as int] == '.');
    assert(forall|i: int| 0 <= i < b.len() ==> t[a.len() + 1 + i] == b[i]);
    assert(t[a.len() as int + 1 + b.len() as int] == '.');
    assert(forall|i: int| 0 <= i < c.len() ==> t[a.len() + 1 + b.len() + 1 + i] == c[i]);
    assert forall|i: int| at <= i < e0 implies in_class(CharClass::Digit, #[trigger] s[i]) by {
        assert(s[i] == a[i - at]);
    }
    assert(s[e0] == '.');
    lemma_run_end_at(s, at, e0, CharClass::Digit);
    assert forall|i: int| e0 + 1 <= i < e1 implies in_class(CharClass::Digit, #[trigger] s[i]) by {
        assert(s[i] == b[i - e0 - 1]);
    }
    assert(s[e1] == '.');
    lemma_run_end_at(s, e0 + 1, e1, CharClass::Digit);
    assert forall|i: int| e1 + 1 <= i < e2 implies in_class(CharClass::Digit, #[trigger] s[i]) by {
        assert(s[i] == c[i - e1 - 1]);
    }
    lemma_run_end_at(s, e1 + 1, e2, CharClass::Digit);
    assert(s.subrange(at, e0) =~= a);
    assert(s.subrange(e0 + 1, e1) =~= b);
    assert(s.subrange(e1 + 1, e2) =~= c);
}

/// In a text made of a prefix, a name and a rest that is empty or begins
/// with a blank and a character that no name holds, the prefix and the
/// name are read as what they are.
pub proof fn lemma_head_is_read_back(kind: DependencyType, name: Seq<char>, rest: Seq<char>)
    requires
        is_mod_name(name),
        rest.len() == 0 || (rest.len() >= 2 && rest[0] == ' ' && !in_class(
            CharClass::NameOrBlank,
            rest[1],
        )),
    ensures
        head_of(written_prefix(kind) + name + rest) == Some(
            Head {
                dep_type: kind,
                name_from: written_prefix(kind).len() as int,
                name_to: (written_prefix(kind).len() + name.len()) as int,
            },
        ),
{
    let p = written_prefix(kind);
    let s = p + name + rest;
    let from = p.len() as int;
    let to = from + name.len();
    assert(s.len() == p.len() + name.len() + rest.len());
    assert(forall|i: int| 0 <= i < p.len() ==> s[i] == p[i]);
    assert(forall|i: int| 0 <= i < name.len() ==> s[from + i] == name[i]);
    assert(forall|i: int| 0 <= i < rest.len() ==> s[to + i] == rest[i]);
    assert(s[from] == name[0]);
    assert(s[to - 1] == name[name.len() - 1]);
    assert(!in_class(CharClass::Space, s[0])) by {
        if p.len() > 0 {
            assert(s[0] == p[0]);
        }
    }
    lemma_run_end_at(s, 0, 0, CharClass::Space);
    let after_prefix = prefix_at(s, 0).1;
    assert(prefix_at(s, 0).0 == kind && (if p.len() == 0 {
        after_prefix == 0
    } else {
        after_prefix == 1
    })) by {
        if p.len() > 0 {
            assert(s[0] == p[0]);
            assert(s[1] == p[1]);
        }
    }
    assert forall|i: int| after_prefix <= i < from implies in_class(
        CharClass::Space,
        #[trigger] s[i],
    ) by {
        assert(s[i] == p[i]);
    }
    lemma_run_end_at(s, after_prefix, from, CharClass::Space);
    let run = if rest.len() > 0 {
        to + 1
    } else {
        to
    };
    assert forall|i: int| from <= i < run implies in_class(
        CharClass::NameOrBlank,
        #[trigger] s[i],
    ) by {
        if i < to {
            assert(s[i] == name[i - from]);
        } else {
            assert(s[i] == rest[0]);
        }
    }
    if rest.len() > 0 {
        assert(s[to + 1] == rest[1]);
        assert(s[to] == rest[0]);
    }
    lemma_run_end_at(s, from, run, CharClass::NameOrBlank);
    lemma_trim_blanks_at(s, from, to, run);
}

/// What was written for a constraint behind a name is read as that
/// constraint.
pub proof fn lemma_constraint_is_read_back(s: Seq<char>, at: int, c: VersionConstraint)
    requires
        0 <= at <= s.len(),
        s.subrange(at, s.len() as int) == written_constraint(c),
    ensures
        constraint_at(s, at) == Some(c),
{
    let t = written_constraint(c);
    assert(forall|i: int| 0 <= i < t.len() ==> s[at + i] == t[i]) by {
        assert forall|i: int| 0 <= i < t.len() implies s[at + i] == t[i] by {
            assert(s.subrange(at, s.len() as int)[i] == s[at + i]);
        }
    }
    match c {
        VersionConstraint::Any => {
            assert(at == s.len());
            lemma_run_end_at(s, at, at, CharClass::Space);
        },
        VersionConstraint::Bound { op, version } => {
            lemma_symbol_is_read_back(op);
            let sym = op.spec_symbol();
            let text = version.spec_text();
            crate::text::lemma_decimal_round_trip(version.major as nat);
            assert(t.len() == 2 + sym.len() + text.len());
            assert(t[0] == ' ');
            assert(forall|i: int| 0 <= i < sym.len() ==> t[1 + i] == sym[i]);
            assert(t[1 + sym.len() as int] == ' ');
            assert(forall|i: int| 0 <= i < text.len() ==> t[2 + sym.len() + i] == text[i]);
            let op_from = at + 1;
            let op_to = op_from + sym.len();
            let literal_from = op_to + 1;
            assert(s[at] == ' ');
            assert(s[op_from] == sym[0]);
            assert(in_class(CharClass::Operator, sym[0]));
            assert(!in_class(CharClass::Space, s[op_from]));
            lemma_run_end_at(s, at, op_from, CharClass::Space);
            assert forall|i: int| op_from <= i < op_to implies in_class(
                CharClass::Operator,
                #[trigger] s[i],
            ) by {
                assert(s[i] == sym[i - op_from]);
            }
            assert(s[op_to] == ' ');
            lemma_run_end_at(s, op_from, op_to, CharClass::Operator);
            assert(s[literal_from] == text[0]);
            assert(text[0] == decimal_text(version.major as nat)[0]);
            assert(is_digit(text[0]));
            assert(!in_class(CharClass::Space, s[literal_from]));
            lemma_run_end_at(s, op_to, literal_from, CharClass::Space);
            assert(s.subrange(op_from, op_to) =~= sym);
            assert(s.subrange(literal_from, s.len() as int) =~= text);
            lemma_version_literal_is_read_back(s, literal_from, version);
            lemma_run_end_at(s, s.len() as int, s.len() as int, CharClass::Space);
        },
    }
}

/// A dependency that is written out and read again is the same
/// dependency, whatever its kind and its constraint, as long as its name
/// can be the name of a mod.
pub proof fn lemma_dependency_round_trip(d: DependencyView)
    requires
        is_mod_name(d.name),
    ensures
        parse_dependency(written(d)) == Some(d),
{
    let p = written_prefix(d.dep_type);
    let t = written_constraint(d.version_req);
    let s = written(d);
    let from = p.len() as int;
    let to = from + d.name.len();
    if let VersionConstraint::Bound { op, version } = d.version_req {
        lemma_symbol_is_read_back(op);
        assert(t[0] == ' ');
        assert(t[1] == op.spec_symbol()[0]);
    }
    lemma_head_is_read_back(d.dep_type, d.name, t);
    assert(s.subrange(to, s.len() as int) =~= t);
    lemma_constraint_is_read_back(s, to, d.version_req);
    assert(s.subrange(from, to) =~= d.name);
}

/// Executable form of [`in_class`].
fn char_in_class(k: CharClass, c: char) -> (r: bool)
    ensures
        r == in_class(k, c),
{
    match k {
        CharClass::Space => c == ' ' || ('\t' <= c && c <= '\r') || c == '\u{85}' || c == '\u{A0}'
            || c == '\u{1680}' || ('\u{2000}' <= c && c <= '\u{200A}') || c == '\u{2028}' || c
            == '\u{2029}' || c == '\u{202F}' || c == '\u{205F}' || c == '\u{3000}',
        CharClass::NameOrBlank => ('a' <= c && c <= 'z') || ('A' <= c && c <= 'Z') || ('0' <= c
            && c <= '9') || c == '_' || c == '-' || c == ' ',
        CharClass::Operator => c == '<' || c == '>' || c == '=' || c == '!',
        CharClass::Digit => '0' <= c && c <= '9',
    }
}

/// Finds the end of the run of class `k` that starts at `from`.
fn scan_run(chars: &Vec<char>, from: usize, k: CharClass) -> (end: usize)
    requires
        from <= chars.len(),
    ensures
        end == run_end(chars@, from as int, k),
        from <= end <= chars.len(),
{
    let mut i: usize = from;
    while i < chars.len() && char_in_class(k, chars[i])
        invariant
            from <= i <= chars.len(),
            run_end(chars@, from as int, k) == run_end(chars@, i as int, k),
        decreases chars.len() - i,
    {
        i = i + 1;
    }
    i
}

/// Takes the blanks off the end of `chars[from..to]`.
fn scan_trim(chars: &Vec<char>, from: usize, to: usize) -> (end: usize)
    requires
        from <= to <= chars.len(),
    ensures
        end == trim_blanks(chars@, from as int, to as int),
        from <= end <= to,
{
    let mut e: usize = to;
    while from < e && chars[e - 1] == ' '
        invariant
            from <= e <= to <= chars.len(),
            trim_blanks(chars@, from as int, to as int) == trim_blanks(
                chars@,
                from as int,
                e as int,
            ),
        decreases e - from,
    {
        e = e - 1;
    }
    e
}

/// Reads the prefix that stands at `at`.
fn scan_prefix(chars: &Vec<char>, at: usize) -> (r: (DependencyType, usize))
    requires
        at <= chars.len(),
    ensures
        (r.0, r.1 as int) == prefix_at(chars@, at as int),
        at <= r.1 <= chars.len(),
{
    let n = chars.len();
    if n - at >= 3 && chars[at] == '(' && chars[at + 1] == '?' && chars[at + 2] == ')' {
        (DependencyType::Optional, at + 3)
    } else if at < n && chars[at] == '?' {
        (DependencyType::Optional, at + 1)
    } else if at < n && chars[at] == '!' {
        (DependencyType::Incompatible, at + 1)
    } else if at < n && chars[at] == '~' {
        (DependencyType::Required, at + 1)
    } else {
        (DependencyType::Required, at)
    }
}

/// Reads the prefix and finds the name.
fn scan_head(chars: &Vec<char>) -> (r: Option<(DependencyType, usize, usize)>)
    ensures
        match head_of(chars@) {
            Some(head) => r == Some((head.dep_type, head.name_from as usize, head.name_to as usize))
                && 0 <= head.name_from < head.name_to <= chars.len(),
            None => r is None,
        },
{
    let start = scan_run(chars, 0, CharClass::Space);
    let (dep_type, after_prefix) = scan_prefix(chars, start);
    let name_from = scan_run(chars, after_prefix, CharClass::Space);
    let run = scan_run(chars, name_from, CharClass::NameOrBlank);
    let name_to = scan_trim(chars, name_from, run);
    if name_to > name_from {
        Some((dep_type, name_from, name_to))
    } else {
        None
    }
}

/// Reads the operator that `chars[from..to]` spells.
fn scan_op(chars: &Vec<char>, from: usize, to: usize) -> (r: Option<CompareOp>)
    requires
        from <= to <= chars.len(),
    ensures
        r == op_of(chars@.subrange(from as int, to as int)),
{
    let ghost t = chars@.subrange(from as int, to as int);
    let len = to - from;
    if len == 1 {
        let c = chars[from];
        assert(t =~= seq![c]);
        assert(seq!['>'][0] == '>' && seq!['<'][0] == '<' && seq!['='][0] == '=');
        if c == '>' {
            Some(CompareOp::Greater)
        } else if c == '<' {
            Some(CompareOp::Less)
        } else if c == '=' {
            Some(CompareOp::Exact)
        } else {
            None
        }
    } else if len == 2 {
        let c = chars[from];
        let d = chars[from + 1];
        assert(t =~= seq![c, d]);
        assert(seq!['>', '='][0] == '>' && seq!['>', '='][1] == '=');
        assert(seq!['<', '='][0] == '<' && seq!['<', '='][1] == '=');
        if c == '>' && d == '=' {
            Some(CompareOp::GreaterEq)
        } else if c == '<' && d == '=' {
            Some(CompareOp::LessEq)
        } else {
            None
        }
    } else {
        assert(t.len() != 1 && t.len() != 2);
        None
    }
}

/// Reads the numeral `chars[from..to]` of a version literal.
fn scan_numeral(chars: &Vec<char>, from: usize, to: usize) -> (r: Option<u64>)
    requires
        from <= to <= chars.len(),
        to == run_end(chars@, from as int, CharClass::Digit),
    ensures
        r is Some <==> is_strict_numeral(chars@.subrange(from as int, to as int)),
        r matches Some(v) ==> v == decimal_value(chars@.subrange(from as int, to as int)),
{
    proof {
        lemma_run_end(chars@, from as int, CharClass::Digit);
    }
    let ghost t = chars@.subrange(from as int, to as int);
    assert(all_digits(t)) by {
        assert forall|i: int| 0 <= i < t.len() implies is_digit(#[trigger] t[i]) by {
            assert(in_class(CharClass::Digit, chars@[from + i]));
        }
    }
    if to == from {
        None
    } else if to - from > 1 && chars[from] == '0' {
        assert(t[0] == '0');
        None
    } else {
        assert(t[0] == chars@[from as int]);
        parse_decimal(chars, from, to)
    }
}

/// Reads the version literal that starts at `at`.
fn scan_version_literal(chars: &Vec<char>, at: usize) -> (r: Option<(Version, usize)>)
    requires
        at <= chars.len(),
    ensures
        match version_literal_at(chars@, at as int) {
            Some((v, end)) => r == Some((v, end as usize)) && at <= end <= chars.len(),
            None => r is None,
        },
{
    let n = chars.len();
    let a = scan_run(chars, at, CharClass::Digit);
    if a >= n || chars[a] != '.' {
        return None;
    }
    let b = scan_run(chars, a + 1, CharClass::Digit);
    if b >= n || chars[b] != '.' {
        return None;
    }
    let c = scan_run(chars, b + 1, CharClass::Digit);
    let major = scan_numeral(chars, at, a);
    let minor = scan_numeral(chars, a + 1, b);
    let patch = scan_numeral(chars, b + 1, c);
    match (major, minor, patch) {
        (Some(major), Some(minor), Some(patch)) => Some((Version { major, minor, patch }, c)),
        _ => None,
    }
}

/// Reads what stands behind the name, from `at` on.
fn scan_constraint(chars: &Vec<char>, at: usize) -> (r: Option<VersionConstraint>)
    requires
        at <= chars.len(),
    ensures
        r == constraint_at(chars@, at as int),
{
    let n = chars.len();
    let op_from = scan_run(chars, at, CharClass::Space);
    if op_from >= n {
        return Some(VersionConstraint::Any);
    }
    let op_to = scan_run(chars, op_from, CharClass::Operator);
    let literal_from = scan_run(chars, op_to, CharClass::Space);
    let op = scan_op(chars, op_from, op_to);
    let literal = scan_version_literal(chars, literal_from);
    match (op, literal) {
        (Some(op), Some((version, end))) => {
            let rest = scan_run(chars, end, CharClass::Space);
            if rest >= n {
                Some(VersionConstraint::Bound { op, version })
            } else {
                None
            }
        },
        _ => None,
    }
}

/// Reads the prefix and the name of a declaration, and hands back the
/// kind, the name, and the text that follows the name.
pub fn parse_dep_type_and_name(input: &str) -> (r: Result<
    (DependencyType, String, &str),
    MalformedDependency,
>)
    ensures
        match head_of(input@) {
            Some(head) => r matches Ok((dep_type, name, rest)) && dep_type == head.dep_type
                && name@ == input@.subrange(head.name_from, head.name_to) && rest@
                == input@.subrange(head.name_to, input@.len() as int),
            None => r matches Err(e) && e.text@ == input@,
        },
{
    let chars = to_chars(input);
    match scan_head(&chars) {
        Some((dep_type, name_from, name_to)) => {
            let name = String::from_str(input.substring_char(name_from, name_to));
            let rest = input.substring_char(name_to, chars.len());
            Ok((dep_type, name, rest))
        },
        None => Err(MalformedDependency { text: String::from_str(input) }),
    }
}

impl Dependency {
    /// Reads one dependency declaration. The text is refused exactly when
    /// it does not fit the grammar, and the error then carries it.
    pub fn parse(s: &str) -> (r: Result<Dependency, MalformedDependency>)
        ensures
            match parse_dependency(s@) {
                Some(d) => r matches Ok(dep) && dep@ == d,
                None => r matches Err(e) && e.text@ == s@,
            },
    {
        let chars = to_chars(s);
        let head = scan_head(&chars);
        match head {
            Some((dep_type, name_from, name_to)) => {
                match scan_constraint(&chars, name_to) {
                    Some(version_req) => {
                        let name = String::from_str(s.substring_char(name_from, name_to));
                        Ok(Dependency { name, version_req, dep_type })
                    },
                    None => Err(MalformedDependency { text: String::from_str(s) }),
                }
            },
            None => Err(MalformedDependency { text: String::from_str(s) }),
        }
    }
}

impl Dependency {
    /// Writes the dependency as a declaration: the prefix of its kind,
    /// its name, and its constraint if it has one.
    pub fn to_text(&self) -> (r: String)
        ensures
            r@ == written(self@),
    {
        proof {
            reveal_strlit("");
            reveal_strlit("? ");
            reveal_strlit("! ");
            reveal_strlit(" ");
        }
        let prefix = match self.dep_type {
            DependencyType::Required => "",
            DependencyType::Optional => "? ",
            DependencyType::Incompatible => "! ",
        };
        assert(prefix@ =~= written_prefix(self.dep_type));
        let mut out = String::from_str(prefix);
        out.append(self.name.as_str());
        match self.version_req {
            VersionConstraint::Any => {},
            VersionConstraint::Bound { op, version } => {
                let v = version.to_text();
                out.append(" ");
                out.append(op.symbol());
                out.append(" ");
                out.append(v.as_str());
            },
        }
        assert(out@ =~= written(self@));
        out
    }
}

impl std::str::FromStr for Dependency {
    type Err = MalformedDependency;

    fn from_str(s: &str) -> (r: Result<Dependency, MalformedDependency>)
        ensures
            match parse_dependency(s@) {
                Some(d) => r matches Ok(dep) && dep@ == d,
                None => r matches Err(e) && e.text@ == s@,
            },
    {
        Dependency::parse(s)
    }
}

} // verus!

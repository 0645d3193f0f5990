//! Small helpers for working with the characters of a string: collecting
//! them, reading decimal numbers and writing them back.

use vstd::prelude::*;

verus! {

/// Collects the characters of `s` into a vector, in order.
pub fn to_chars(s: &str) -> (v: Vec<char>)
    ensures
        v@ == s@,
{
    let mut v: Vec<char> = Vec::new();
    for c in it: s.chars()
        invariant
            v@ == it.seq().take(it.index() as int),
            it.seq() == s@,
    {
        v.push(c);
    }
    v
}

/// Whether `c` is one of the ten ASCII decimal digits.
pub open spec fn is_digit(c: char) -> bool {
    '0' <= c && c <= '9'
}

/// The number that the ASCII digit `c` stands for.
pub open spec fn digit_value(c: char) -> nat {
    (c as u32 - '0' as u32) as nat
}

/// Executable form of [`is_digit`].
pub fn char_is_digit(c: char) -> (r: bool)
    ensures
        r == is_digit(c),
{
    '0' <= c && c <= '9'
}

/// Executable form of [`digit_value`].
pub fn char_digit_value(c: char) -> (r: u64)
    requires
        is_digit(c),
    ensures
        r == digit_value(c),
        r <= 9,
{
    let code: u32 = c as u32;
    let zero: u32 = '0' as u32;
    (code - zero) as u64
}

/// Whether every character of `t` is an ASCII decimal digit.
pub open spec fn all_digits(t: Seq<char>) -> bool {
    forall|i: int| 0 <= i < t.len() ==> is_digit(#[trigger] t[i])
}

/// The number written by the digits `t`, read as a decimal numeral.
/// The empty sequence stands for zero.
pub open spec fn decimal_value(t: Seq<char>) -> nat
    decreases t.len(),
{
    if t.len() == 0 {
        0
    } else {
        decimal_value(t.drop_last()) * 10 + digit_value(t.last())
    }
}

/// Reading one more digit never makes the number smaller.
pub proof fn lemma_decimal_value_grows(t: Seq<char>, k: int)
    requires
        0 <= k <= t.len(),
    ensures
        decimal_value(t.take(k)) <= decimal_value(t),
    decreases t.len() - k,
{
    if k == t.len() {
        assert(t.take(k) == t);
    } else {
        lemma_decimal_value_grows(t.drop_last(), k);
        assert(t.drop_last().take(k) == t.take(k));
    }
}

/// Reads the characters of `chars` between `from` and `to` as a decimal
/// number. Gives `None` exactly when the number does not fit in 64 bits.
pub fn parse_decimal(chars: &Vec<char>, from: usize, to: usize) -> (r: Option<u64>)
    requires
        from <= to <= chars.len(),
        all_digits(chars@.subrange(from as int, to as int)),
    ensures
        r is Some <==> decimal_value(chars@.subrange(from as int, to as int)) <= u64::MAX,
        r matches Some(v) ==> v == decimal_value(chars@.subrange(from as int, to as int)),
{
    let ghost t = chars@.subrange(from as int, to as int);
    let mut value: u64 = 0;
    let mut i: usize = from;
    while i < to
        invariant
            from <= i <= to <= chars.len(),
            t == chars@.subrange(from as int, to as int),
            all_digits(t),
            value == decimal_value(t.take(i - from)),
        decreases to - i,
    {
        let c = chars[i];
        proof {
            assert(t[i - from] == chars@[i as int]);
            assert(t.take(i - from + 1).drop_last() == t.take(i - from));
            assert(t.take(i - from + 1).last() == c);
            lemma_decimal_value_grows(t, i - from + 1);
        }
        let d = char_digit_value(c);
        let next = match value.checked_mul(10) {
            Some(m) => m.checked_add(d),
            None => None,
        };
        match next {
            Some(n) => {
                value = n;
            },
            None => {
                return None;
            },
        }
        i = i + 1;
    }
    proof {
        assert(t.take(to - from) == t);
    }
    Some(value)
}

/// The ASCII digit that stands for `d`, for `d` below ten.
pub open spec fn digit_char(d: nat) -> char {
    if d == 0 {
        '0'
    } else if d == 1 {
        '1'
    } else if d == 2 {
        '2'
    } else if d == 3 {
        '3'
    } else if d == 4 {
        '4'
    } else if d == 5 {
        '5'
    } else if d == 6 {
        '6'
    } else if d == 7 {
        '7'
    } else if d == 8 {
        '8'
    } else {
        '9'
    }
}

/// The decimal numeral of `n`, without leading zeros.
pub open spec fn decimal_text(n: nat) -> Seq<char>
    decreases n,
{
    if n < 10 {
        seq![digit_char(n)]
    } else {
        decimal_text(n / 10).push(digit_char(n % 10))
    }
}

/// The one-character string for the digit `d`.
fn digit_str(d: u64) -> (r: &'static str)
    requires
        d < 10,
    ensures
        r@ == seq![digit_char(d as nat)],
{
    proof {
        reveal_strlit("0");
        reveal_strlit("1");
        reveal_strlit("2");
        reveal_strlit("3");
        reveal_strlit("4");
        reveal_strlit("5");
        reveal_strlit("6");
        reveal_strlit("7");
        reveal_strlit("8");
        reveal_strlit("9");
    }
    let r = if d == 0 {
        "0"
    } else if d == 1 {
        "1"
    } else if d == 2 {
        "2"
    } else if d == 3 {
        "3"
    } else if d == 4 {
        "4"
    } else if d == 5 {
        "5"
    } else if d == 6 {
        "6"
    } else if d == 7 {
        "7"
    } else if d == 8 {
        "8"
    } else {
        "9"
    };
    assert(r@ =~= seq![digit_char(d as nat)]);
    r
}

/// Appends the decimal numeral of `n` to `out`.
pub fn append_decimal(out: &mut String, n: u64)
    ensures
        final(out)@ == old(out)@ + decimal_text(n as nat),
    decreases n,
{
    if n >= 10 {
        append_decimal(out, n / 10);
    }
    out.append(digit_str(n % 10));
    assert(out@ =~= old(out)@ + decimal_text(n as nat));
}

/// The numeral of a number other than zero does not begin with a zero.
pub proof fn lemma_decimal_text_begins(n: nat)
    requires
        n >= 1,
    ensures
        decimal_text(n).len() >= 1,
        decimal_text(n)[0] != '0',
    decreases n,
{
    if n >= 10 {
        lemma_decimal_text_begins(n / 10);
        assert(decimal_text(n)[0] == decimal_text(n / 10)[0]);
    }
}

/// A numeral that was written has no zero in front of another digit.
pub proof fn lemma_decimal_text_is_strict(n: nat)
    ensures
        decimal_text(n).len() == 1 || decimal_text(n)[0] != '0',
{
    if n >= 1 {
        lemma_decimal_text_begins(n);
    }
}

/// Writing a number and reading it back gives the number again.
pub proof fn lemma_decimal_round_trip(n: nat)
    ensures
        all_digits(decimal_text(n)),
        decimal_text(n).len() > 0,
        decimal_value(decimal_text(n)) == n,
    decreases n,
{
    if n < 10 {
        assert(decimal_text(n).drop_last() =~= Seq::<char>::empty());
        assert(decimal_value(Seq::<char>::empty()) == 0);
    } else {
        lemma_decimal_round_trip(n / 10);
        assert(decimal_text(n).drop_last() =~= decimal_text(n / 10));
    }
}

/// Whether the text `s` begins with `prefix`.
pub open spec fn starts_with(s: Seq<char>, prefix: Seq<char>) -> bool {
    prefix.len() <= s.len() && s.subrange(0, prefix.len() as int) == prefix
}

/// Whether the text `s` ends with `suffix`.
pub open spec fn ends_with(s: Seq<char>, suffix: Seq<char>) -> bool {
    suffix.len() <= s.len() && s.subrange(s.len() - suffix.len(), s.len() as int) == suffix
}

/// Whether `part` stands in `s` at position `at`.
pub fn matches_at(s: &Vec<char>, at: usize, part: &Vec<char>) -> (r: bool)
    requires
        at <= s.len(),
    ensures
        r == (at + part.len() <= s.len() && s@.subrange(at as int, at + part.len()) == part@),
{
    if part.len() > s.len() - at {
        return false;
    }
    let mut i: usize = 0;
    while i < part.len()
        invariant
            i <= part.len(),
            at + part.len() <= s.len(),
            forall|j: int| 0 <= j < i ==> s@[at + j] == part@[j],
        decreases part.len() - i,
    {
        if s[at + i] != part[i] {
            assert(s@.subrange(at as int, at + part.len())[i as int] != part@[i as int]);
            return false;
        }
        i = i + 1;
    }
    assert(s@.subrange(at as int, at + part.len()) =~= part@);
    true
}

/// Whether the text `s` begins with `prefix`.
pub fn text_starts_with(s: &str, prefix: &str) -> (r: bool)
    ensures
        r == starts_with(s@, prefix@),
{
    let s = to_chars(s);
    let prefix = to_chars(prefix);
    matches_at(&s, 0, &prefix)
}

/// Whether the text `s` ends with `suffix`.
pub fn text_ends_with(s: &str, suffix: &str) -> (r: bool)
    ensures
        r == ends_with(s@, suffix@),
{
    let s = to_chars(s);
    let suffix = to_chars(suffix);
    if suffix.len() > s.len() {
        return false;
    }
    matches_at(&s, s.len() - suffix.len(), &suffix)
}

/// How often the character `c` occurs in `s`.
pub open spec fn count_char(s: Seq<char>, c: char) -> nat
    decreases s.len(),
{
    if s.len() == 0 {
        0
    } else {
        count_char(s.drop_last(), c) + if s.last() == c {
            1nat
        } else {
            0nat
        }
    }
}

/// Counts how often the character `c` occurs in `s`.
pub fn text_count_char(s: &str, c: char) -> (r: usize)
    ensures
        r == count_char(s@, c),
{
    let chars = to_chars(s);
    let mut n: usize = 0;
    let mut i: usize = 0;
    assert(chars@.take(0) =~= Seq::<char>::empty());
    while i < chars.len()
        invariant
            i <= chars.len(),
            n <= i,
            n == count_char(chars@.take(i as int), c),
        decreases chars.len() - i,
    {
        proof {
            assert(chars@.take(i + 1).drop_last() =~= chars@.take(i as int));
        }
        if chars[i] == c {
            n = n + 1;
        }
        i = i + 1;
    }
    assert(chars@.take(i as int) =~= chars@);
    n
}

/// Whether the text `part` occurs somewhere in `s`.
pub open spec fn contains_text(s: Seq<char>, part: Seq<char>) -> bool {
    exists|i: int| occurs_at(s, i, part)
}

/// Whether the text `part` stands in `s` at position `i`.
pub open spec fn occurs_at(s: Seq<char>, i: int, part: Seq<char>) -> bool {
    0 <= i && i + part.len() <= s.len() && s.subrange(i, i + part.len()) == part
}

/// Whether the text `part` occurs somewhere in `s`.
pub fn text_contains(s: &str, part: &str) -> (r: bool)
    ensures
        r == contains_text(s@, part@),
{
    let text = to_chars(s);
    let wanted = to_chars(part);
    let mut i: usize = 0;
    while i < text.len()
        invariant
            i <= text.len(),
            text@ == s@,
            wanted@ == part@,
            forall|j: int| 0 <= j < i ==> !occurs_at(s@, j, part@),
        decreases text.len() - i,
    {
        if matches_at(&text, i, &wanted) {
            assert(occurs_at(s@, i as int, part@));
            return true;
        }
        i = i + 1;
    }
    if matches_at(&text, i, &wanted) {
        assert(occurs_at(s@, i as int, part@));
        return true;
    }
    assert(forall|j: int| !occurs_at(s@, j, part@));
    false
}

/// The text `s` in lower case, as `str::to_lowercase` gives it.
pub uninterp spec fn lowercase(s: Seq<char>) -> Seq<char>;

/// Turns `s` into lower case with `str::to_lowercase` of the standard
/// library. The result depends on the text alone.
#[verifier::external_body]
pub(crate) fn to_lowercase(s: &str) -> (r: String)
    ensures
        r@ == lowercase(s@),
{
    s.to_lowercase()
}

/// Puts the character `c` at the end of `s`, with `String::push` of the
/// standard library.
#[verifier::external_body]
pub(crate) fn push_char(s: &mut String, c: char)
    ensures
        final(s)@ == old(s)@.push(c),
{
    s.push(c)
}

/// Takes the last character off `s`, with `String::pop` of the standard
/// library, and hands it back. An empty text stays as it is.
#[verifier::external_body]
pub(crate) fn pop_char(s: &mut String) -> (r: Option<char>)
    ensures
        old(s)@.len() == 0 ==> r is None && final(s)@ == old(s)@,
        old(s)@.len() > 0 ==> r == Some(old(s)@.last()) && final(s)@ == old(s)@.drop_last(),
{
    s.pop()
}

} // verus!

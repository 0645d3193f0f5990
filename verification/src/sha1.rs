//! The SHA-1 checksum by which the catalog identifies an archive.
//!
//! The message is padded to a whole number of blocks of 64 bytes: a byte
//! `0x80`, zeros, and the length of the message in bits as eight bytes.
//! Each block in turn is mixed into five words of state by eighty rounds.
//! The checksum is the final state, written as forty hexadecimal digits.

use vstd::prelude::*;
use vstd::string::StringExecFns;

verus! {

/// The five words of state.
#[derive(Clone, Copy, Debug, PartialEq, Eq, Structural)]
pub struct State {
    pub a: u32,
    pub b: u32,
    pub c: u32,
    pub d: u32,
    pub e: u32,
}

/// The sum of two words, without the carry out of the top bit.
pub open spec fn plus(x: u32, y: u32) -> u32 {
    vstd::wrapping::u32_specs::wrapping_add(x, y)
}

/// The word `x` with its bits moved `n` places to the left, those that
/// leave at the top coming back in at the bottom.
pub open spec fn rotl(x: u32, n: u32) -> u32 {
    (x << n) | (x >> ((32 - n) as u32))
}

/// The state in which every checksum begins.
pub open spec fn initial_state() -> State {
    State { a: 0x67452301, b: 0xEFCDAB89, c: 0x98BADCFE, d: 0x10325476, e: 0xC3D2E1F0 }
}

/// The `i`-th word of the block that begins at `at`: four bytes, the
/// most significant first.
pub open spec fn word_at(data: Seq<u8>, at: int, i: int) -> u32 {
    ((data[at + 4 * i] as u32) << 24) | ((data[at + 4 * i + 1] as u32) << 16) | ((data[at + 4 * i
        + 2] as u32) << 8) | (data[at + 4 * i + 3] as u32)
}

/// The word that the round `t` takes from the block that begins at `at`:
/// the words of the block for the first sixteen rounds, and a mix of
/// four earlier words after that.
pub open spec fn schedule(data: Seq<u8>, at: int, t: nat) -> u32
    decreases t,
{
    if t < 16 {
        word_at(data, at, t as int)
    } else {
        rotl(
            schedule(data, at, (t - 3) as nat) ^ schedule(data, at, (t - 8) as nat) ^ schedule(
                data,
                at,
                (t - 14) as nat,
            ) ^ schedule(data, at, (t - 16) as nat),
            1,
        )
    }
}

/// The function by which the round `t` mixes three words.
pub open spec fn mix(t: nat, b: u32, c: u32, d: u32) -> u32 {
    if t < 20 {
        (b & c) | ((!b) & d)
    } else if t < 40 {
        b ^ c ^ d
    } else if t < 60 {
        (b & c) | (b & d) | (c & d)
    } else {
        b ^ c ^ d
    }
}

/// The constant of the round `t`.
pub open spec fn round_constant(t: nat) -> u32 {
    if t < 20 {
        0x5A827999
    } else if t < 40 {
        0x6ED9EBA1
    } else if t < 60 {
        0x8F1BBCDC
    } else {
        0xCA62C1D6
    }
}

/// The state after the round `t` with the word `w`.
pub open spec fn round(s: State, t: nat, w: u32) -> State {
    State {
        a: plus(plus(plus(plus(rotl(s.a, 5), mix(t, s.b, s.c, s.d)), s.e), round_constant(t)), w),
        b: s.a,
        c: rotl(s.b, 30),
        d: s.c,
        e: s.d,
    }
}

/// The state after the first `t` rounds on the block that begins at
/// `at`.
pub open spec fn rounds(s: State, data: Seq<u8>, at: int, t: nat) -> State
    decreases t,
{
    if t == 0 {
        s
    } else {
        round(rounds(s, data, at, (t - 1) as nat), (t - 1) as nat, schedule(data, at, (t - 1) as nat))
    }
}

/// The state once the block that begins at `at` is mixed in.
pub open spec fn compress(s: State, data: Seq<u8>, at: int) -> State {
    let r = rounds(s, data, at, 80);
    State {
        a: plus(s.a, r.a),
        b: plus(s.b, r.b),
        c: plus(s.c, r.c),
        d: plus(s.d, r.d),
        e: plus(s.e, r.e),
    }
}

/// The state once the first `n` blocks of `data` are mixed in.
pub open spec fn absorb(data: Seq<u8>, n: nat) -> State
    decreases n,
{
    if n == 0 {
        initial_state()
    } else {
        compress(absorb(data, (n - 1) as nat), data, 64 * (n - 1))
    }
}

/// How many bytes the padded form of a message of `len` bytes has: the
/// least multiple of 64 that leaves room for nine bytes more.
pub open spec fn padded_len(len: nat) -> nat {
    ((len + 8) / 64 + 1) * 64
}

/// The byte `i` of the length `bits`, written in eight bytes with the
/// most significant first.
pub open spec fn length_byte(bits: u64, i: int) -> u8 {
    ((bits >> ((8 * (7 - i)) as u64)) & 0xff) as u8
}

/// The padded form of the message `msg`.
pub open spec fn padded(msg: Seq<u8>) -> Seq<u8> {
    Seq::new(
        padded_len(msg.len()),
        |i: int|
            if i < msg.len() {
                msg[i]
            } else if i == msg.len() {
                0x80u8
            } else if i < padded_len(msg.len()) - 8 {
                0u8
            } else {
                length_byte((msg.len() * 8) as u64, i - (padded_len(msg.len()) - 8))
            },
    )
}

/// The state that the message `msg` ends in.
pub open spec fn final_state(msg: Seq<u8>) -> State {
    absorb(padded(msg), padded_len(msg.len()) / 64)
}

/// The hexadecimal digit for `v`, for `v` below sixteen.
pub open spec fn hex_digit(v: u32) -> char {
    if v == 0 {
        '0'
    } else if v == 1 {
        '1'
    } else if v == 2 {
        '2'
    } else if v == 3 {
        '3'
    } else if v == 4 {
        '4'
    } else if v == 5 {
        '5'
    } else if v == 6 {
        '6'
    } else if v == 7 {
        '7'
    } else if v == 8 {
        '8'
    } else if v == 9 {
        '9'
    } else if v == 10 {
        'a'
    } else if v == 11 {
        'b'
    } else if v == 12 {
        'c'
    } else if v == 13 {
        'd'
    } else if v == 14 {
        'e'
    } else {
        'f'
    }
}

/// The eight hexadecimal digits of the word `w`, the most significant
/// first.
pub open spec fn word_hex(w: u32) -> Seq<char> {
    Seq::new(8, |i: int| hex_digit((w >> ((4 * (7 - i)) as u32)) & 0xf))
}

/// The forty hexadecimal digits of the state `s`.
pub open spec fn state_hex(s: State) -> Seq<char> {
    word_hex(s.a) + word_hex(s.b) + word_hex(s.c) + word_hex(s.d) + word_hex(s.e)
}

/// The SHA-1 checksum of the message `msg`, in lower-case hexadecimal
/// digits.
pub open spec fn sha1_hex(msg: Seq<u8>) -> Seq<char> {
    state_hex(final_state(msg))
}

/// The longest message, in bytes, whose length in bits fits the eight
/// bytes that the padding has for it.
pub const MAX_MESSAGE_LEN: u64 = 0x1fff_ffff_ffff_ffff;

/// Whether a message of `len` bytes can be given a checksum on this
/// machine: its length in bits fits the padding, and its padded form
/// fits the memory.
pub open spec fn can_digest(len: nat) -> bool {
    len <= MAX_MESSAGE_LEN && len + 72 <= usize::MAX
}

fn rotate(x: u32, n: u32) -> (r: u32)
    requires
        0 < n < 32,
    ensures
        r == rotl(x, n),
{
    (x << n) | (x >> (32 - n))
}

fn read_word(data: &Vec<u8>, at: usize, i: usize) -> (r: u32)
    requires
        i < 16,
        at + 64 <= data.len(),
    ensures
        r == word_at(data@, at as int, i as int),
{
    let p = at + 4 * i;
    ((data[p] as u32) << 24) | ((data[p + 1] as u32) << 16) | ((data[p + 2] as u32) << 8) | (
    data[p + 3] as u32)
}

fn fill_schedule(data: &Vec<u8>, at: usize) -> (w: Vec<u32>)
    requires
        at + 64 <= data.len(),
    ensures
        w@.len() == 80,
        forall|t: int| 0 <= t < 80 ==> w@[t] == schedule(data@, at as int, t as nat),
{
    let mut w: Vec<u32> = Vec::new();
    let mut t: usize = 0;
    while t < 80
        invariant
            t <= 80,
            at + 64 <= data.len(),
            w@.len() == t,
            forall|j: int| 0 <= j < t ==> w@[j] == schedule(data@, at as int, j as nat),
        decreases 80 - t,
    {
        let word = if t < 16 {
            read_word(data, at, t)
        } else {
            rotate(w[t - 3] ^ w[t - 8] ^ w[t - 14] ^ w[t - 16], 1)
        };
        w.push(word);
        t = t + 1;
    }
    w
}

fn mix_words(t: usize, b: u32, c: u32, d: u32) -> (r: u32)
    ensures
        r == mix(t as nat, b, c, d),
{
    if t < 20 {
        (b & c) | ((!b) & d)
    } else if t < 40 {
        b ^ c ^ d
    } else if t < 60 {
        (b & c) | (b & d) | (c & d)
    } else {
        b ^ c ^ d
    }
}

fn constant_of(t: usize) -> (r: u32)
    ensures
        r == round_constant(t as nat),
{
    if t < 20 {
        0x5A827999
    } else if t < 40 {
        0x6ED9EBA1
    } else if t < 60 {
        0x8F1BBCDC
    } else {
        0xCA62C1D6
    }
}

fn compress_block(s: State, data: &Vec<u8>, at: usize) -> (r: State)
    requires
        at + 64 <= data.len(),
    ensures
        r == compress(s, data@, at as int),
{
    let w = fill_schedule(data, at);
    let mut cur = s;
    let mut t: usize = 0;
    while t < 80
        invariant
            t <= 80,
            w@.len() == 80,
            forall|j: int| 0 <= j < 80 ==> w@[j] == schedule(data@, at as int, j as nat),
            cur == rounds(s, data@, at as int, t as nat),
        decreases 80 - t,
    {
        let f = mix_words(t, cur.b, cur.c, cur.d);
        let k = constant_of(t);
        let a = rotate(cur.a, 5).wrapping_add(f).wrapping_add(cur.e).wrapping_add(k).wrapping_add(
            w[t],
        );
        cur = State { a, b: cur.a, c: rotate(cur.b, 30), d: cur.c, e: cur.d };
        t = t + 1;
    }
    State {
        a: s.a.wrapping_add(cur.a),
        b: s.b.wrapping_add(cur.b),
        c: s.c.wrapping_add(cur.c),
        d: s.d.wrapping_add(cur.d),
        e: s.e.wrapping_add(cur.e),
    }
}

fn pad(data: &Vec<u8>) -> (r: Vec<u8>)
    requires
        can_digest(data@.len()),
    ensures
        r@ == padded(data@),
{
    let n = data.len();
    let total: usize = ((n + 8) / 64 + 1) * 64;
    let bits: u64 = (n as u64) * 8;
    let mut out: Vec<u8> = Vec::new();
    let mut i: usize = 0;
    while i < total
        invariant
            i <= total,
            n == data.len(),
            can_digest(n as nat),
            total == padded_len(n as nat),
            bits == n * 8,
            out@.len() == i,
            forall|j: int| 0 <= j < i ==> out@[j] == padded(data@)[j],
        decreases total - i,
    {
        let byte: u8 = if i < n {
            data[i]
        } else if i == n {
            0x80
        } else if i < total - 8 {
            0
        } else {
            let k: usize = i - (total - 8);
            let shift: u64 = (8 * (7 - k)) as u64;
            let low: u64 = (bits >> shift) & 0xff;
            assert(low <= 0xff) by (bit_vector)
                requires
                    low == (bits >> shift) & 0xff,
            ;
            low as u8
        };
        out.push(byte);
        i = i + 1;
    }
    assert(out@ =~= padded(data@));
    out
}

fn digit_text(v: u32) -> (r: &'static str)
    requires
        v < 16,
    ensures
        r@ == seq![hex_digit(v)],
{
    proof {
        reveal_strlit("0");
        reveal_strlit("1");
        reveal_strlit("2");
        reveal_strlit("3");
        reveal_strlit("4");
        reveal_strlit("5");
        reveal_strlit("6");
        reveal_strlit("7");
        reveal_strlit("8");
        reveal_strlit("9");
        reveal_strlit("a");
        reveal_strlit("b");
        reveal_strlit("c");
        reveal_strlit("d");
        reveal_strlit("e");
        reveal_strlit("f");
    }
    let r = if v == 0 {
        "0"
    } else if v == 1 {
        "1"
    } else if v == 2 {
        "2"
    } else if v == 3 {
        "3"
    } else if v == 4 {
        "4"
    } else if v == 5 {
        "5"
    } else if v == 6 {
        "6"
    } else if v == 7 {
        "7"
    } else if v == 8 {
        "8"
    } else if v == 9 {
        "9"
    } else if v == 10 {
        "a"
    } else if v == 11 {
        "b"
    } else if v == 12 {
        "c"
    } else if v == 13 {
        "d"
    } else if v == 14 {
        "e"
    } else {
        "f"
    };
    assert(r@ =~= seq![hex_digit(v)]);
    r
}

fn append_word(out: &mut String, w: u32)
    ensures
        final(out)@ == old(out)@ + word_hex(w),
{
    let mut i: u32 = 0;
    while i < 8
        invariant
            i <= 8,
            out@ == old(out)@ + word_hex(w).take(i as int),
        decreases 8 - i,
    {
        let shift: u32 = 4 * (7 - i);
        let v: u32 = (w >> shift) & 0xf;
        assert(v < 16) by (bit_vector)
            requires
                v == (w >> shift) & 0xf,
        ;
        out.append(digit_text(v));
        assert(out@ =~= old(out)@ + word_hex(w).take(i + 1));
        i = i + 1;
    }
    assert(word_hex(w).take(8) =~= word_hex(w));
}

/// Computes the SHA-1 checksum of `data`, in lower-case hexadecimal
/// digits.
pub fn checksum(data: &Vec<u8>) -> (r: String)
    requires
        can_digest(data@.len()),
    ensures
        r@ == sha1_hex(data@),
{
    let message = pad(data);
    let blocks = message.len() / 64;
    let mut state = State {
        a: 0x67452301,
        b: 0xEFCDAB89,
        c: 0x98BADCFE,
        d: 0x10325476,
        e: 0xC3D2E1F0,
    };
    let mut n: usize = 0;
    while n < blocks
        invariant
            n <= blocks,
            blocks == message.len() / 64,
            message@ == padded(data@),
            message.len() == padded_len(data@.len()),
            state == absorb(message@, n as nat),
        decreases blocks - n,
    {
        state = compress_block(state, &message, 64 * n);
        n = n + 1;
    }
    let mut out = String::new();
    append_word(&mut out, state.a);
    append_word(&mut out, state.b);
    append_word(&mut out, state.c);
    append_word(&mut out, state.d);
    append_word(&mut out, state.e);
    assert(out@ =~= state_hex(state));
    out
}

/// Computes the SHA-1 checksum of `data` if `data` is short enough to
/// have one, and `None` otherwise.
pub fn checksum_of(data: &Vec<u8>) -> (r: Option<String>)
    ensures
        r is Some <==> can_digest(data@.len()),
        r matches Some(text) ==> text@ == sha1_hex(data@),
{
    if data.len() <= usize::MAX - 72 && data.len() as u64 <= MAX_MESSAGE_LEN {
        Some(checksum(data))
    } else {
        None
    }
}

} // verus!

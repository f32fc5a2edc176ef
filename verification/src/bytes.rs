//! Little-endian words in byte sequences.

use vstd::arithmetic::div_mod::lemma_fundamental_div_mod_converse;
use vstd::prelude::*;

verus! {

/// The 32-bit word whose little-endian bytes stand at `at .. at + 4` in `b`.
pub open spec fn le_u32(b: Seq<u8>, at: int) -> u32
    recommends
        0 <= at,
        at + 4 <= b.len(),
{
    (b[at] as int + 256 * (b[at + 1] as int) + 65536 * (b[at + 2] as int) + 16777216 * (b[at
        + 3] as int)) as u32
}

/// The four little-endian bytes of `x`.
pub open spec fn le_bytes(x: u32) -> Seq<u8> {
    seq![
        (x % 256) as u8,
        ((x / 256) % 256) as u8,
        ((x / 65536) % 256) as u8,
        ((x / 16777216) % 256) as u8,
    ]
}

/// The `n` words that stand one after the other from `at` on.
pub open spec fn le_words(b: Seq<u8>, at: int, n: nat) -> Seq<u32> {
    Seq::new(n, |i: int| le_u32(b, at + 4 * i))
}

/// The four bytes at `at`, which name a chunk.
pub open spec fn tag_at(b: Seq<u8>, at: int) -> Seq<u8> {
    b.subrange(at, at + 4)
}

/// The word made of four bytes, the lowest first.
pub open spec fn word_of(b0: u8, b1: u8, b2: u8, b3: u8) -> u32 {
    (b0 as int + 256 * (b1 as int) + 65536 * (b2 as int) + 16777216 * (b3 as int)) as u32
}

/// The little-endian bytes of the word made of four bytes are those bytes.
#[verifier::rlimit(40)]
pub proof fn lemma_word_bytes(b0: u8, b1: u8, b2: u8, b3: u8)
    ensures
        le_bytes(word_of(b0, b1, b2, b3)) == seq![b0, b1, b2, b3],
{
    let x = word_of(b0, b1, b2, b3) as int;
    let hi1 = b1 as int + 256 * (b2 as int) + 65536 * (b3 as int);
    let hi2 = b2 as int + 256 * (b3 as int);
    let hi3 = b3 as int;
    lemma_fundamental_div_mod_converse(x, 256, hi1, b0 as int);
    lemma_fundamental_div_mod_converse(hi1, 256, hi2, b1 as int);
    lemma_fundamental_div_mod_converse(x, 65536, hi2, b0 as int + 256 * (b1 as int));
    lemma_fundamental_div_mod_converse(hi2, 256, hi3, b2 as int);
    lemma_fundamental_div_mod_converse(
        x,
        16777216,
        hi3,
        b0 as int + 256 * (b1 as int) + 65536 * (b2 as int),
    );
    lemma_fundamental_div_mod_converse(hi3, 256, 0, b3 as int);
    assert(le_bytes(x as u32) =~= seq![b0, b1, b2, b3]);
}

/// Reading back the bytes of a word gives the word, wherever they stand.
pub proof fn lemma_le_round_trip(b: Seq<u8>, at: int, x: u32)
    requires
        0 <= at,
        at + 4 <= b.len(),
        b.subrange(at, at + 4) == le_bytes(x),
    ensures
        le_u32(b, at) == x,
{
    let s = b.subrange(at, at + 4);
    assert(s[0] == b[at] && s[1] == b[at + 1] && s[2] == b[at + 2] && s[3] == b[at + 3]);
    let w = le_bytes(x);
    assert(w[0] == (x % 256) as u8);
    assert(w[1] == ((x / 256) % 256) as u8);
    assert(w[2] == ((x / 65536) % 256) as u8);
    assert(w[3] == ((x / 16777216) % 256) as u8);
}

/// Reads the word at `at`.
pub fn read_le_u32(b: &[u8], at: usize) -> (r: u32)
    requires
        at + 4 <= b.len(),
    ensures
        r == le_u32(b@, at as int),
{
    let b0: u32 = b[at] as u32;
    let b1: u32 = b[at + 1] as u32;
    let b2: u32 = b[at + 2] as u32;
    let b3: u32 = b[at + 3] as u32;
    b0 + 256 * b1 + 65536 * b2 + 16777216 * b3
}

/// Appends the four little-endian bytes of `x` to `out`.
pub fn push_le_u32(out: &mut Vec<u8>, x: u32)
    ensures
        final(out)@ == old(out)@ + le_bytes(x),
{
    out.push((x % 256) as u8);
    out.push(((x / 256) % 256) as u8);
    out.push(((x / 65536) % 256) as u8);
    out.push(((x / 16777216) % 256) as u8);
}

/// Tells whether the four bytes at `at` are `c0 c1 c2 c3`.
pub fn is_tag(b: &[u8], at: usize, c0: u8, c1: u8, c2: u8, c3: u8) -> (r: bool)
    requires
        at + 4 <= b.len(),
    ensures
        r == (tag_at(b@, at as int) == seq![c0, c1, c2, c3]),
{
    let r = b[at] == c0 && b[at + 1] == c1 && b[at + 2] == c2 && b[at + 3] == c3;
    proof {
        let t = tag_at(b@, at as int);
        let want = seq![c0, c1, c2, c3];
        assert(t.len() == 4);
        assert(t[0] == b@[at as int] && t[1] == b@[at + 1] && t[2] == b@[at + 2] && t[3] == b@[at
            + 3]);
        if r {
            assert(t =~= want);
        } else {
            assert(want[0] == c0 && want[1] == c1 && want[2] == c2 && want[3] == c3);
        }
    }
    r
}

} // verus!

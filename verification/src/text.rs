//! Text as sequences of characters: searching, splitting and comparing
//! without regard to ASCII case.

use vstd::prelude::*;

verus! {

/// The characters of `s`.
pub fn chars_of(s: &str) -> (v: Vec<char>)
    ensures
        v@ == s@,
{
    let mut v: Vec<char> = Vec::new();
    for c in it: s.chars()
        invariant
            v@ == it.seq().take(it.index() as int),
            it.seq() == s@,
    {
        v.push(c);
    }
    v
}


/// Appends one character to a string.
///
/// Calls `String::push`, of which the standard library says that it appends
/// the given character to the end of the string; this is what is claimed
/// here, and it is not proved.
#[verifier::external_body]
fn push_char(s: &mut String, c: char)
    ensures
        final(s)@ == old(s)@.push(c),
{
    s.push(c)
}

/// The string made of the characters `chars`.
pub fn string_of(chars: &[char]) -> (s: String)
    ensures
        s@ == chars@,
{
    let mut s = String::new();
    let mut i: usize = 0;
    while i < chars.len()
        invariant
            i <= chars.len(),
            s@ == chars@.take(i as int),
        decreases chars.len() - i,
    {
        push_char(&mut s, chars[i]);
        i += 1;
        assert(s@ =~= chars@.take(i as int));
    }
    assert(chars@.take(chars.len() as int) =~= chars@);
    s
}

/// How many characters lie between `from` and the end of `s`.
pub open spec fn chars_left(s: Seq<char>, from: int) -> nat {
    if from < s.len() {
        (s.len() - from) as nat
    } else {
        0
    }
}

/// The first position from `from` on at which `c` stands, or the length of
/// `s` if there is none.
pub open spec fn find_from(s: Seq<char>, c: char, from: int) -> int
    decreases chars_left(s, from),
{
    if from < 0 || from >= s.len() {
        s.len() as int
    } else if s[from] == c {
        from
    } else {
        find_from(s, c, from + 1)
    }
}

/// Where the first `c` from `from` on stands: not before `from`, not after
/// the end, and behind no other `c`.
pub proof fn lemma_find_from(s: Seq<char>, c: char, from: int)
    requires
        0 <= from <= s.len(),
    ensures
        from <= find_from(s, c, from) <= s.len(),
        find_from(s, c, from) < s.len() ==> s[find_from(s, c, from)] == c,
        forall|k: int| from <= k < find_from(s, c, from) ==> s[k] != c,
    decreases s.len() - from,
{
    if from < s.len() && s[from] != c {
        lemma_find_from(s, c, from + 1);
    }
}

/// How often `c` occurs in `s` from `from` on.
pub open spec fn count_from(s: Seq<char>, c: char, from: int) -> nat
    decreases chars_left(s, from),
{
    if from < 0 || from >= s.len() {
        0
    } else if s[from] == c {
        1 + count_from(s, c, from + 1)
    } else {
        count_from(s, c, from + 1)
    }
}

/// The last position before `to` at which `c` stands, or -1 if there is
/// none.
pub open spec fn rfind_before(s: Seq<char>, c: char, to: int) -> int
    decreases to,
{
    if to <= 0 || to > s.len() {
        -1
    } else if s[to - 1] == c {
        to - 1
    } else {
        rfind_before(s, c, to - 1)
    }
}

/// The pieces of `s` between the occurrences of `sep`, from `from` on. There
/// is one piece more than there are separators; a piece may be empty.
pub open spec fn split_from(s: Seq<char>, sep: char, from: int) -> Seq<Seq<char>>
    decreases chars_left(s, from),
    via split_from_terminates
{
    if from < 0 || from > s.len() {
        Seq::empty()
    } else {
        let k = find_from(s, sep, from);
        if k >= s.len() {
            seq![s.subrange(from, s.len() as int)]
        } else {
            seq![s.subrange(from, k)] + split_from(s, sep, k + 1)
        }
    }
}

#[via_fn]
proof fn split_from_terminates(s: Seq<char>, sep: char, from: int) {
    if 0 <= from <= s.len() {
        lemma_find_from(s, sep, from);
    }
}

/// The pieces of `s` between the occurrences of `sep`.
pub open spec fn spec_split(s: Seq<char>, sep: char) -> Seq<Seq<char>> {
    split_from(s, sep, 0)
}

/// The code of `c`, with the capital letters A to Z moved onto the small ones.
pub open spec fn lower_code(c: char) -> u32 {
    if 65 <= c as u32 <= 90 {
        (c as u32 + 32) as u32
    } else {
        c as u32
    }
}

/// Whether `a` and `b` are the same but for the case of ASCII letters.
pub open spec fn spec_eq_ignore_ascii_case(a: Seq<char>, b: Seq<char>) -> bool {
    &&& a.len() == b.len()
    &&& forall|i: int| 0 <= i < a.len() ==> lower_code(#[trigger] a[i]) == lower_code(b[i])
}

/// The views of a vector of texts.
pub open spec fn texts_view(v: Seq<Vec<char>>) -> Seq<Seq<char>> {
    Seq::new(v.len(), |i: int| v[i]@)
}

/// Copies the characters `from .. to` of `s`.
pub fn copy_chars(s: &[char], from: usize, to: usize) -> (r: Vec<char>)
    requires
        from <= to <= s.len(),
    ensures
        r@ == s@.subrange(from as int, to as int),
{
    let mut r: Vec<char> = Vec::new();
    let mut i: usize = from;
    while i < to
        invariant
            from <= i <= to <= s.len(),
            r@ == s@.subrange(from as int, i as int),
        decreases to - i,
    {
        r.push(s[i]);
        i += 1;
        assert(r@ =~= s@.subrange(from as int, i as int));
    }
    r
}

/// Finds the first `c` from `from` on.
pub fn find_char(s: &[char], c: char, from: usize) -> (r: usize)
    requires
        from <= s.len(),
    ensures
        r == find_from(s@, c, from as int),
        from <= r <= s.len(),
{
    let mut k: usize = from;
    while k < s.len() && s[k] != c
        invariant
            from <= k <= s.len(),
            find_from(s@, c, k as int) == find_from(s@, c, from as int),
        decreases s.len() - k,
    {
        k += 1;
    }
    k
}

/// Counts the occurrences of `c`.
pub fn count_char(s: &[char], c: char) -> (r: usize)
    ensures
        r == count_from(s@, c, 0),
{
    let mut n: usize = 0;
    let mut k: usize = 0;
    while k < s.len()
        invariant
            k <= s.len(),
            n <= k,
            n + count_from(s@, c, k as int) == count_from(s@, c, 0),
        decreases s.len() - k,
    {
        if s[k] == c {
            n += 1;
        }
        k += 1;
    }
    n
}

/// Finds the last `c`.
pub fn rfind_char(s: &[char], c: char) -> (r: Option<usize>)
    ensures
        r matches Some(k) ==> k == rfind_before(s@, c, s.len() as int) && k < s.len(),
        r is None ==> rfind_before(s@, c, s.len() as int) == -1,
{
    let mut to: usize = s.len();
    while to > 0
        invariant
            to <= s.len(),
            rfind_before(s@, c, to as int) == rfind_before(s@, c, s.len() as int),
        decreases to,
    {
        if s[to - 1] == c {
            return Some(to - 1);
        }
        to -= 1;
    }
    None
}

/// Splits `s` at every `sep`.
pub fn split(s: &[char], sep: char) -> (r: Vec<Vec<char>>)
    ensures
        texts_view(r@) == spec_split(s@, sep),
        r.len() >= 1,
{
    let mut out: Vec<Vec<char>> = Vec::new();
    let mut from: usize = 0;
    assert(texts_view(out@) =~= Seq::<Seq<char>>::empty());
    loop
        invariant
            from <= s.len(),
            texts_view(out@) + split_from(s@, sep, from as int) == spec_split(s@, sep),
        decreases s.len() - from,
    {
        let k = find_char(s, sep, from);
        let piece = copy_chars(s, from, k);
        let ghost before = texts_view(out@);
        out.push(piece);
        assert(texts_view(out@) =~= before.push(piece@));
        if k >= s.len() {
            assert(texts_view(out@) =~= before + split_from(s@, sep, from as int));
            return out;
        }
        assert(texts_view(out@) + split_from(s@, sep, k + 1) =~= before + split_from(
            s@,
            sep,
            from as int,
        ));
        from = k + 1;
    }
}

/// The code of `c` with capital ASCII letters made small.
pub fn lower(c: char) -> (r: u32)
    ensures
        r == lower_code(c),
{
    let code: u32 = c as u32;
    if 65 <= code && code <= 90 {
        code + 32
    } else {
        code
    }
}

/// Compares two texts without regard to the case of ASCII letters.
pub fn eq_ignore_ascii_case(a: &[char], b: &[char]) -> (r: bool)
    ensures
        r == spec_eq_ignore_ascii_case(a@, b@),
{
    if a.len() != b.len() {
        return false;
    }
    let mut i: usize = 0;
    while i < a.len()
        invariant
            i <= a.len(),
            a.len() == b.len(),
            forall|k: int| 0 <= k < i ==> lower_code(#[trigger] a@[k]) == lower_code(b@[k]),
        decreases a.len() - i,
    {
        if lower(a[i]) != lower(b[i]) {
            return false;
        }
        i += 1;
    }
    true
}

/// Compares two texts.
pub fn eq_chars(a: &[char], b: &[char]) -> (r: bool)
    ensures
        r == (a@ == b@),
{
    if a.len() != b.len() {
        return false;
    }
    let mut i: usize = 0;
    while i < a.len()
        invariant
            i <= a.len(),
            a.len() == b.len(),
            forall|k: int| 0 <= k < i ==> a@[k] == b@[k],
        decreases a.len() - i,
    {
        if a[i] != b[i] {
            return false;
        }
        i += 1;
    }
    assert(a@ =~= b@);
    true
}

} // verus!

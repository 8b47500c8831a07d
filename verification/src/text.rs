//! Text building blocks shared by the renderers: decimal numbers, single
//! characters, byte-length prefixes, lower-casing and substring search.

use vstd::prelude::*;
use vstd::utf8::*;

verus! {

/// The decimal digit character for `d` (`d < 10`).
pub open spec fn digit_char(d: nat) -> char {
    if d == 0 { '0' }
    else if d == 1 { '1' }
    else if d == 2 { '2' }
    else if d == 3 { '3' }
    else if d == 4 { '4' }
    else if d == 5 { '5' }
    else if d == 6 { '6' }
    else if d == 7 { '7' }
    else if d == 8 { '8' }
    else { '9' }
}

/// The decimal representation of `n`, without sign or leading zeros.
pub open spec fn decimal(n: nat) -> Seq<char>
    decreases n,
{
    if n < 10 {
        seq![digit_char(n)]
    } else {
        decimal(n / 10).push(digit_char(n % 10))
    }
}

/// Appends one character with `String::push`; trusted to leave the old
/// characters followed by `c`.
#[verifier::external_body]
pub(crate) fn push_char(s: &mut String, c: char)
    ensures
        final(s)@ == old(s)@.push(c),
{
    s.push(c);
}

fn digit(d: u64) -> (c: char)
    requires
        d < 10,
    ensures
        c == digit_char(d as nat),
{
    if d == 0 { '0' }
    else if d == 1 { '1' }
    else if d == 2 { '2' }
    else if d == 3 { '3' }
    else if d == 4 { '4' }
    else if d == 5 { '5' }
    else if d == 6 { '6' }
    else if d == 7 { '7' }
    else if d == 8 { '8' }
    else { '9' }
}

/// Appends the decimal representation of `n`.
pub fn push_decimal(s: &mut String, n: u64)
    ensures
        final(s)@ == old(s)@ + decimal(n as nat),
    decreases n,
{
    if n >= 10 {
        push_decimal(s, n / 10);
    }
    push_char(s, digit(n % 10));
    assert(s@ =~= old(s)@ + decimal(n as nat));
}

/// Number of bytes in the UTF-8 encoding of `s` (what `str::len` returns).
pub open spec fn byte_len(s: Seq<char>) -> nat {
    encode_utf8(s).len()
}

/// Whether byte offset `n` of the UTF-8 encoding of `s` starts a character.
pub open spec fn is_boundary_at(s: Seq<char>, n: nat) -> bool {
    is_char_boundary(encode_utf8(s), n as int)
}

/// The characters of the first `n` bytes of `s` (what `&s[..n]` holds).
pub open spec fn byte_prefix(s: Seq<char>, n: nat) -> Seq<char> {
    decode_utf8(encode_utf8(s).subrange(0, n as int))
}

/// The length of `s` in bytes: `str::len`.
pub fn byte_length(s: &str) -> (n: usize)
    ensures
        n == byte_len(s@),
{
    s.as_bytes().len()
}

/// `&s[..n]` for a byte offset `n` that starts a character.
pub fn prefix_bytes(s: &str, n: usize) -> (r: &str)
    requires
        n <= byte_len(s@),
        is_boundary_at(s@, n as nat),
    ensures
        r@ == byte_prefix(s@, n as nat),
{
    let (head, _tail) = s.split_at(n);
    proof {
        broadcast use encode_utf8_decode_utf8;
        assert(decode_utf8(encode_utf8(head@)) == head@);
    }
    head
}

/// Character-wise equality of two string slices.
pub fn str_eq(a: &str, b: &str) -> (r: bool)
    ensures
        r == (a@ == b@),
{
    let n = a.unicode_len();
    let m = b.unicode_len();
    if n != m {
        return false;
    }
    let mut i: usize = 0;
    while i < n
        invariant
            n == a@.len(),
            m == b@.len(),
            n == m,
            i <= n,
            forall|k: int| 0 <= k < i ==> a@[k] == b@[k],
        decreases n - i,
    {
        if a.get_char(i) != b.get_char(i) {
            return false;
        }
        i += 1;
    }
    assert(a@ =~= b@);
    true
}

/// The characters of `s`, one per element.
pub fn chars_of(s: &str) -> (v: Vec<char>)
    ensures
        v@ == s@,
{
    let n = s.unicode_len();
    let mut v: Vec<char> = Vec::new();
    let mut i: usize = 0;
    while i < n
        invariant
            n == s@.len(),
            i <= n,
            v@ == s@.take(i as int),
        decreases n - i,
    {
        let c = s.get_char(i);
        v.push(c);
        i += 1;
        assert(v@ =~= s@.take(i as int));
    }
    assert(s@.take(n as int) =~= s@);
    v
}

/// `pat` occurs as a contiguous run inside `hay` (the empty pattern always does).
pub open spec fn has_substring(hay: Seq<char>, pat: Seq<char>) -> bool {
    exists|i: int|
        0 <= i && i + pat.len() <= hay.len() && #[trigger] hay.subrange(i, i + pat.len()) == pat
}

/// Whether `pat` occurs inside `hay`.
pub fn chars_contain(hay: &Vec<char>, pat: &Vec<char>) -> (r: bool)
    ensures
        r == has_substring(hay@, pat@),
{
    let n = hay.len();
    let m = pat.len();
    if m > n {
        return false;
    }
    if m == 0 {
        assert(hay@.subrange(0int, 0int + pat@.len()) =~= pat@);
        return true;
    }
    let mut i: usize = 0;
    while i <= n - m
        invariant
            n == hay@.len(),
            m == pat@.len(),
            0 < m <= n,
            i <= n - m + 1,
            forall|k: int| 0 <= k < i ==> #[trigger] hay@.subrange(k, k + m) != pat@,
        decreases n - m + 1 - i,
    {
        let mut j: usize = 0;
        let mut same = true;
        while j < m
            invariant
                n == hay@.len(),
                m == pat@.len(),
                i + m <= n,
                j <= m,
                same ==> forall|k: int| 0 <= k < j ==> hay@[i + k] == pat@[k],
                !same ==> hay@.subrange(i as int, i + m) != pat@,
            decreases m - j,
        {
            if hay[i + j] != pat[j] {
                same = false;
                assert(hay@.subrange(i as int, i + m)[j as int] != pat@[j as int]);
            }
            j += 1;
        }
        if same {
            assert(hay@.subrange(i as int, i + m) =~= pat@);
            return true;
        }
        i += 1;
    }
    proof {
        assert forall|k: int| 0 <= k && k + m <= n implies #[trigger] hay@.subrange(k, k + m) != pat@ by {
            assert(k < i);
        }
    }
    false
}

/// Whether `pat` occurs inside `hay`: `str::contains` with a `&str` pattern.
pub fn str_contains(hay: &str, pat: &str) -> (r: bool)
    ensures
        r == has_substring(hay@, pat@),
{
    let h = chars_of(hay);
    let p = chars_of(pat);
    chars_contain(&h, &p)
}

/// What `str::to_lowercase` returns for a string of these characters.
pub uninterp spec fn lowercase(s: Seq<char>) -> Seq<char>;

/// Lower-cases with `str::to_lowercase`; trusted to return the characters that
/// `lowercase` names, which depend on the characters of `s` alone. Nothing more
/// of Unicode lower-casing is stated (not even its length).
#[verifier::external_body]
pub(crate) fn to_lowercase(s: &str) -> (r: String)
    ensures
        r@ == lowercase(s@),
{
    s.to_lowercase()
}


/// `n` copies of `c`.
pub open spec fn repeated(c: char, n: nat) -> Seq<char> {
    Seq::new(n, |i: int| c)
}

/// Appends `n` copies of `c`.
pub fn push_repeated(s: &mut String, c: char, n: usize)
    ensures
        final(s)@ == old(s)@ + repeated(c, n as nat),
{
    let mut i: usize = 0;
    while i < n
        invariant
            i <= n,
            s@ == old(s)@ + repeated(c, i as nat),
        decreases n - i,
    {
        push_char(s, c);
        i += 1;
        assert(s@ =~= old(s)@ + repeated(c, i as nat));
    }
}

/// The parts with `sep` between each two of them.
pub open spec fn joined(parts: Seq<Seq<char>>, sep: Seq<char>) -> Seq<char>
    decreases parts.len(),
{
    if parts.len() == 0 {
        Seq::empty()
    } else if parts.len() == 1 {
        parts[0]
    } else {
        joined(parts.drop_last(), sep) + sep + parts.last()
    }
}

/// The characters of each string slice.
pub open spec fn str_views(parts: Seq<&str>) -> Seq<Seq<char>> {
    Seq::new(parts.len(), |i: int| parts[i]@)
}

/// The characters of each string.
pub open spec fn string_views(parts: Seq<String>) -> Seq<Seq<char>> {
    Seq::new(parts.len(), |i: int| parts[i]@)
}

proof fn lemma_joined_step(parts: Seq<Seq<char>>, sep: Seq<char>, i: int)
    requires
        0 <= i < parts.len(),
    ensures
        joined(parts.take(i + 1), sep) == if i == 0 {
            parts[0]
        } else {
            joined(parts.take(i), sep) + sep + parts[i]
        },
{
    assert(parts.take(i + 1).drop_last() =~= parts.take(i));
}

/// `[T]::join` for string slices: the parts with `sep` between each two.
pub fn join_strs(parts: &[&str], sep: &str) -> (s: String)
    ensures
        s@ == joined(str_views(parts@), sep@),
{
    let ghost v = str_views(parts@);
    let mut s = String::new();
    let mut i: usize = 0;
    while i < parts.len()
        invariant
            v == str_views(parts@),
            i <= parts@.len(),
            s@ == joined(v.take(i as int), sep@),
        decreases parts@.len() - i,
    {
        proof {
            lemma_joined_step(v, sep@, i as int);
        }
        if i > 0 {
            s.append(sep);
        }
        s.append(parts[i]);
        i += 1;
    }
    assert(v.take(i as int) =~= v);
    s
}

/// `[String]::join`: the parts with `sep` between each two.
pub fn join_strings(parts: &Vec<String>, sep: &str) -> (s: String)
    ensures
        s@ == joined(string_views(parts@), sep@),
{
    let ghost v = string_views(parts@);
    let mut s = String::new();
    let mut i: usize = 0;
    while i < parts.len()
        invariant
            v == string_views(parts@),
            i <= parts@.len(),
            s@ == joined(v.take(i as int), sep@),
        decreases parts@.len() - i,
    {
        proof {
            lemma_joined_step(v, sep@, i as int);
        }
        if i > 0 {
            s.append(sep);
        }
        s.append(parts[i].as_str());
        i += 1;
    }
    assert(v.take(i as int) =~= v);
    s
}

/// How many times `c` occurs in `s`.
pub open spec fn occurrences(s: Seq<char>, c: char) -> nat
    decreases s.len(),
{
    if s.len() == 0 {
        0
    } else {
        occurrences(s.drop_last(), c) + if s.last() == c { 1nat } else { 0nat }
    }
}

/// How many times `c` occurs in `s`.
pub fn count_char(s: &str, c: char) -> (n: usize)
    ensures
        n == occurrences(s@, c),
{
    let v = chars_of(s);
    let mut n: usize = 0;
    let mut i: usize = 0;
    while i < v.len()
        invariant
            v@ == s@,
            i <= v@.len(),
            n == occurrences(v@.take(i as int), c),
            n <= i,
        decreases v@.len() - i,
    {
        assert(v@.take(i + 1).drop_last() =~= v@.take(i as int));
        if v[i] == c {
            n += 1;
        }
        i += 1;
    }
    assert(v@.take(i as int) =~= v@);
    n
}

} // verus!

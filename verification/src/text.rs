//! Characters of strings: white space, trimming, splitting, equality.
use vstd::prelude::*;

verus! {

/// A character with the Unicode White_Space property (what `char::is_whitespace` tests).
pub open spec fn is_whitespace(c: char) -> bool {
    let u = c as u32;
    (9 <= u && u <= 13) || u == 32 || u == 0x85 || u == 0xA0 || u == 0x1680 || (0x2000 <= u && u
        <= 0x200A) || u == 0x2028 || u == 0x2029 || u == 0x202F || u == 0x205F || u == 0x3000
}

/// The first position at or after `i` that does not hold white space.
pub open spec fn trim_start_pos(s: Seq<char>, i: int) -> int
    decreases s.len() - i,
{
    if 0 <= i < s.len() && is_whitespace(s[i]) {
        trim_start_pos(s, i + 1)
    } else {
        i
    }
}

/// The position after the last character before `j` that is not white space.
pub open spec fn trim_end_pos(s: Seq<char>, j: int) -> int
    decreases j,
{
    if 0 < j <= s.len() && is_whitespace(s[j - 1]) {
        trim_end_pos(s, j - 1)
    } else {
        j
    }
}

/// `s` without its leading white space.
pub open spec fn trim_start(s: Seq<char>) -> Seq<char> {
    s.subrange(trim_start_pos(s, 0), s.len() as int)
}

/// `s` without its leading and trailing white space.
pub open spec fn trim(s: Seq<char>) -> Seq<char> {
    let a = trim_start_pos(s, 0);
    let b = trim_end_pos(s, s.len() as int);
    if a < b {
        s.subrange(a, b)
    } else {
        Seq::empty()
    }
}

#[derive(Clone, Copy)]
pub enum Sep {
    /// A space or a tabulation.
    Blank,
    /// A colon.
    Colon,
    /// A number sign.
    Hash,
}

pub open spec fn is_sep(c: char, k: Sep) -> bool {
    match k {
        Sep::Blank => c == ' ' || c == '\t',
        Sep::Colon => c == ':',
        Sep::Hash => c == '#',
    }
}

/// The first position at or after `i` that holds a separator of kind `k`, or the length.
pub open spec fn sep_from(s: Seq<char>, i: int, k: Sep) -> int
    decreases s.len() - i,
{
    if 0 <= i < s.len() && !is_sep(s[i], k) {
        sep_from(s, i + 1, k)
    } else {
        i
    }
}

/// The pieces of `s` from `i` between separators of kind `k` (what `str::split` gives).
pub open spec fn pieces(s: Seq<char>, i: int, k: Sep) -> Seq<Seq<char>>
    decreases s.len() - i,
{
    let j = sep_from(s, i, k);
    if j >= s.len() || j < i {
        seq![s.subrange(i, s.len() as int)]
    } else {
        seq![s.subrange(i, j)] + pieces(s, j + 1, k)
    }
}

pub proof fn lemma_sep_from(s: Seq<char>, i: int, k: Sep)
    requires
        0 <= i <= s.len(),
    ensures
        i <= sep_from(s, i, k) <= s.len(),
        sep_from(s, i, k) < s.len() ==> is_sep(s[sep_from(s, i, k)], k),
        forall|p: int| i <= p < sep_from(s, i, k) ==> !is_sep(#[trigger] s[p], k),
    decreases s.len() - i,
{
    if 0 <= i < s.len() && !is_sep(s[i], k) {
        lemma_sep_from(s, i + 1, k);
    }
}

/// The first piece, and whether there are more.
pub proof fn lemma_pieces(s: Seq<char>, i: int, k: Sep)
    requires
        0 <= i <= s.len(),
    ensures
        pieces(s, i, k).len() >= 1,
        pieces(s, i, k)[0] == s.subrange(i, sep_from(s, i, k)),
        sep_from(s, i, k) < s.len() ==> pieces(s, i, k).drop_first() == pieces(
            s,
            sep_from(s, i, k) + 1,
            k,
        ),
        sep_from(s, i, k) >= s.len() ==> pieces(s, i, k).len() == 1,
{
    lemma_sep_from(s, i, k);
    let j = sep_from(s, i, k);
    if j < s.len() {
        assert(pieces(s, i, k).drop_first() =~= pieces(s, j + 1, k));
    }
}

/// Whether `s` holds no separator of kind `k`.
pub open spec fn no_sep(s: Seq<char>, k: Sep) -> bool {
    forall|i: int| 0 <= i < s.len() ==> !is_sep(#[trigger] s[i], k)
}

proof fn lemma_sep_from_shift(p: Seq<char>, q: Seq<char>, j: int, k: Sep)
    requires
        0 <= j <= q.len(),
    ensures
        sep_from(p + q, p.len() + j, k) == p.len() + sep_from(q, j, k),
    decreases q.len() - j,
{
    let s = p + q;
    if j < q.len() {
        assert(s[p.len() + j] == q[j]);
        if !is_sep(q[j], k) {
            lemma_sep_from_shift(p, q, j + 1, k);
        }
    }
}

/// The pieces of a text from a position past a prefix are those of the rest.
pub proof fn lemma_pieces_shift(p: Seq<char>, q: Seq<char>, j: int, k: Sep)
    requires
        0 <= j <= q.len(),
    ensures
        pieces(p + q, p.len() + j, k) == pieces(q, j, k),
    decreases q.len() - j,
{
    let s = p + q;
    lemma_sep_from_shift(p, q, j, k);
    lemma_sep_from(q, j, k);
    let e = sep_from(q, j, k);
    assert(s.subrange(p.len() + j, p.len() + e) =~= q.subrange(j, e));
    assert(s.subrange(p.len() + j, s.len() as int) =~= q.subrange(j, q.len() as int));
    if e < q.len() {
        lemma_pieces_shift(p, q, e + 1, k);
    }
}

/// A text without separator is one piece.
pub proof fn lemma_pieces_single(x: Seq<char>, k: Sep)
    requires
        no_sep(x, k),
    ensures
        pieces(x, 0, k) == seq![x],
{
    lemma_sep_from(x, 0, k);
    if sep_from(x, 0, k) < x.len() {
        assert(is_sep(x[sep_from(x, 0, k)], k));
    }
    assert(x.subrange(0, x.len() as int) =~= x);
}

/// A text without separator, a separator, then more text: the first piece is the text
/// before the separator, the others those of the text after it.
pub proof fn lemma_pieces_cons(x: Seq<char>, c: char, y: Seq<char>, k: Sep)
    requires
        no_sep(x, k),
        is_sep(c, k),
    ensures
        pieces(x + seq![c] + y, 0, k) == seq![x] + pieces(y, 0, k),
{
    let s = x + seq![c] + y;
    let n = x.len() as int;
    lemma_sep_from(s, 0, k);
    let e = sep_from(s, 0, k);
    assert(s[n] == c);
    if e < n {
        assert(s[e] == x[e]);
    }
    if e > n {
        assert(!is_sep(s[n], k));
    }
    assert(e == n);
    assert(s.subrange(0, n) =~= x);
    assert(s =~= (x + seq![c]) + y);
    lemma_pieces_shift(x + seq![c], y, 0, k);
    assert(pieces(s, 0, k) =~= seq![x] + pieces(s, n + 1, k));
}

/// A text that neither starts nor ends with white space is its own trim, and so is it
/// followed by one space.
pub proof fn lemma_trim_plain(s: Seq<char>)
    requires
        s.len() > 0,
        !is_whitespace(s[0]),
        !is_whitespace(s.last()),
    ensures
        trim(s) == s,
        trim(s + seq![' ']) == s,
{
    let t = s + seq![' '];
    assert(trim_start_pos(s, 0) == 0);
    assert(trim_end_pos(s, s.len() as int) == s.len());
    assert(s.subrange(0, s.len() as int) =~= s);
    assert(t[0] == s[0]);
    assert(trim_start_pos(t, 0) == 0);
    assert(t[t.len() - 1] == ' ');
    assert(t[s.len() - 1] == s.last());
    assert(trim_end_pos(t, s.len() as int) == s.len());
    assert(trim_end_pos(t, t.len() as int) == s.len());
    assert(t.subrange(0, s.len() as int) =~= s);
}

/// The characters of a text.
pub fn chars_of(text: &str) -> (r: Vec<char>)
    ensures
        r@ == text@,
{
    let mut chars: Vec<char> = Vec::new();
    for c in it: text.chars()
        invariant
            chars@ == it.seq().take(it.index() as int),
            it.seq() == text@,
    {
        chars.push(c);
    }
    assert(chars@ == text@);
    chars
}

/// Whether two texts are equal, character by character.
pub fn str_eq(a: &str, b: &str) -> (r: bool)
    ensures
        r == (a@ == b@),
{
    let x = a.as_bytes();
    let y = b.as_bytes();
    proof {
        vstd::utf8::encode_utf8_decode_utf8(a@);
        vstd::utf8::encode_utf8_decode_utf8(b@);
    }
    if x.len() != y.len() {
        return false;
    }
    let mut i: usize = 0;
    while i < x.len()
        invariant
            i <= x@.len(),
            x@.len() == y@.len(),
            x@ == vstd::utf8::encode_utf8(a@),
            y@ == vstd::utf8::encode_utf8(b@),
            forall|j: int| 0 <= j < i ==> x@[j] == y@[j],
        decreases x.len() - i,
    {
        if x[i] != y[i] {
            assert(x@[i as int] != y@[i as int]);
            return false;
        }
        i += 1;
    }
    assert(x@ =~= y@);
    true
}

pub fn is_whitespace_char(c: char) -> (r: bool)
    ensures
        r == is_whitespace(c),
{
    let u = c as u32;
    (9 <= u && u <= 13) || u == 32 || u == 0x85 || u == 0xA0 || u == 0x1680 || (0x2000 <= u && u
        <= 0x200A) || u == 0x2028 || u == 0x2029 || u == 0x202F || u == 0x205F || u == 0x3000
}

/// The first position at or after `i` that does not hold white space.
pub fn trim_start_index(s: &Vec<char>, i: usize) -> (r: usize)
    requires
        i <= s@.len(),
    ensures
        r as int == trim_start_pos(s@, i as int),
        i <= r <= s@.len(),
{
    let mut p = i;
    while p < s.len() && is_whitespace_char(s[p])
        invariant
            i <= p <= s@.len(),
            trim_start_pos(s@, i as int) == trim_start_pos(s@, p as int),
        decreases s@.len() - p,
    {
        p += 1;
    }
    p
}

/// The position after the last character before `j` that is not white space.
pub fn trim_end_index(s: &Vec<char>, j: usize) -> (r: usize)
    requires
        j <= s@.len(),
    ensures
        r as int == trim_end_pos(s@, j as int),
        r <= j,
{
    let mut p = j;
    while p > 0 && is_whitespace_char(s[p - 1])
        invariant
            p <= j <= s@.len(),
            trim_end_pos(s@, j as int) == trim_end_pos(s@, p as int),
        decreases p,
    {
        p -= 1;
    }
    p
}

/// The first position at or after `i` that holds a separator of kind `k`, or the length.
pub fn sep_index(s: &Vec<char>, i: usize, k: Sep) -> (r: usize)
    requires
        i <= s@.len(),
    ensures
        r as int == sep_from(s@, i as int, k),
        i <= r <= s@.len(),
{
    let mut p = i;
    while p < s.len() && !is_sep_char(s[p], k)
        invariant
            i <= p <= s@.len(),
            sep_from(s@, i as int, k) == sep_from(s@, p as int, k),
        decreases s@.len() - p,
    {
        p += 1;
    }
    p
}

fn is_sep_char(c: char, k: Sep) -> (r: bool)
    ensures
        r == is_sep(c, k),
{
    match k {
        Sep::Blank => c == ' ' || c == '\t',
        Sep::Colon => c == ':',
        Sep::Hash => c == '#',
    }
}

} // verus!

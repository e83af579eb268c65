//! The labels that the graph of talkers shows.
use vstd::prelude::*;

use vstd::utf8::{decode_utf8, encode_utf8, is_char_boundary};

use crate::text;

verus! {

/// The first position at or after `i` that holds a line feed, or the length.
pub open spec fn line_end(s: Seq<char>, i: int) -> int
    decreases s.len() - i,
{
    if 0 <= i < s.len() && s[i] != '\n' {
        line_end(s, i + 1)
    } else {
        i
    }
}

/// The text that a label shows: its first line, without leading white space.
pub open spec fn label_text(s: Seq<char>) -> Seq<char> {
    let t = text::trim_start(s);
    t.take(line_end(t, 0))
}

pub open spec fn ellipsis() -> Seq<char> {
    seq!['.', '.', '.']
}

/// A label of at most `max_len` bytes of text, cut at a character boundary.
pub open spec fn cut_fits(s: Seq<char>, max_len: usize) -> bool {
    encode_utf8(label_text(s)).len() > max_len ==> is_char_boundary(
        encode_utf8(label_text(s)),
        max_len as int,
    )
}

/// The label that [`format_label`] makes of a text: its first line without leading white
/// space; `...` when that is empty; its first `max_len` bytes followed by `...` when it is
/// longer.
pub open spec fn label_of(s: Seq<char>, max_len: usize) -> Seq<char> {
    if label_text(s).len() == 0 {
        ellipsis()
    } else if encode_utf8(label_text(s)).len() > max_len {
        decode_utf8(encode_utf8(label_text(s)).take(max_len as int)) + ellipsis()
    } else {
        label_text(s)
    }
}

/// `str::to_uppercase`, the Unicode upper case of a text.
pub uninterp spec fn uppercase(s: Seq<char>) -> Seq<char>;

/// `str::to_uppercase`: its result is named [`uppercase`] of the text; nothing more is
/// stated of the Unicode case mapping.
#[verifier::external_body]
fn to_uppercase(s: &str) -> (r: String)
    ensures
        r@ == uppercase(s@),
{
    s.to_uppercase()
}

/// The label of a text: its first line without leading white space; `...` when that is
/// empty; its first `max_len` bytes followed by `...` when it is longer.
pub fn format_label(s: &str, max_len: usize) -> (r: String)
    requires
        cut_fits(s@, max_len),
    ensures
        r@ == label_of(s@, max_len),
{
    let chars = text::chars_of(s);
    let a = text::trim_start_index(&chars, 0);
    let mut e = a;
    while e < chars.len() && chars[e] != '\n'
        invariant
            a <= e <= chars@.len(),
            line_end(chars@.subrange(a as int, chars@.len() as int), 0) == line_end(
                chars@.subrange(a as int, chars@.len() as int),
                e - a,
            ),
        decreases chars@.len() - e,
    {
        e += 1;
    }
    let label = s.substring_char(a, e);
    assert(label@ =~= label_text(s@));
    proof {
        reveal_strlit("...");
        assert("..."@ =~= ellipsis());
    }
    if label.is_empty() {
        return "...".to_owned();
    }
    if label.as_bytes().len() > max_len {
        let (head, _) = label.split_at(max_len);
        proof {
            vstd::utf8::encode_utf8_decode_utf8(head@);
            assert(encode_utf8(head@) =~= encode_utf8(label@).take(max_len as int));
            assert(head@ == decode_utf8(encode_utf8(label@).take(max_len as int)));
        }
        let mut r = head.to_owned();
        r.append("...");
        r
    } else {
        label.to_owned()
    }
}

/// The label of a name: at most 24 bytes of text.
pub fn format_name(s: &str) -> (r: String)
    requires
        cut_fits(s@, 24),
    ensures
        r@ == label_of(s@, 24),
{
    format_label(s, 24)
}

/// The label of a tag: the tag in upper case.
pub fn format_tag(s: &str) -> (r: String)
    ensures
        r@ == uppercase(s@),
{
    to_uppercase(s)
}

proof fn lemma_encode_concat(a: Seq<char>, b: Seq<char>)
    ensures
        encode_utf8(a + b) == encode_utf8(a) + encode_utf8(b),
    decreases a.len(),
{
    if a.len() == 0 {
        assert(a + b =~= b);
        assert(encode_utf8(a) + encode_utf8(b) =~= encode_utf8(b));
    } else {
        lemma_encode_concat(a.drop_first(), b);
        assert((a + b).drop_first() =~= a.drop_first() + b);
        assert((a + b)[0] == a[0]);
        assert(encode_utf8(a + b) =~= encode_utf8(a) + encode_utf8(b));
    }
}

proof fn lemma_line_end(s: Seq<char>, i: int)
    requires
        0 <= i <= s.len(),
    ensures
        i <= line_end(s, i) <= s.len(),
        forall|j: int| i <= j < line_end(s, i) ==> #[trigger] s[j] != '\n',
        line_end(s, i) < s.len() ==> s[line_end(s, i)] == '\n',
    decreases s.len() - i,
{
    if i < s.len() && s[i] != '\n' {
        lemma_line_end(s, i + 1);
    }
}

proof fn lemma_trim_start_pos(s: Seq<char>, i: int)
    requires
        0 <= i <= s.len(),
    ensures
        i <= text::trim_start_pos(s, i) <= s.len(),
        text::trim_start_pos(s, i) < s.len() ==> !text::is_whitespace(
            s[text::trim_start_pos(s, i)],
        ),
        !(i < s.len() && text::is_whitespace(s[i])) ==> text::trim_start_pos(s, i) == i,
    decreases s.len() - i,
{
    if i < s.len() && text::is_whitespace(s[i]) {
        lemma_trim_start_pos(s, i + 1);
    }
}

/// A label text holds no line feed and, when it is not empty, does not start with white
/// space.
proof fn lemma_label_text(s: Seq<char>)
    ensures
        forall|j: int| 0 <= j < label_text(s).len() ==> #[trigger] label_text(s)[j] != '\n',
        label_text(s).len() > 0 ==> !text::is_whitespace(label_text(s)[0]),
{
    let t = text::trim_start(s);
    lemma_trim_start_pos(s, 0);
    lemma_line_end(t, 0);
    let l = label_text(s);
    assert forall|j: int| 0 <= j < l.len() implies #[trigger] l[j] != '\n' by {
        assert(l[j] == t[j]);
    }
    if l.len() > 0 {
        assert(l[0] == t[0]);
        assert(t[0] == s[text::trim_start_pos(s, 0)]);
    }
}

/// A text without line feed that does not start with white space is its own label text.
proof fn lemma_label_text_of_line(r: Seq<char>)
    requires
        r.len() > 0,
        !text::is_whitespace(r[0]),
        forall|j: int| 0 <= j < r.len() ==> #[trigger] r[j] != '\n',
    ensures
        label_text(r) == r,
{
    lemma_trim_start_pos(r, 0);
    assert(text::trim_start(r) =~= r);
    lemma_line_end(r, 0);
    if line_end(r, 0) < r.len() {
        assert(r[line_end(r, 0)] != '\n');
    }
    assert(r.take(r.len() as int) =~= r);
}

proof fn lemma_ellipsis()
    ensures
        label_text(ellipsis()) == ellipsis(),
        encode_utf8(ellipsis()) == seq![46u8, 46u8, 46u8],
{
    let e = ellipsis();
    assert(!text::is_whitespace('.'));
    lemma_label_text_of_line(e);
    assert(vstd::utf8::is_ascii_chars(e));
    vstd::utf8::is_ascii_chars_encode_utf8(e);
    assert(encode_utf8(e) =~= seq![46u8, 46u8, 46u8]);
}

/// Making the label of a label changes nothing, for labels of at least the three bytes
/// of `...`.
pub proof fn lemma_format_label_idempotent(s: Seq<char>, max_len: usize)
    requires
        max_len >= 3,
        cut_fits(s, max_len),
    ensures
        cut_fits(label_of(s, max_len), max_len),
        label_of(label_of(s, max_len), max_len) == label_of(s, max_len),
{
    let l = label_text(s);
    let m = max_len as int;
    let r = label_of(s, max_len);
    lemma_ellipsis();
    lemma_label_text(s);
    if l.len() == 0 {
        assert(r == ellipsis());
    } else if encode_utf8(l).len() > max_len {
        let e = encode_utf8(l);
        let p = decode_utf8(e.take(m));
        vstd::utf8::encode_utf8_valid_utf8(l);
        vstd::utf8::valid_utf8_split(e, m);
        vstd::utf8::decode_utf8_split(e, m);
        vstd::utf8::encode_utf8_decode_utf8(l);
        assert(e.subrange(0, m) =~= e.take(m));
        vstd::utf8::decode_utf8_encode_utf8(e.take(m));
        let q = decode_utf8(e.subrange(m, e.len() as int));
        assert(l == p + q);
        assert(encode_utf8(p) == e.take(m));
        assert(p.len() > 0) by {
            if p.len() == 0 {
                assert(encode_utf8(p).len() == 0);
            }
        }
        assert(forall|j: int| 0 <= j < p.len() ==> p[j] == l[j]);
        assert(r =~= p + ellipsis());
        assert forall|j: int| 0 <= j < r.len() implies #[trigger] r[j] != '\n' by {
            if j < p.len() {
                assert(r[j] == l[j]);
            } else {
                assert(r[j] == '.');
            }
        }
        assert(r[0] == l[0]);
        lemma_label_text_of_line(r);
        lemma_encode_concat(p, ellipsis());
        let er = encode_utf8(r);
        assert(er == e.take(m) + seq![46u8, 46u8, 46u8]);
        assert(er.len() == m + 3);
        assert(er.take(m) =~= e.take(m));
        vstd::utf8::encode_utf8_valid_utf8(r);
        assert(er[m] == 46u8);
        vstd::utf8::is_char_boundary_iff_not_is_continuation_byte(er, m);
        assert(is_char_boundary(er, m));
    } else {
        assert(r == l);
        lemma_label_text_of_line(l);
    }
}

} // verus!

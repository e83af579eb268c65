//! The tseq language as a mathematical grammar over the characters of a text.
//!
//! Every rule is a spec function from a text and a position to an [`Outcome`]:
//! the rule either recognizes a prefix of the text from that position (and gives
//! the position after it and the value it denotes), rejects the text there (so that
//! an enclosing alternative may try another rule), fails for good (a number with an
//! exponent marker but no exponent digits: no alternative is tried after it), or
//! aborts (a decimal count that does not fit in a machine word).
use vstd::prelude::*;

use crate::parser::PTransition;

verus! {

/// What a rule makes of a text at a position.
pub enum Outcome<T> {
    /// The rule recognized the characters up to this position and denotes this value.
    Parsed(int, T),
    /// The rule does not apply here; an enclosing alternative may try another one.
    Rejected,
    /// The text is wrong for good, at this position, and no other rule may be tried.
    Failed(int),
    /// A count of the text does not fit in a machine word.
    Aborted,
}

/// The same outcome for a rule of another value type, for every outcome that is not `Parsed`.
pub open spec fn stop<A, B>(o: Outcome<A>) -> Outcome<B> {
    match o {
        Outcome::Failed(p) => Outcome::Failed(p),
        Outcome::Aborted => Outcome::Aborted,
        _ => Outcome::Rejected,
    }
}

/// An optional rule: a rejection becomes "absent, nothing recognized".
pub open spec fn opt<T>(o: Outcome<T>, pos: int) -> Outcome<Option<T>> {
    match o {
        Outcome::Parsed(e, v) => Outcome::Parsed(e, Some(v)),
        Outcome::Rejected => Outcome::Parsed(pos, None),
        Outcome::Failed(p) => Outcome::Failed(p),
        Outcome::Aborted => Outcome::Aborted,
    }
}

/// Classes of characters that are recognized by runs.
#[derive(Clone, Copy)]
pub enum CharClass {
    /// A blank of a line: space or tabulation.
    Space,
    /// An ASCII decimal digit.
    Digit,
    /// An ASCII letter or decimal digit.
    Alnum,
    /// A character of an identifier: ASCII letter, decimal digit or underscore.
    IdChar,
}

pub open spec fn is_digit(c: char) -> bool {
    48 <= (c as u32) && (c as u32) <= 57
}

pub open spec fn is_alnum(c: char) -> bool {
    is_digit(c) || (65 <= (c as u32) && (c as u32) <= 90) || (97 <= (c as u32) && (c as u32)
        <= 122)
}

pub open spec fn in_class(c: char, k: CharClass) -> bool {
    match k {
        CharClass::Space => c == ' ' || c == '\t',
        CharClass::Digit => is_digit(c),
        CharClass::Alnum => is_alnum(c),
        CharClass::IdChar => is_alnum(c) || c == '_',
    }
}

/// The end of the longest run of characters of class `k` that starts at `pos`.
pub open spec fn run_end(s: Seq<char>, pos: int, k: CharClass) -> int
    decreases s.len() - pos,
{
    if 0 <= pos < s.len() && in_class(s[pos], k) {
        run_end(s, pos + 1, k)
    } else {
        pos
    }
}

/// Zero or more blanks.
pub open spec fn space0(s: Seq<char>, pos: int) -> int {
    run_end(s, pos, CharClass::Space)
}

pub open spec fn char_is(s: Seq<char>, pos: int, c: char) -> bool {
    0 <= pos < s.len() && s[pos] == c
}

pub open spec fn has_tag(s: Seq<char>, pos: int, t: Seq<char>) -> bool {
    0 <= pos && pos + t.len() <= s.len() && s.subrange(pos, pos + t.len()) == t
}

/// An identifier: one or more letters, digits or underscores.
pub open spec fn id(s: Seq<char>, pos: int) -> Outcome<Seq<char>> {
    let e = run_end(s, pos, CharClass::IdChar);
    if e > pos {
        Outcome::Parsed(e, s.subrange(pos, e))
    } else {
        Outcome::Rejected
    }
}

/// The numeric value of a string of decimal digits.
pub open spec fn digits_value(d: Seq<char>) -> nat
    decreases d.len(),
{
    if d.len() == 0 {
        0
    } else {
        digits_value(d.drop_last()) * 10 + ((d.last() as u32) - 48) as nat
    }
}

/// Blanks then a line feed: the position after the line feed, if there is one.
pub open spec fn newline(s: Seq<char>, pos: int) -> Option<int> {
    let e = space0(s, pos);
    if char_is(s, e, '\n') {
        Some(e + 1)
    } else {
        None
    }
}

/// The end of the longest repetition of `newline` from `pos`.
pub open spec fn newlines_end(s: Seq<char>, pos: int) -> int
    decreases s.len() - pos,
{
    match newline(s, pos) {
        Some(e) => if pos < e <= s.len() {
            newlines_end(s, e)
        } else {
            pos
        },
        None => pos,
    }
}

/// The end of a statement: one or more (possibly blank) lines.
pub open spec fn end(s: Seq<char>, pos: int) -> Outcome<()> {
    match newline(s, pos) {
        Some(e) => Outcome::Parsed(newlines_end(s, e), ()),
        None => Outcome::Rejected,
    }
}

pub open spec fn kw_beat() -> Seq<char> {
    seq!['b', 'e', 'a', 't']
}

pub open spec fn kw_chord() -> Seq<char> {
    seq!['c', 'h', 'o', 'r', 'd']
}

pub open spec fn kw_chords() -> Seq<char> {
    seq!['c', 'h', 'o', 'r', 'd', 's']
}

pub open spec fn kw_hits() -> Seq<char> {
    seq!['h', 'i', 't', 's']
}

pub open spec fn kw_durations() -> Seq<char> {
    seq!['d', 'u', 'r', 'a', 't', 'i', 'o', 'n', 's']
}

pub open spec fn kw_pitchs() -> Seq<char> {
    seq!['p', 'i', 't', 'c', 'h', 's']
}

pub open spec fn kw_velocities() -> Seq<char> {
    seq!['v', 'e', 'l', 'o', 'c', 'i', 't', 'i', 'e', 's']
}

pub open spec fn kw_seq() -> Seq<char> {
    seq!['s', 'e', 'q']
}

pub open spec fn kw_seqout() -> Seq<char> {
    seq!['s', 'e', 'q', 'o', 'u', 't']
}

pub open spec fn kw_midiout() -> Seq<char> {
    seq!['m', 'i', 'd', 'i', 'o', 'u', 't']
}

pub open spec fn kw_line_comment() -> Seq<char> {
    seq![';', ';']
}

pub open spec fn kw_multiline_comment() -> Seq<char> {
    seq![';', ';', ';']
}

/// The header of a definition: keyword, blanks, identifier, `:`.
pub open spec fn head(s: Seq<char>, pos: int, inst: Seq<char>) -> Outcome<Seq<char>> {
    if !has_tag(s, pos, inst) {
        Outcome::Rejected
    } else {
        let p1 = pos + inst.len();
        let p2 = space0(s, p1);
        if p2 == p1 {
            Outcome::Rejected
        } else {
            match id(s, p2) {
                Outcome::Parsed(p3, ident) => {
                    let p4 = space0(s, p3);
                    if char_is(s, p4, ':') {
                        Outcome::Parsed(space0(s, p4 + 1), ident)
                    } else {
                        Outcome::Rejected
                    }
                },
                _ => Outcome::Rejected,
            }
        }
    }
}

/// The `/` separator, with blanks around it.
pub open spec fn on(s: Seq<char>, pos: int) -> Option<int> {
    let e = space0(s, pos);
    if char_is(s, e, '/') {
        Some(space0(s, e + 1))
    } else {
        None
    }
}

pub open spec fn sign_end(s: Seq<char>, pos: int) -> int {
    if char_is(s, pos, '+') || char_is(s, pos, '-') {
        pos + 1
    } else {
        pos
    }
}

/// The end of the digits and point of a decimal number, or -1 when there is no digit.
pub open spec fn mantissa_end(s: Seq<char>, pos: int) -> int {
    let d = run_end(s, pos, CharClass::Digit);
    if d > pos {
        if char_is(s, d, '.') {
            run_end(s, d + 1, CharClass::Digit)
        } else {
            d
        }
    } else if char_is(s, pos, '.') && run_end(s, pos + 1, CharClass::Digit) > pos + 1 {
        run_end(s, pos + 1, CharClass::Digit)
    } else {
        -1
    }
}

/// A decimal number: sign, digits with a point, then an exponent.
/// An exponent marker without digits is a failure.
pub open spec fn decimal(s: Seq<char>, pos: int) -> Outcome<()> {
    let m = mantissa_end(s, sign_end(s, pos));
    if m < 0 {
        Outcome::Rejected
    } else if char_is(s, m, 'e') || char_is(s, m, 'E') {
        let x = sign_end(s, m + 1);
        let y = run_end(s, x, CharClass::Digit);
        if y > x {
            Outcome::Parsed(y, ())
        } else {
            Outcome::Failed(pos)
        }
    } else {
        Outcome::Parsed(m, ())
    }
}

/// `c` is the lower case ASCII letter `l` written in either case.
pub open spec fn same_letter(c: char, l: char) -> bool {
    c == l || (c as u32) + 32 == (l as u32)
}

/// The three letters of `word` (lower case) stand at `pos`, in any case.
pub open spec fn has_word3(s: Seq<char>, pos: int, word: Seq<char>) -> bool {
    0 <= pos && pos + 3 <= s.len() && same_letter(s[pos], word[0]) && same_letter(
        s[pos + 1],
        word[1],
    ) && same_letter(s[pos + 2], word[2])
}

/// A number, kept as the text that writes it: a decimal number, or `nan` or `inf`
/// in any case.
pub open spec fn number(s: Seq<char>, pos: int) -> Outcome<Seq<char>> {
    match decimal(s, pos) {
        Outcome::Parsed(e, _) => Outcome::Parsed(e, s.subrange(pos, e)),
        Outcome::Failed(p) => Outcome::Failed(p),
        _ => if has_word3(s, pos, seq!['n', 'a', 'n']) || has_word3(s, pos, seq!['i', 'n', 'f']) {
            Outcome::Parsed(pos + 3, s.subrange(pos, pos + 3))
        } else {
            Outcome::Rejected
        },
    }
}

/// The text of the number one, the denominator of a ratio that has none.
pub open spec fn one_text() -> Seq<char> {
    seq!['1']
}

pub struct SRatio {
    pub num: Seq<char>,
    pub den: Seq<char>,
}

pub struct SVelocity {
    pub value: Seq<char>,
    pub transition: PTransition,
}

pub struct SHarmonic {
    pub freq_ratio: SRatio,
    pub delay: Option<Seq<char>>,
    pub velocity: Option<SVelocity>,
}

pub struct SHit {
    pub position: Seq<char>,
    pub duration: Option<Seq<char>>,
}

pub struct SPitch {
    pub id: Seq<char>,
    pub transition: PTransition,
}

pub struct SPart {
    pub hitline_id: Seq<char>,
    pub durationline_id: Option<Seq<char>>,
    pub pitchline_id: Option<Seq<char>>,
    pub chordline_id: Option<Seq<char>>,
    pub velocityline_id: Option<Seq<char>>,
    pub mul: Option<Seq<char>>,
}

pub struct SSeqRef {
    pub id: Seq<char>,
    pub mul: Option<nat>,
}

pub enum SFragment {
    Part(SPart),
    SeqRef(SSeqRef),
}

pub struct SSequence {
    pub id: Seq<char>,
    pub beat: Option<Seq<char>>,
    pub fragments: Seq<SFragment>,
}

pub enum SExpression {
    Beat { id: Seq<char>, bpm: nat },
    Chord { id: Seq<char>, harmonics: Seq<SHarmonic> },
    ChordLine { id: Seq<char>, chords: Seq<Seq<char>> },
    DurationLine { id: Seq<char>, durations: Seq<Seq<char>> },
    VelocityLine { id: Seq<char>, velocities: Seq<SVelocity> },
    HitLine { id: Seq<char>, hits: Seq<SHit>, duration: Seq<char> },
    PitchLine { id: Seq<char>, pitchs: Seq<SPitch> },
    Sequence(SSequence),
    SeqOut(SSequence),
    MidiOut(SSequence),
    Nothing,
}

/// Zero or more repetitions of rule `p`; a repetition that recognizes nothing is a rejection.
pub open spec fn many0<T>(
    p: spec_fn(Seq<char>, int) -> Outcome<T>,
    s: Seq<char>,
    pos: int,
) -> Outcome<Seq<T>>
    decreases s.len() - pos,
{
    match p(s, pos) {
        Outcome::Parsed(e, v) => if pos < e && e <= s.len() {
            match many0(p, s, e) {
                Outcome::Parsed(e2, vs) => Outcome::Parsed(e2, seq![v] + vs),
                o => stop(o),
            }
        } else {
            Outcome::Rejected
        },
        Outcome::Rejected => Outcome::Parsed(pos, Seq::empty()),
        Outcome::Failed(p) => Outcome::Failed(p),
        Outcome::Aborted => Outcome::Aborted,
    }
}

/// The values `acc` recognized before, put in front of what a repetition recognizes.
pub open spec fn prepend<T>(acc: Seq<T>, o: Outcome<Seq<T>>) -> Outcome<Seq<T>> {
    match o {
        Outcome::Parsed(e, vs) => Outcome::Parsed(e, acc + vs),
        o => o,
    }
}

/// One step of a repetition whose rule recognizes something.
pub proof fn lemma_many0_step<T>(p: spec_fn(Seq<char>, int) -> Outcome<T>, s: Seq<char>, pos: int)
    requires
        p(s, pos) matches Outcome::Parsed(e, _) && pos < e <= s.len(),
    ensures
        p(s, pos) matches Outcome::Parsed(e, v) && many0(p, s, pos) == prepend(
            seq![v],
            many0(p, s, e),
        ),
{
}

pub proof fn lemma_prepend_prepend<T>(a: Seq<T>, b: Seq<T>, o: Outcome<Seq<T>>)
    ensures
        prepend(a, prepend(b, o)) == prepend(a + b, o),
{
    if let Outcome::Parsed(e, vs) = o {
        assert(a + (b + vs) =~= (a + b) + vs);
    }
}

/// A repetition whose rule rejects at once recognizes nothing.
pub proof fn lemma_many0_stop<T>(p: spec_fn(Seq<char>, int) -> Outcome<T>, s: Seq<char>, pos: int, acc: Seq<T>)
    requires
        p(s, pos) is Rejected,
    ensures
        prepend(acc, many0(p, s, pos)) == Outcome::Parsed(pos, acc),
{
    assert(acc + Seq::<T>::empty() =~= acc);
}

/// A rule, then blanks.
pub open spec fn then_space<T>(o: Outcome<T>, s: Seq<char>) -> Outcome<T> {
    match o {
        Outcome::Parsed(e, v) => Outcome::Parsed(space0(s, e), v),
        o => o,
    }
}

/// `/` then a number then blanks.
pub open spec fn on_number(s: Seq<char>, pos: int) -> Outcome<Seq<char>> {
    match on(s, pos) {
        Some(q) => then_space(number(s, q), s),
        None => Outcome::Rejected,
    }
}

/// A ratio `num [/ den]`; the denominator is one when it is not written.
pub open spec fn ratio(s: Seq<char>, pos: int) -> Outcome<SRatio> {
    match number(s, pos) {
        Outcome::Parsed(p1, num) => match on_number(s, p1) {
            Outcome::Parsed(p2, den) => Outcome::Parsed(p2, SRatio { num, den }),
            Outcome::Rejected => Outcome::Parsed(p1, SRatio { num, den: one_text() }),
            o => stop(o),
        },
        o => stop(o),
    }
}

/// The transition mark that may follow a value, after blanks.
pub open spec fn transition(s: Seq<char>, pos: int) -> (int, PTransition) {
    let q = space0(s, pos);
    if 0 <= q < s.len() {
        let c = s[q];
        if c == '=' {
            (q + 1, PTransition::Linear)
        } else if c == '~' {
            (q + 1, PTransition::Sin)
        } else if c == '<' {
            (q + 1, PTransition::Early)
        } else if c == '>' {
            (q + 1, PTransition::Late)
        } else if c == '°' {
            (q + 1, PTransition::Round)
        } else if c == '!' {
            (q + 1, PTransition::NoTransition)
        } else {
            (q, PTransition::NoTransition)
        }
    } else {
        (q, PTransition::NoTransition)
    }
}

/// A velocity: a number and its transition.
pub open spec fn velocity(s: Seq<char>, pos: int) -> Outcome<SVelocity> {
    match number(s, pos) {
        Outcome::Parsed(p1, value) => {
            let (p2, t) = transition(s, p1);
            Outcome::Parsed(p2, SVelocity { value, transition: t })
        },
        o => stop(o),
    }
}

/// `-`, blanks, a number, blanks.
pub open spec fn join_number(s: Seq<char>, pos: int) -> Outcome<Seq<char>> {
    if char_is(s, pos, '-') {
        then_space(number(s, space0(s, pos + 1)), s)
    } else {
        Outcome::Rejected
    }
}

/// `-`, blanks, a velocity, blanks.
pub open spec fn join_velocity(s: Seq<char>, pos: int) -> Outcome<SVelocity> {
    if char_is(s, pos, '-') {
        then_space(velocity(s, space0(s, pos + 1)), s)
    } else {
        Outcome::Rejected
    }
}

/// A harmonic of a chord: ratio, then optionally a delay, then optionally a velocity.
pub open spec fn harmonic(s: Seq<char>, pos: int) -> Outcome<SHarmonic> {
    match ratio(s, pos) {
        Outcome::Parsed(p1, freq_ratio) => match opt(join_number(s, p1), p1) {
            Outcome::Parsed(p2, delay) => match opt(join_velocity(s, p2), p2) {
                Outcome::Parsed(p3, vel) => Outcome::Parsed(
                    p3,
                    SHarmonic { freq_ratio, delay, velocity: vel },
                ),
                o => stop(o),
            },
            o => stop(o),
        },
        o => stop(o),
    }
}

pub open spec fn harmonic_item() -> spec_fn(Seq<char>, int) -> Outcome<SHarmonic> {
    |s: Seq<char>, pos: int| then_space(harmonic(s, pos), s)
}

pub open spec fn chord_id_item() -> spec_fn(Seq<char>, int) -> Outcome<Seq<char>> {
    |s: Seq<char>, pos: int| then_space(id(s, pos), s)
}

/// A hit: a position, then optionally `-` and a duration.
pub open spec fn hit(s: Seq<char>, pos: int) -> Outcome<SHit> {
    match number(s, pos) {
        Outcome::Parsed(p1, position) => {
            let p2 = space0(s, p1);
            match opt(join_number(s, p2), p2) {
                Outcome::Parsed(p3, duration) => Outcome::Parsed(p3, SHit { position, duration }),
                o => stop(o),
            }
        },
        o => stop(o),
    }
}

pub open spec fn hit_item() -> spec_fn(Seq<char>, int) -> Outcome<SHit> {
    |s: Seq<char>, pos: int| hit(s, pos)
}

pub open spec fn number_item() -> spec_fn(Seq<char>, int) -> Outcome<Seq<char>> {
    |s: Seq<char>, pos: int| then_space(number(s, pos), s)
}

pub open spec fn velocity_item() -> spec_fn(Seq<char>, int) -> Outcome<SVelocity> {
    |s: Seq<char>, pos: int| then_space(velocity(s, pos), s)
}

/// A pitch: letters and digits, then a transition.
pub open spec fn pitch(s: Seq<char>, pos: int) -> Outcome<SPitch> {
    let e = run_end(s, pos, CharClass::Alnum);
    if e > pos {
        let (p2, t) = transition(s, e);
        Outcome::Parsed(p2, SPitch { id: s.subrange(pos, e), transition: t })
    } else {
        Outcome::Rejected
    }
}

pub open spec fn pitch_item() -> spec_fn(Seq<char>, int) -> Outcome<SPitch> {
    |s: Seq<char>, pos: int| then_space(pitch(s, pos), s)
}

/// The character `c` then an identifier.
pub open spec fn marked_id(s: Seq<char>, pos: int, c: char) -> Outcome<Seq<char>> {
    if char_is(s, pos, c) {
        id(s, pos + 1)
    } else {
        Outcome::Rejected
    }
}

/// `*` with blanks around it, then a number.
pub open spec fn mul_number(s: Seq<char>, pos: int) -> Outcome<Seq<char>> {
    let q = space0(s, pos);
    if char_is(s, q, '*') {
        number(s, space0(s, q + 1))
    } else {
        Outcome::Rejected
    }
}

/// The part after the hitline identifier of a part.
pub open spec fn part_tail(s: Seq<char>, p0: int, hitline_id: Seq<char>) -> Outcome<SFragment> {
    match opt(marked_id(s, p0, '&'), p0) {
        Outcome::Parsed(p1, durationline_id) => match opt(marked_id(s, p1, '-'), p1) {
            Outcome::Parsed(p2, pitchline_id) => match opt(marked_id(s, p2, '&'), p2) {
                Outcome::Parsed(p3, chordline_id) => match opt(marked_id(s, p3, '-'), p3) {
                    Outcome::Parsed(p4, velocityline_id) => match opt(mul_number(s, p4), p4) {
                        Outcome::Parsed(p5, mul) => Outcome::Parsed(
                            space0(s, p5),
                            SFragment::Part(
                                SPart {
                                    hitline_id,
                                    durationline_id,
                                    pitchline_id,
                                    chordline_id,
                                    velocityline_id,
                                    mul,
                                },
                            ),
                        ),
                        o => stop(o),
                    },
                    o => stop(o),
                },
                o => stop(o),
            },
            o => stop(o),
        },
        o => stop(o),
    }
}

/// A part: `hits[&durations][-pitchs[&chords][-velocities]][*mul]`.
pub open spec fn part(s: Seq<char>, pos: int) -> Outcome<SFragment> {
    match id(s, pos) {
        Outcome::Parsed(p0, hitline_id) => part_tail(s, p0, hitline_id),
        o => stop(o),
    }
}

/// `*`, blanks, then decimal digits: the end of the digits, or -1.
pub open spec fn mul_digits_end(s: Seq<char>, pos: int) -> int {
    if char_is(s, pos, '*') {
        let q = space0(s, pos + 1);
        let d = run_end(s, q, CharClass::Digit);
        if d > q {
            d
        } else {
            -1
        }
    } else {
        -1
    }
}

/// A reference to a sequence: `@id [* count]`.
pub open spec fn seq_ref(s: Seq<char>, pos: int) -> Outcome<SFragment> {
    match marked_id(s, pos, '@') {
        Outcome::Parsed(p1, ident) => {
            let p2 = space0(s, p1);
            let d = mul_digits_end(s, p2);
            if d < 0 {
                Outcome::Parsed(space0(s, p2), SFragment::SeqRef(SSeqRef { id: ident, mul: None }))
            } else {
                let count = digits_value(s.subrange(space0(s, p2 + 1), d));
                if count > usize::MAX {
                    Outcome::Aborted
                } else {
                    Outcome::Parsed(
                        space0(s, d),
                        SFragment::SeqRef(SSeqRef { id: ident, mul: Some(count) }),
                    )
                }
            }
        },
        o => stop(o),
    }
}

/// A fragment of a sequence: a sequence reference or a part.
pub open spec fn fragment(s: Seq<char>, pos: int) -> Outcome<SFragment> {
    match seq_ref(s, pos) {
        Outcome::Rejected => part(s, pos),
        o => o,
    }
}

pub open spec fn fragment_item() -> spec_fn(Seq<char>, int) -> Outcome<SFragment> {
    |s: Seq<char>, pos: int| fragment(s, pos)
}

/// The body of a sequence statement, after its keyword:
/// blanks, identifier, `:`, optionally `/ beat`, fragments, end of statement.
pub open spec fn sequence(s: Seq<char>, pos: int) -> Outcome<SSequence> {
    let p0 = space0(s, pos);
    if p0 == pos {
        Outcome::Rejected
    } else {
        match id(s, p0) {
            Outcome::Parsed(p1, ident) => {
                let p2 = space0(s, p1);
                if !char_is(s, p2, ':') {
                    Outcome::Rejected
                } else {
                    let p3 = space0(s, p2 + 1);
                    let ob = match on(s, p3) {
                        Some(q) => then_space(id(s, q), s),
                        None => Outcome::Rejected,
                    };
                    match opt(ob, p3) {
                        Outcome::Parsed(p4, beat) => match many0(fragment_item(), s, p4) {
                            Outcome::Parsed(p5, fragments) => match end(s, p5) {
                                Outcome::Parsed(p6, _) => Outcome::Parsed(
                                    p6,
                                    SSequence { id: ident, beat, fragments },
                                ),
                                o => stop(o),
                            },
                            o => stop(o),
                        },
                        o => stop(o),
                    }
                }
            },
            o => stop(o),
        }
    }
}

pub open spec fn beat(s: Seq<char>, pos: int) -> Outcome<SExpression> {
    match head(s, pos, kw_beat()) {
        Outcome::Parsed(p1, ident) => {
            let d = run_end(s, p1, CharClass::Digit);
            if d == p1 {
                Outcome::Rejected
            } else {
                match end(s, d) {
                    Outcome::Parsed(p2, _) => {
                        let bpm = digits_value(s.subrange(p1, d));
                        if bpm > usize::MAX {
                            Outcome::Aborted
                        } else {
                            Outcome::Parsed(p2, SExpression::Beat { id: ident, bpm })
                        }
                    },
                    o => stop(o),
                }
            }
        },
        o => stop(o),
    }
}

pub open spec fn chord(s: Seq<char>, pos: int) -> Outcome<SExpression> {
    match head(s, pos, kw_chord()) {
        Outcome::Parsed(p1, ident) => match many0(harmonic_item(), s, p1) {
            Outcome::Parsed(p2, harmonics) => match end(s, p2) {
                Outcome::Parsed(p3, _) => Outcome::Parsed(
                    p3,
                    SExpression::Chord { id: ident, harmonics },
                ),
                o => stop(o),
            },
            o => stop(o),
        },
        o => stop(o),
    }
}

pub open spec fn chords(s: Seq<char>, pos: int) -> Outcome<SExpression> {
    match head(s, pos, kw_chords()) {
        Outcome::Parsed(p1, ident) => match many0(chord_id_item(), s, p1) {
            Outcome::Parsed(p2, ids) => match end(s, p2) {
                Outcome::Parsed(p3, _) => Outcome::Parsed(
                    p3,
                    SExpression::ChordLine { id: ident, chords: ids },
                ),
                o => stop(o),
            },
            o => stop(o),
        },
        o => stop(o),
    }
}

pub open spec fn hits(s: Seq<char>, pos: int) -> Outcome<SExpression> {
    match head(s, pos, kw_hits()) {
        Outcome::Parsed(p1, ident) => match many0(hit_item(), s, p1) {
            Outcome::Parsed(p2, hs) => match on(s, p2) {
                Some(p3) => match number(s, p3) {
                    Outcome::Parsed(p4, duration) => match end(s, p4) {
                        Outcome::Parsed(p5, _) => Outcome::Parsed(
                            p5,
                            SExpression::HitLine { id: ident, hits: hs, duration },
                        ),
                        o => stop(o),
                    },
                    o => stop(o),
                },
                None => Outcome::Rejected,
            },
            o => stop(o),
        },
        o => stop(o),
    }
}

pub open spec fn durations(s: Seq<char>, pos: int) -> Outcome<SExpression> {
    match head(s, pos, kw_durations()) {
        Outcome::Parsed(p1, ident) => match many0(number_item(), s, p1) {
            Outcome::Parsed(p2, ds) => Outcome::Parsed(
                p2,
                SExpression::DurationLine { id: ident, durations: ds },
            ),
            o => stop(o),
        },
        o => stop(o),
    }
}

pub open spec fn velocities(s: Seq<char>, pos: int) -> Outcome<SExpression> {
    match head(s, pos, kw_velocities()) {
        Outcome::Parsed(p1, ident) => match many0(velocity_item(), s, p1) {
            Outcome::Parsed(p2, vs) => match end(s, p2) {
                Outcome::Parsed(p3, _) => Outcome::Parsed(
                    p3,
                    SExpression::VelocityLine { id: ident, velocities: vs },
                ),
                o => stop(o),
            },
            o => stop(o),
        },
        o => stop(o),
    }
}

pub open spec fn pitchs(s: Seq<char>, pos: int) -> Outcome<SExpression> {
    match head(s, pos, kw_pitchs()) {
        Outcome::Parsed(p1, ident) => match many0(pitch_item(), s, p1) {
            Outcome::Parsed(p2, ps) => match end(s, p2) {
                Outcome::Parsed(p3, _) => Outcome::Parsed(
                    p3,
                    SExpression::PitchLine { id: ident, pitchs: ps },
                ),
                o => stop(o),
            },
            o => stop(o),
        },
        o => stop(o),
    }
}

pub open spec fn seq(s: Seq<char>, pos: int) -> Outcome<SExpression> {
    if has_tag(s, pos, kw_seq()) {
        match sequence(s, pos + 3) {
            Outcome::Parsed(e, q) => Outcome::Parsed(e, SExpression::Sequence(q)),
            o => stop(o),
        }
    } else {
        Outcome::Rejected
    }
}

pub open spec fn seqout(s: Seq<char>, pos: int) -> Outcome<SExpression> {
    if has_tag(s, pos, kw_seqout()) {
        match sequence(s, pos + 6) {
            Outcome::Parsed(e, q) => Outcome::Parsed(e, SExpression::SeqOut(q)),
            o => stop(o),
        }
    } else {
        Outcome::Rejected
    }
}

pub open spec fn midiout(s: Seq<char>, pos: int) -> Outcome<SExpression> {
    if has_tag(s, pos, kw_midiout()) {
        match sequence(s, pos + 7) {
            Outcome::Parsed(e, q) => Outcome::Parsed(e, SExpression::MidiOut(q)),
            o => stop(o),
        }
    } else {
        Outcome::Rejected
    }
}

/// The first position at or after `pos` where `t` stands, or -1.
pub open spec fn find_tag(s: Seq<char>, pos: int, t: Seq<char>) -> int
    decreases s.len() - pos,
{
    if pos < 0 || pos >= s.len() || pos + t.len() > s.len() {
        -1
    } else if has_tag(s, pos, t) {
        pos
    } else {
        find_tag(s, pos + 1, t)
    }
}

/// `;;` then the rest of the line, then the end of statement.
pub open spec fn line_comment(s: Seq<char>, pos: int) -> Outcome<SExpression> {
    if has_tag(s, pos, kw_line_comment()) {
        let nl = find_tag(s, pos + 2, seq!['\n']);
        if nl < 0 {
            Outcome::Rejected
        } else {
            match end(s, nl) {
                Outcome::Parsed(e, _) => Outcome::Parsed(e, SExpression::Nothing),
                o => stop(o),
            }
        }
    } else {
        Outcome::Rejected
    }
}

/// `;;;` then anything up to the next `;;;`.
pub open spec fn multiline_comment(s: Seq<char>, pos: int) -> Outcome<SExpression> {
    if has_tag(s, pos, kw_multiline_comment()) {
        let close = find_tag(s, pos + 3, kw_multiline_comment());
        if close < 0 {
            Outcome::Rejected
        } else {
            Outcome::Parsed(close + 3, SExpression::Nothing)
        }
    } else {
        Outcome::Rejected
    }
}

/// A blank line or more.
pub open spec fn blank(s: Seq<char>, pos: int) -> Outcome<SExpression> {
    match end(s, pos) {
        Outcome::Parsed(e, _) => Outcome::Parsed(e, SExpression::Nothing),
        o => stop(o),
    }
}

/// One statement of a tseq text: the first of the statement rules that does not reject.
pub open spec fn expression(s: Seq<char>, pos: int) -> Outcome<SExpression> {
    let o1 = beat(s, pos);
    if !(o1 is Rejected) {
        o1
    } else if !(chord(s, pos) is Rejected) {
        chord(s, pos)
    } else if !(chords(s, pos) is Rejected) {
        chords(s, pos)
    } else if !(hits(s, pos) is Rejected) {
        hits(s, pos)
    } else if !(durations(s, pos) is Rejected) {
        durations(s, pos)
    } else if !(pitchs(s, pos) is Rejected) {
        pitchs(s, pos)
    } else if !(velocities(s, pos) is Rejected) {
        velocities(s, pos)
    } else if !(seq(s, pos) is Rejected) {
        seq(s, pos)
    } else if !(seqout(s, pos) is Rejected) {
        seqout(s, pos)
    } else if !(midiout(s, pos) is Rejected) {
        midiout(s, pos)
    } else if !(multiline_comment(s, pos) is Rejected) {
        multiline_comment(s, pos)
    } else if !(line_comment(s, pos) is Rejected) {
        line_comment(s, pos)
    } else {
        blank(s, pos)
    }
}

pub open spec fn expression_item() -> spec_fn(Seq<char>, int) -> Outcome<SExpression> {
    |s: Seq<char>, pos: int| expression(s, pos)
}

/// What a whole tseq text denotes: the statements from its start, when they cover the
/// whole text; else the position where the statements stop; or a failure.
pub enum TextOutcome {
    Statements(Seq<SExpression>),
    StopsAt(int),
    Failed(int),
    Aborted,
}

pub open spec fn text(s: Seq<char>) -> TextOutcome {
    match many0(expression_item(), s, 0) {
        Outcome::Parsed(e, es) => if e == s.len() {
            TextOutcome::Statements(es)
        } else {
            TextOutcome::StopsAt(e)
        },
        Outcome::Failed(p) => TextOutcome::Failed(p),
        Outcome::Aborted => TextOutcome::Aborted,
        Outcome::Rejected => TextOutcome::StopsAt(0),
    }
}

/// Each transition mark denotes its own transition: after blanks, `=` is linear, `~` sine,
/// `<` early, `>` late, `°` round, and `!` or no mark is no transition; a mark is consumed,
/// anything else is left.
pub proof fn lemma_transition_marks(s: Seq<char>, pos: int)
    requires
        0 <= pos <= s.len(),
    ensures
        ({
            let q = space0(s, pos);
            let (e, t) = transition(s, pos);
            let mark = if q < s.len() {
                s[q]
            } else {
                ' '
            };
            &&& t == PTransition::Linear <==> mark == '='
            &&& t == PTransition::Sin <==> mark == '~'
            &&& t == PTransition::Early <==> mark == '<'
            &&& t == PTransition::Late <==> mark == '>'
            &&& t == PTransition::Round <==> mark == '°'
            &&& t == PTransition::NoTransition <==> !(mark == '=' || mark == '~' || mark == '<'
                || mark == '>' || mark == '°')
            &&& e == if mark == '=' || mark == '~' || mark == '<' || mark == '>' || mark == '°'
                || mark == '!' {
                q + 1
            } else {
                q
            }
        }),
{
    lemma_space0_bounds(s, pos);
}

proof fn lemma_space0_bounds(s: Seq<char>, pos: int)
    requires
        0 <= pos <= s.len(),
    ensures
        pos <= space0(s, pos) <= s.len(),
        space0(s, pos) < s.len() ==> s[space0(s, pos)] != ' ' && s[space0(s, pos)] != '\t',
    decreases s.len() - pos,
{
    if pos < s.len() && in_class(s[pos], CharClass::Space) {
        lemma_space0_bounds(s, pos + 1);
    }
}

} // verus!

//! The statements of a tseq text, and the parser that reads them.
//!
//! Every parser here is proved to recognize exactly what the rule of the same name
//! in [`crate::grammar`] recognizes, and to denote the same value.
use vstd::prelude::*;

use crate::grammar::{
    self, CharClass, Outcome, SExpression, SFragment, SHarmonic, SHit, SPart, SPitch, SRatio,
    SSeqRef, SSequence, SVelocity,
};

verus! {

/// How a value moves to the next one.
#[derive(Debug, PartialEq, Eq, Structural, Clone, Copy)]
pub enum PTransition {
    NoTransition,
    Linear,
    Sin,
    Early,
    Late,
    Round,
}

/// A number as written in the text (a decimal number, or `nan` or `inf` in any case).
#[derive(Debug, PartialEq)]
pub struct PNumber {
    pub text: String,
}

impl DeepView for PNumber {
    type V = Seq<char>;

    open spec fn deep_view(&self) -> Seq<char> {
        self.text@
    }
}

#[derive(Debug, PartialEq)]
pub struct PBeat {
    pub id: String,
    pub bpm: usize,
}

#[derive(Debug, PartialEq)]
pub struct PRatio {
    pub num: PNumber,
    pub den: PNumber,
}

impl DeepView for PRatio {
    type V = SRatio;

    open spec fn deep_view(&self) -> SRatio {
        SRatio { num: self.num.deep_view(), den: self.den.deep_view() }
    }
}

#[derive(Debug, PartialEq)]
pub struct PVelocity {
    pub value: PNumber,
    pub transition: PTransition,
}

impl DeepView for PVelocity {
    type V = SVelocity;

    open spec fn deep_view(&self) -> SVelocity {
        SVelocity { value: self.value.deep_view(), transition: self.transition }
    }
}

#[derive(Debug, PartialEq)]
pub struct PHarmonic {
    pub freq_ratio: PRatio,
    pub delay: Option<PNumber>,
    pub velocity: Option<PVelocity>,
}

impl DeepView for PHarmonic {
    type V = SHarmonic;

    open spec fn deep_view(&self) -> SHarmonic {
        SHarmonic {
            freq_ratio: self.freq_ratio.deep_view(),
            delay: self.delay.deep_view(),
            velocity: self.velocity.deep_view(),
        }
    }
}

#[derive(Debug, PartialEq)]
pub struct PChord {
    pub id: String,
    pub harmonics: Vec<PHarmonic>,
}

#[derive(Debug, PartialEq)]
pub struct PChordLine {
    pub id: String,
    pub chords: Vec<String>,
}

#[derive(Debug, PartialEq)]
pub struct PPitch {
    pub id: String,
    pub transition: PTransition,
}

impl DeepView for PPitch {
    type V = SPitch;

    open spec fn deep_view(&self) -> SPitch {
        SPitch { id: self.id@, transition: self.transition }
    }
}

#[derive(Debug, PartialEq)]
pub struct PPitchLine {
    pub id: String,
    pub pitchs: Vec<PPitch>,
}

#[derive(Debug, PartialEq)]
pub struct PHit {
    pub position: PNumber,
    pub duration: Option<PNumber>,
}

impl DeepView for PHit {
    type V = SHit;

    open spec fn deep_view(&self) -> SHit {
        SHit { position: self.position.deep_view(), duration: self.duration.deep_view() }
    }
}

#[derive(Debug, PartialEq)]
pub struct PHitLine {
    pub id: String,
    pub hits: Vec<PHit>,
    pub duration: PNumber,
}

#[derive(Debug, PartialEq)]
pub struct PDurationLine {
    pub id: String,
    pub durations: Vec<PNumber>,
}

#[derive(Debug, PartialEq)]
pub struct PVelocityLine {
    pub id: String,
    pub velocities: Vec<PVelocity>,
}

#[derive(Debug, PartialEq)]
pub struct PPart {
    pub hitline_id: String,
    pub durationline_id: Option<String>,
    pub pitchline_id: Option<String>,
    pub chordline_id: Option<String>,
    pub velocityline_id: Option<String>,
    pub mul: Option<PNumber>,
}

impl DeepView for PPart {
    type V = SPart;

    open spec fn deep_view(&self) -> SPart {
        SPart {
            hitline_id: self.hitline_id@,
            durationline_id: self.durationline_id.deep_view(),
            pitchline_id: self.pitchline_id.deep_view(),
            chordline_id: self.chordline_id.deep_view(),
            velocityline_id: self.velocityline_id.deep_view(),
            mul: self.mul.deep_view(),
        }
    }
}

#[derive(Debug, PartialEq)]
pub struct PSeqRef {
    pub id: String,
    pub mul: Option<usize>,
}

impl DeepView for PSeqRef {
    type V = SSeqRef;

    open spec fn deep_view(&self) -> SSeqRef {
        SSeqRef {
            id: self.id@,
            mul: match self.mul {
                Some(m) => Some(m as nat),
                None => None,
            },
        }
    }
}

#[derive(Debug, PartialEq)]
pub enum PFragment {
    Part(PPart),
    SeqRef(PSeqRef),
}

impl DeepView for PFragment {
    type V = SFragment;

    open spec fn deep_view(&self) -> SFragment {
        match self {
            PFragment::Part(p) => SFragment::Part(p.deep_view()),
            PFragment::SeqRef(r) => SFragment::SeqRef(r.deep_view()),
        }
    }
}

#[derive(Debug, PartialEq)]
pub struct PSequence {
    pub id: String,
    pub beat: Option<String>,
    pub fragments: Vec<PFragment>,
}

impl DeepView for PSequence {
    type V = SSequence;

    open spec fn deep_view(&self) -> SSequence {
        SSequence {
            id: self.id@,
            beat: self.beat.deep_view(),
            fragments: self.fragments.deep_view(),
        }
    }
}

#[derive(Debug, PartialEq)]
pub enum Expression {
    Beat(PBeat),
    Chord(PChord),
    ChordLine(PChordLine),
    DurationLine(PDurationLine),
    VelocityLine(PVelocityLine),
    HitLine(PHitLine),
    PitchLine(PPitchLine),
    Sequence(PSequence),
    SeqOut(PSequence),
    MidiOut(PSequence),
    Nothing,
}

impl DeepView for Expression {
    type V = SExpression;

    open spec fn deep_view(&self) -> SExpression {
        match self {
            Expression::Beat(b) => SExpression::Beat { id: b.id@, bpm: b.bpm as nat },
            Expression::Chord(c) => SExpression::Chord {
                id: c.id@,
                harmonics: c.harmonics.deep_view(),
            },
            Expression::ChordLine(c) => SExpression::ChordLine {
                id: c.id@,
                chords: c.chords.deep_view(),
            },
            Expression::DurationLine(d) => SExpression::DurationLine {
                id: d.id@,
                durations: d.durations.deep_view(),
            },
            Expression::VelocityLine(v) => SExpression::VelocityLine {
                id: v.id@,
                velocities: v.velocities.deep_view(),
            },
            Expression::HitLine(h) => SExpression::HitLine {
                id: h.id@,
                hits: h.hits.deep_view(),
                duration: h.duration.deep_view(),
            },
            Expression::PitchLine(p) => SExpression::PitchLine {
                id: p.id@,
                pitchs: p.pitchs.deep_view(),
            },
            Expression::Sequence(q) => SExpression::Sequence(q.deep_view()),
            Expression::SeqOut(q) => SExpression::SeqOut(q.deep_view()),
            Expression::MidiOut(q) => SExpression::MidiOut(q.deep_view()),
            Expression::Nothing => SExpression::Nothing,
        }
    }
}

/// Why a rule did not recognize its input: it does not apply there (`Error`, an
/// enclosing alternative may try another rule), the input is wrong for good from the
/// given character position on (`Failure`: a number with an exponent marker and no
/// exponent starts there), or a count of the input does not fit in a machine word
/// (`Overflow`).
#[derive(Debug, PartialEq, Eq, Structural, Clone, Copy)]
pub enum PError {
    Error,
    Failure(usize),
    Overflow,
}

/// A failure that a parser reports lies within the text.
pub open spec fn failure_within<T>(r: Result<T, PError>, n: nat) -> bool {
    r matches Err(PError::Failure(q)) ==> q <= n
}

/// A result of a parser at a position agrees with the outcome of its rule there.
pub open spec fn agrees<T: DeepView>(r: Result<(usize, T), PError>, o: Outcome<T::V>) -> bool {
    match o {
        Outcome::Parsed(e, v) => r matches Ok((n, x)) && n as int == e && x.deep_view() == v,
        Outcome::Rejected => r == Err::<(usize, T), PError>(PError::Error),
        Outcome::Failed(p) => r matches Err(PError::Failure(q)) && q == p,
        Outcome::Aborted => r == Err::<(usize, T), PError>(PError::Overflow),
    }
}


/// A text and its characters.
struct Src<'a> {
    text: &'a str,
    chars: Vec<char>,
}

impl<'a> Src<'a> {
    spec fn wf(&self) -> bool {
        self.chars@ == self.text@
    }

    spec fn s(&self) -> Seq<char> {
        self.chars@
    }

    fn new(text: &'a str) -> (r: Src<'a>)
        ensures
            r.wf(),
            r.text == text,
    {
        let mut chars: Vec<char> = Vec::new();
        for c in it: text.chars()
            invariant
                chars@ == it.seq().take(it.index() as int),
                it.seq() == text@,
        {
            chars.push(c);
        }
        assert(chars@ == text@);
        Src { text, chars }
    }

    /// The characters from `a` to `b`, as a string.
    fn slice(&self, a: usize, b: usize) -> (r: String)
        requires
            self.wf(),
            a <= b <= self.chars.len(),
        ensures
            r@ == self.s().subrange(a as int, b as int),
    {
        self.text.substring_char(a, b).to_owned()
    }

    fn char_is(&self, pos: usize, c: char) -> (r: bool)
        ensures
            r == grammar::char_is(self.s(), pos as int, c),
    {
        pos < self.chars.len() && self.chars[pos] == c
    }

    fn has_tag(&self, pos: usize, t: &[char]) -> (r: bool)
        requires
            pos <= self.chars.len(),
        ensures
            r == grammar::has_tag(self.s(), pos as int, t@),
    {
        if t.len() > self.chars.len() - pos {
            return false;
        }
        let mut i: usize = 0;
        while i < t.len()
            invariant
                i <= t.len(),
                pos + t.len() <= self.chars.len(),
                forall|j: int| 0 <= j < i ==> self.s()[pos + j] == t@[j],
            decreases t.len() - i,
        {
            if self.chars[pos + i] != t[i] {
                assert(self.s().subrange(pos as int, pos + t.len())[i as int] != t@[i as int]);
                return false;
            }
            i += 1;
        }
        assert(self.s().subrange(pos as int, pos + t.len()) =~= t@);
        true
    }

    /// The end of the run of characters of class `k` from `pos`.
    fn run(&self, pos: usize, k: CharClass) -> (e: usize)
        requires
            pos <= self.chars.len(),
        ensures
            e as int == grammar::run_end(self.s(), pos as int, k),
            pos <= e <= self.chars.len(),
    {
        let mut i = pos;
        while i < self.chars.len() && in_class(self.chars[i], k)
            invariant
                pos <= i <= self.chars.len(),
                grammar::run_end(self.s(), pos as int, k) == grammar::run_end(self.s(), i as int, k),
            decreases self.chars.len() - i,
        {
            i += 1;
        }
        i
    }

    fn space0(&self, pos: usize) -> (e: usize)
        requires
            pos <= self.chars.len(),
        ensures
            e as int == grammar::space0(self.s(), pos as int),
            pos <= e <= self.chars.len(),
    {
        self.run(pos, CharClass::Space)
    }
}

proof fn lemma_digits_prefix(s: Seq<char>, a: int, i: int, b: int)
    requires
        0 <= a <= i <= b <= s.len(),
    ensures
        grammar::digits_value(s.subrange(a, i)) <= grammar::digits_value(s.subrange(a, b)),
    decreases b - i,
{
    if i < b {
        lemma_digits_prefix(s, a, i, b - 1);
        assert(s.subrange(a, b).drop_last() =~= s.subrange(a, b - 1));
    }
}

impl<'a> Src<'a> {
    /// The value of the decimal digits from `a` to `b`, when it fits in a `usize`.
    fn checked_digits_value(&self, a: usize, b: usize) -> (r: Option<usize>)
        requires
            a <= b <= self.chars.len(),
            forall|j: int| a <= j < b ==> grammar::is_digit(#[trigger] self.s()[j]),
        ensures
            match r {
                Some(v) => v as nat == grammar::digits_value(self.s().subrange(a as int, b as int)),
                None => grammar::digits_value(self.s().subrange(a as int, b as int)) > usize::MAX,
            },
    {
        let mut v: usize = 0;
        let mut i = a;
        assert(self.s().subrange(a as int, a as int) =~= Seq::<char>::empty());
        while i < b
            invariant
                a <= i <= b <= self.chars.len(),
                forall|j: int| a <= j < b ==> grammar::is_digit(#[trigger] self.s()[j]),
                v as nat == grammar::digits_value(self.s().subrange(a as int, i as int)),
            decreases b - i,
        {
            proof {
                lemma_digits_prefix(self.s(), a as int, i + 1, b as int);
                assert(self.s().subrange(a as int, i + 1).drop_last() =~= self.s().subrange(
                    a as int,
                    i as int,
                ));
                assert(grammar::is_digit(self.s()[i as int]));
            }
            let d = (self.chars[i] as u32) - 48;
            let t = match v.checked_mul(10) {
                Some(t) => t,
                None => return None,
            };
            v = match t.checked_add(d as usize) {
                Some(w) => w,
                None => return None,
            };
            i += 1;
        }
        Some(v)
    }

    /// The value of the decimal digits from `a` to `b`.
    fn digits_value(&self, a: usize, b: usize) -> (v: usize)
        requires
            a <= b <= self.chars.len(),
            grammar::digits_value(self.s().subrange(a as int, b as int)) <= usize::MAX,
            forall|j: int| a <= j < b ==> grammar::is_digit(#[trigger] self.s()[j]),
        ensures
            v as nat == grammar::digits_value(self.s().subrange(a as int, b as int)),
    {
        let mut v: usize = 0;
        let mut i = a;
        assert(self.s().subrange(a as int, a as int) =~= Seq::<char>::empty());
        while i < b
            invariant
                a <= i <= b <= self.chars.len(),
                grammar::digits_value(self.s().subrange(a as int, b as int)) <= usize::MAX,
                forall|j: int| a <= j < b ==> grammar::is_digit(#[trigger] self.s()[j]),
                v as nat == grammar::digits_value(self.s().subrange(a as int, i as int)),
            decreases b - i,
        {
            proof {
                lemma_digits_prefix(self.s(), a as int, i + 1, b as int);
                assert(self.s().subrange(a as int, i + 1).drop_last() =~= self.s().subrange(
                    a as int,
                    i as int,
                ));
                assert(grammar::is_digit(self.s()[i as int]));
            }
            let d = (self.chars[i] as u32) - 48;
            v = v * 10 + d as usize;
            i += 1;
        }
        v
    }

    fn id(&self, pos: usize) -> (r: Result<(usize, String), PError>)
        requires
            self.wf(),
            pos <= self.chars.len(),
        ensures
            agrees(r, grammar::id(self.s(), pos as int)),
            failure_within(r, self.chars@.len()),
            r matches Ok((e, _)) ==> pos <= e <= self.chars.len(),
    {
        let e = self.run(pos, CharClass::IdChar);
        if e > pos {
            Ok((e, self.slice(pos, e)))
        } else {
            Err(PError::Error)
        }
    }

    /// Blanks then a line feed.
    fn newline(&self, pos: usize) -> (r: Option<usize>)
        requires
            pos <= self.chars.len(),
        ensures
            r matches Some(e) ==> e as int == grammar::newline(self.s(), pos as int)->0 && grammar::newline(self.s(), pos as int) is Some && pos < e <= self.chars.len(),
            r is None ==> grammar::newline(self.s(), pos as int) is None,
    {
        let e = self.space0(pos);
        if self.char_is(e, '\n') {
            Some(e + 1)
        } else {
            None
        }
    }

    fn end(&self, pos: usize) -> (r: Result<(usize, ()), PError>)
        requires
            pos <= self.chars.len(),
        ensures
            agrees(r, grammar::end(self.s(), pos as int)),
            failure_within(r, self.chars@.len()),
            r matches Ok((e, _)) ==> pos < e <= self.chars.len(),
    {
        match self.newline(pos) {
            None => Err(PError::Error),
            Some(e0) => {
                let mut e = e0;
                loop
                    invariant
                        pos < e <= self.chars.len(),
                        grammar::newlines_end(self.s(), e0 as int) == grammar::newlines_end(self.s(), e as int),
                    ensures
                        pos < e <= self.chars.len(),
                        grammar::newlines_end(self.s(), e0 as int) == e,
                    decreases self.chars.len() - e,
                {
                    match self.newline(e) {
                        Some(e1) => e = e1,
                        None => break,
                    }
                }
                Ok((e, ()))
            }
        }
    }

    fn head(&self, pos: usize, inst: &[char]) -> (r: Result<(usize, String), PError>)
        requires
            self.wf(),
            pos <= self.chars.len(),
        ensures
            agrees(r, grammar::head(self.s(), pos as int, inst@)),
            failure_within(r, self.chars@.len()),
            r matches Ok((e, _)) ==> pos < e <= self.chars.len(),
    {
        if !self.has_tag(pos, inst) {
            return Err(PError::Error);
        }
        let p1 = pos + inst.len();
        let p2 = self.space0(p1);
        if p2 == p1 {
            return Err(PError::Error);
        }
        match self.id(p2) {
            Ok((p3, ident)) => {
                let p4 = self.space0(p3);
                if self.char_is(p4, ':') {
                    Ok((self.space0(p4 + 1), ident))
                } else {
                    Err(PError::Error)
                }
            }
            Err(_) => Err(PError::Error),
        }
    }

    fn beat(&self, pos: usize) -> (r: Result<(usize, Expression), PError>)
        requires
            self.wf(),
            pos <= self.chars.len(),
        ensures
            agrees(r, grammar::beat(self.s(), pos as int)),
            failure_within(r, self.chars@.len()),
            r matches Ok((e, _)) ==> pos < e <= self.chars.len(),
    {
        let kw = ['b', 'e', 'a', 't'];
        assert(kw@ == grammar::kw_beat());
        let (p1, ident) = match self.head(pos, &kw) {
            Ok(x) => x,
            Err(_) => return Err(PError::Error),
        };
        let d = self.run(p1, CharClass::Digit);
        if d == p1 {
            return Err(PError::Error);
        }
        match self.end(d) {
            Ok((p2, _)) => {
                proof { lemma_run_class(self.s(), p1 as int, CharClass::Digit); }
                match self.checked_digits_value(p1, d) {
                    Some(bpm) => Ok((p2, Expression::Beat(PBeat { id: ident, bpm }))),
                    None => Err(PError::Overflow),
                }
            }
            Err(_) => Err(PError::Error),
        }
    }
}

proof fn lemma_deep_view_push<T: DeepView>(a: Vec<T>, b: Vec<T>, x: T)
    requires
        b@ == a@.push(x),
    ensures
        b.deep_view() == a.deep_view().push(x.deep_view()),
        b.deep_view() == a.deep_view() + seq![x.deep_view()],
{
    assert(b.deep_view() =~= a.deep_view().push(x.deep_view()));
    assert(a.deep_view().push(x.deep_view()) =~= a.deep_view() + seq![x.deep_view()]);
}

impl<'a> Src<'a> {
    fn sign_end(&self, pos: usize) -> (e: usize)
        requires
            pos <= self.chars.len(),
        ensures
            e as int == grammar::sign_end(self.s(), pos as int),
            pos <= e <= self.chars.len(),
    {
        if self.char_is(pos, '+') || self.char_is(pos, '-') {
            pos + 1
        } else {
            pos
        }
    }

    fn mantissa_end(&self, pos: usize) -> (r: Option<usize>)
        requires
            pos <= self.chars.len(),
        ensures
            r matches Some(e) ==> e as int == grammar::mantissa_end(self.s(), pos as int) && pos
                < e <= self.chars.len(),
            r is None ==> grammar::mantissa_end(self.s(), pos as int) < 0,
    {
        let d = self.run(pos, CharClass::Digit);
        if d > pos {
            if self.char_is(d, '.') {
                Some(self.run(d + 1, CharClass::Digit))
            } else {
                Some(d)
            }
        } else if self.char_is(pos, '.') && self.run(pos + 1, CharClass::Digit) > pos + 1 {
            Some(self.run(pos + 1, CharClass::Digit))
        } else {
            None
        }
    }

    fn decimal(&self, pos: usize) -> (r: Result<(usize, ()), PError>)
        requires
            pos <= self.chars.len(),
        ensures
            agrees(r, grammar::decimal(self.s(), pos as int)),
            failure_within(r, self.chars@.len()),
            r matches Ok((e, _)) ==> pos < e <= self.chars.len(),
    {
        let p0 = self.sign_end(pos);
        match self.mantissa_end(p0) {
            None => Err(PError::Error),
            Some(m) => {
                if self.char_is(m, 'e') || self.char_is(m, 'E') {
                    let x = self.sign_end(m + 1);
                    let y = self.run(x, CharClass::Digit);
                    if y > x {
                        Ok((y, ()))
                    } else {
                        Err(PError::Failure(pos))
                    }
                } else {
                    Ok((m, ()))
                }
            },
        }
    }

    fn has_word3(&self, pos: usize, w: &[char; 3]) -> (r: bool)
        requires
            pos <= self.chars.len(),
        ensures
            r == grammar::has_word3(self.s(), pos as int, w@),
    {
        3 <= self.chars.len() - pos && same_letter(self.chars[pos], w[0]) && same_letter(
            self.chars[pos + 1],
            w[1],
        ) && same_letter(self.chars[pos + 2], w[2])
    }

    fn number(&self, pos: usize) -> (r: Result<(usize, PNumber), PError>)
        requires
            self.wf(),
            pos <= self.chars.len(),
        ensures
            agrees(r, grammar::number(self.s(), pos as int)),
            failure_within(r, self.chars@.len()),
            r matches Ok((e, _)) ==> pos < e <= self.chars.len(),
    {
        match self.decimal(pos) {
            Ok((e, _)) => {
                Ok((e, PNumber { text: self.slice(pos, e) }))
            },
            Err(PError::Error) => {
                let nan = ['n', 'a', 'n'];
                let inf = ['i', 'n', 'f'];
                assert(nan@ == seq!['n', 'a', 'n']);
                assert(inf@ == seq!['i', 'n', 'f']);
                if self.has_word3(pos, &nan) || self.has_word3(pos, &inf) {
                    Ok((pos + 3, PNumber { text: self.slice(pos, pos + 3) }))
                } else {
                    Err(PError::Error)
                }
            },
            Err(e) => Err(e),
        }
    }

    fn transition(&self, pos: usize) -> (r: (usize, PTransition))
        requires
            pos <= self.chars.len(),
        ensures
            r.0 as int == grammar::transition(self.s(), pos as int).0,
            r.1 == grammar::transition(self.s(), pos as int).1,
            pos <= r.0 <= self.chars.len(),
    {
        let q = self.space0(pos);
        if q < self.chars.len() {
            let c = self.chars[q];
            if c == '=' {
                (q + 1, PTransition::Linear)
            } else if c == '~' {
                (q + 1, PTransition::Sin)
            } else if c == '<' {
                (q + 1, PTransition::Early)
            } else if c == '>' {
                (q + 1, PTransition::Late)
            } else if c == '°' {
                (q + 1, PTransition::Round)
            } else if c == '!' {
                (q + 1, PTransition::NoTransition)
            } else {
                (q, PTransition::NoTransition)
            }
        } else {
            (q, PTransition::NoTransition)
        }
    }

    fn on(&self, pos: usize) -> (r: Option<usize>)
        requires
            pos <= self.chars.len(),
        ensures
            r matches Some(e) ==> grammar::on(self.s(), pos as int) == Some(e as int) && pos <= e
                <= self.chars.len(),
            r is None ==> grammar::on(self.s(), pos as int) is None,
    {
        let e = self.space0(pos);
        if self.char_is(e, '/') {
            Some(self.space0(e + 1))
        } else {
            None
        }
    }

    fn on_number(&self, pos: usize) -> (r: Result<(usize, PNumber), PError>)
        requires
            self.wf(),
            pos <= self.chars.len(),
        ensures
            agrees(r, grammar::on_number(self.s(), pos as int)),
            failure_within(r, self.chars@.len()),
            r matches Ok((e, _)) ==> pos <= e <= self.chars.len(),
    {
        match self.on(pos) {
            Some(q) => match self.number(q) {
                Ok((e, v)) => Ok((self.space0(e), v)),
                Err(x) => Err(x),
            },
            None => Err(PError::Error),
        }
    }

    fn ratio(&self, pos: usize) -> (r: Result<(usize, PRatio), PError>)
        requires
            self.wf(),
            pos <= self.chars.len(),
        ensures
            agrees(r, grammar::ratio(self.s(), pos as int)),
            failure_within(r, self.chars@.len()),
            r matches Ok((e, _)) ==> pos < e <= self.chars.len(),
    {
        match self.number(pos) {
            Ok((p1, num)) => match self.on_number(p1) {
                Ok((p2, den)) => Ok((p2, PRatio { num, den })),
                Err(PError::Error) => {
                    proof {
                        reveal_strlit("1");
                    }
                    let one = "1".to_owned();
                    assert(one@ == grammar::one_text());
                    Ok((p1, PRatio { num, den: PNumber { text: one } }))
                },
                Err(e) => Err(e),
            },
            Err(x) => Err(x),
        }
    }

    fn velocity(&self, pos: usize) -> (r: Result<(usize, PVelocity), PError>)
        requires
            self.wf(),
            pos <= self.chars.len(),
        ensures
            agrees(r, grammar::velocity(self.s(), pos as int)),
            failure_within(r, self.chars@.len()),
            r matches Ok((e, _)) ==> pos < e <= self.chars.len(),
    {
        match self.number(pos) {
            Ok((p1, value)) => {
                let (p2, t) = self.transition(p1);
                Ok((p2, PVelocity { value, transition: t }))
            },
            Err(x) => Err(x),
        }
    }

    fn join_number(&self, pos: usize) -> (r: Result<(usize, PNumber), PError>)
        requires
            self.wf(),
            pos <= self.chars.len(),
        ensures
            agrees(r, grammar::join_number(self.s(), pos as int)),
            failure_within(r, self.chars@.len()),
            r matches Ok((e, _)) ==> pos <= e <= self.chars.len(),
    {
        if self.char_is(pos, '-') {
            match self.number(self.space0(pos + 1)) {
                Ok((e, v)) => Ok((self.space0(e), v)),
                Err(x) => Err(x),
            }
        } else {
            Err(PError::Error)
        }
    }

    fn join_velocity(&self, pos: usize) -> (r: Result<(usize, PVelocity), PError>)
        requires
            self.wf(),
            pos <= self.chars.len(),
        ensures
            agrees(r, grammar::join_velocity(self.s(), pos as int)),
            failure_within(r, self.chars@.len()),
            r matches Ok((e, _)) ==> pos <= e <= self.chars.len(),
    {
        if self.char_is(pos, '-') {
            match self.velocity(self.space0(pos + 1)) {
                Ok((e, v)) => Ok((self.space0(e), v)),
                Err(x) => Err(x),
            }
        } else {
            Err(PError::Error)
        }
    }

    fn harmonic(&self, pos: usize) -> (r: Result<(usize, PHarmonic), PError>)
        requires
            self.wf(),
            pos <= self.chars.len(),
        ensures
            agrees(r, grammar::harmonic(self.s(), pos as int)),
            failure_within(r, self.chars@.len()),
            r matches Ok((e, _)) ==> pos < e <= self.chars.len(),
    {
        let (p1, freq_ratio) = match self.ratio(pos) {
            Ok(x) => x,
            Err(x) => return Err(x),
        };
        let (p2, delay) = match self.join_number(p1) {
            Ok((p2, d)) => (p2, Some(d)),
            Err(PError::Error) => (p1, None),
            Err(e) => return Err(e),
        };
        let (p3, velocity) = match self.join_velocity(p2) {
            Ok((p3, v)) => (p3, Some(v)),
            Err(PError::Error) => (p2, None),
            Err(e) => return Err(e),
        };
        Ok((p3, PHarmonic { freq_ratio, delay, velocity }))
    }

    fn harmonic_item(&self, pos: usize) -> (r: Result<(usize, PHarmonic), PError>)
        requires
            self.wf(),
            pos <= self.chars.len(),
        ensures
            agrees(r, (grammar::harmonic_item())(self.s(), pos as int)),
            failure_within(r, self.chars@.len()),
            r matches Ok((e, _)) ==> pos < e <= self.chars.len(),
    {
        match self.harmonic(pos) {
            Ok((e, h)) => Ok((self.space0(e), h)),
            Err(x) => Err(x),
        }
    }

    fn harmonics(&self, pos: usize) -> (r: Result<(usize, Vec<PHarmonic>), PError>)
        requires
            self.wf(),
            pos <= self.chars.len(),
        ensures
            agrees(r, grammar::many0(grammar::harmonic_item(), self.s(), pos as int)),
            failure_within(r, self.chars@.len()),
            r matches Ok((e, _)) ==> pos <= e <= self.chars.len(),
    {
        let ghost s = self.s();
        let mut acc: Vec<PHarmonic> = Vec::new();
        let mut p = pos;
        loop
            invariant
                self.wf(),
                s == self.s(),
                pos <= p <= self.chars.len(),
                grammar::many0(grammar::harmonic_item(), s, pos as int) == grammar::prepend(
                    acc.deep_view(),
                    grammar::many0(grammar::harmonic_item(), s, p as int),
                ),
            decreases self.chars.len() - p,
        {
            match self.harmonic_item(p) {
                Ok((e, h)) => {
                    let ghost old = acc;
                    let ghost hv = h.deep_view();
                    acc.push(h);
                    proof {
                        lemma_deep_view_push(old, acc, h);
                        grammar::lemma_many0_step(grammar::harmonic_item(), s, p as int);
                        grammar::lemma_prepend_prepend(
                            old.deep_view(),
                            seq![hv],
                            grammar::many0(grammar::harmonic_item(), s, e as int),
                        );
                    }
                    p = e;
                },
                Err(PError::Error) => {
                    proof {
                        grammar::lemma_many0_stop(grammar::harmonic_item(), s, p as int, acc.deep_view());
                    }
                    return Ok((p, acc));
                },
                Err(e) => return Err(e),
            }
        }
    }

    fn chord(&self, pos: usize) -> (r: Result<(usize, Expression), PError>)
        requires
            self.wf(),
            pos <= self.chars.len(),
        ensures
            agrees(r, grammar::chord(self.s(), pos as int)),
            failure_within(r, self.chars@.len()),
            r matches Ok((e, _)) ==> pos < e <= self.chars.len(),
    {
        let kw = ['c', 'h', 'o', 'r', 'd'];
        assert(kw@ == grammar::kw_chord());
        let (p1, ident) = match self.head(pos, &kw) {
            Ok(x) => x,
            Err(_) => return Err(PError::Error),
        };
        let (p2, harmonics) = match self.harmonics(p1) {
            Ok(x) => x,
            Err(x) => return Err(x),
        };
        match self.end(p2) {
            Ok((p3, _)) => Ok((p3, Expression::Chord(PChord { id: ident, harmonics }))),
            Err(_) => Err(PError::Error),
        }
    }
}

impl<'a> Src<'a> {
    fn chord_ids(&self, pos: usize) -> (r: Result<(usize, Vec<String>), PError>)
        requires
            self.wf(),
            pos <= self.chars.len(),
        ensures
            agrees(r, grammar::many0(grammar::chord_id_item(), self.s(), pos as int)),
            failure_within(r, self.chars@.len()),
            r matches Ok((e, _)) ==> pos <= e <= self.chars.len(),
    {
        let ghost s = self.s();
        let mut acc: Vec<String> = Vec::new();
        let mut p = pos;
        loop
            invariant
                self.wf(),
                s == self.s(),
                pos <= p <= self.chars.len(),
                grammar::many0(grammar::chord_id_item(), s, pos as int) == grammar::prepend(
                    acc.deep_view(),
                    grammar::many0(grammar::chord_id_item(), s, p as int),
                ),
            decreases self.chars.len() - p,
        {
            match self.chord_id_item(p) {
                Ok((e, x)) => {
                    let ghost old = acc;
                    let ghost xv = x.deep_view();
                    acc.push(x);
                    proof {
                        lemma_deep_view_push(old, acc, x);
                        grammar::lemma_many0_step(grammar::chord_id_item(), s, p as int);
                        grammar::lemma_prepend_prepend(
                            old.deep_view(),
                            seq![xv],
                            grammar::many0(grammar::chord_id_item(), s, e as int),
                        );
                    }
                    p = e;
                },
                Err(PError::Error) => {
                    proof {
                        grammar::lemma_many0_stop(grammar::chord_id_item(), s, p as int, acc.deep_view());
                    }
                    return Ok((p, acc));
                },
                Err(e) => return Err(e),
            }
        }
    }

    fn chord_id_item(&self, pos: usize) -> (r: Result<(usize, String), PError>)
        requires
            self.wf(),
            pos <= self.chars.len(),
        ensures
            agrees(r, (grammar::chord_id_item())(self.s(), pos as int)),
            failure_within(r, self.chars@.len()),
            r matches Ok((e, _)) ==> pos < e <= self.chars.len(),
    {
        match self.id(pos) {
            Ok((e, x)) => Ok((self.space0(e), x)),
            Err(x) => Err(x),
        }
    }

    fn hit_list(&self, pos: usize) -> (r: Result<(usize, Vec<PHit>), PError>)
        requires
            self.wf(),
            pos <= self.chars.len(),
        ensures
            agrees(r, grammar::many0(grammar::hit_item(), self.s(), pos as int)),
            failure_within(r, self.chars@.len()),
            r matches Ok((e, _)) ==> pos <= e <= self.chars.len(),
    {
        let ghost s = self.s();
        let mut acc: Vec<PHit> = Vec::new();
        let mut p = pos;
        loop
            invariant
                self.wf(),
                s == self.s(),
                pos <= p <= self.chars.len(),
                grammar::many0(grammar::hit_item(), s, pos as int) == grammar::prepend(
                    acc.deep_view(),
                    grammar::many0(grammar::hit_item(), s, p as int),
                ),
            decreases self.chars.len() - p,
        {
            match self.hit(p) {
                Ok((e, x)) => {
                    let ghost old = acc;
                    let ghost xv = x.deep_view();
                    acc.push(x);
                    proof {
                        lemma_deep_view_push(old, acc, x);
                        grammar::lemma_many0_step(grammar::hit_item(), s, p as int);
                        grammar::lemma_prepend_prepend(
                            old.deep_view(),
                            seq![xv],
                            grammar::many0(grammar::hit_item(), s, e as int),
                        );
                    }
                    p = e;
                },
                Err(PError::Error) => {
                    proof {
                        grammar::lemma_many0_stop(grammar::hit_item(), s, p as int, acc.deep_view());
                    }
                    return Ok((p, acc));
                },
                Err(e) => return Err(e),
            }
        }
    }

    fn numbers(&self, pos: usize) -> (r: Result<(usize, Vec<PNumber>), PError>)
        requires
            self.wf(),
            pos <= self.chars.len(),
        ensures
            agrees(r, grammar::many0(grammar::number_item(), self.s(), pos as int)),
            failure_within(r, self.chars@.len()),
            r matches Ok((e, _)) ==> pos <= e <= self.chars.len(),
    {
        let ghost s = self.s();
        let mut acc: Vec<PNumber> = Vec::new();
        let mut p = pos;
        loop
            invariant
                self.wf(),
                s == self.s(),
                pos <= p <= self.chars.len(),
                grammar::many0(grammar::number_item(), s, pos as int) == grammar::prepend(
                    acc.deep_view(),
                    grammar::many0(grammar::number_item(), s, p as int),
                ),
            decreases self.chars.len() - p,
        {
            match self.number_item(p) {
                Ok((e, x)) => {
                    let ghost old = acc;
                    let ghost xv = x.deep_view();
                    acc.push(x);
                    proof {
                        lemma_deep_view_push(old, acc, x);
                        grammar::lemma_many0_step(grammar::number_item(), s, p as int);
                        grammar::lemma_prepend_prepend(
                            old.deep_view(),
                            seq![xv],
                            grammar::many0(grammar::number_item(), s, e as int),
                        );
                    }
                    p = e;
                },
                Err(PError::Error) => {
                    proof {
                        grammar::lemma_many0_stop(grammar::number_item(), s, p as int, acc.deep_view());
                    }
                    return Ok((p, acc));
                },
                Err(e) => return Err(e),
            }
        }
    }

    fn number_item(&self, pos: usize) -> (r: Result<(usize, PNumber), PError>)
        requires
            self.wf(),
            pos <= self.chars.len(),
        ensures
            agrees(r, (grammar::number_item())(self.s(), pos as int)),
            failure_within(r, self.chars@.len()),
            r matches Ok((e, _)) ==> pos < e <= self.chars.len(),
    {
        match self.number(pos) {
            Ok((e, x)) => Ok((self.space0(e), x)),
            Err(x) => Err(x),
        }
    }

    fn velocity_list(&self, pos: usize) -> (r: Result<(usize, Vec<PVelocity>), PError>)
        requires
            self.wf(),
            pos <= self.chars.len(),
        ensures
            agrees(r, grammar::many0(grammar::velocity_item(), self.s(), pos as int)),
            failure_within(r, self.chars@.len()),
            r matches Ok((e, _)) ==> pos <= e <= self.chars.len(),
    {
        let ghost s = self.s();
        let mut acc: Vec<PVelocity> = Vec::new();
        let mut p = pos;
        loop
            invariant
                self.wf(),
                s == self.s(),
                pos <= p <= self.chars.len(),
                grammar::many0(grammar::velocity_item(), s, pos as int) == grammar::prepend(
                    acc.deep_view(),
                    grammar::many0(grammar::velocity_item(), s, p as int),
                ),
            decreases self.chars.len() - p,
        {
            match self.velocity_item(p) {
                Ok((e, x)) => {
                    let ghost old = acc;
                    let ghost xv = x.deep_view();
                    acc.push(x);
                    proof {
                        lemma_deep_view_push(old, acc, x);
                        grammar::lemma_many0_step(grammar::velocity_item(), s, p as int);
                        grammar::lemma_prepend_prepend(
                            old.deep_view(),
                            seq![xv],
                            grammar::many0(grammar::velocity_item(), s, e as int),
                        );
                    }
                    p = e;
                },
                Err(PError::Error) => {
                    proof {
                        grammar::lemma_many0_stop(grammar::velocity_item(), s, p as int, acc.deep_view());
                    }
                    return Ok((p, acc));
                },
                Err(e) => return Err(e),
            }
        }
    }

    fn velocity_item(&self, pos: usize) -> (r: Result<(usize, PVelocity), PError>)
        requires
            self.wf(),
            pos <= self.chars.len(),
        ensures
            agrees(r, (grammar::velocity_item())(self.s(), pos as int)),
            failure_within(r, self.chars@.len()),
            r matches Ok((e, _)) ==> pos < e <= self.chars.len(),
    {
        match self.velocity(pos) {
            Ok((e, x)) => Ok((self.space0(e), x)),
            Err(x) => Err(x),
        }
    }

    fn pitch_list(&self, pos: usize) -> (r: Result<(usize, Vec<PPitch>), PError>)
        requires
            self.wf(),
            pos <= self.chars.len(),
        ensures
            agrees(r, grammar::many0(grammar::pitch_item(), self.s(), pos as int)),
            failure_within(r, self.chars@.len()),
            r matches Ok((e, _)) ==> pos <= e <= self.chars.len(),
    {
        let ghost s = self.s();
        let mut acc: Vec<PPitch> = Vec::new();
        let mut p = pos;
        loop
            invariant
                self.wf(),
                s == self.s(),
                pos <= p <= self.chars.len(),
                grammar::many0(grammar::pitch_item(), s, pos as int) == grammar::prepend(
                    acc.deep_view(),
                    grammar::many0(grammar::pitch_item(), s, p as int),
                ),
            decreases self.chars.len() - p,
        {
            match self.pitch_item(p) {
                Ok((e, x)) => {
                    let ghost old = acc;
                    let ghost xv = x.deep_view();
                    acc.push(x);
                    proof {
                        lemma_deep_view_push(old, acc, x);
                        grammar::lemma_many0_step(grammar::pitch_item(), s, p as int);
                        grammar::lemma_prepend_prepend(
                            old.deep_view(),
                            seq![xv],
                            grammar::many0(grammar::pitch_item(), s, e as int),
                        );
                    }
                    p = e;
                },
                Err(PError::Error) => {
                    proof {
                        grammar::lemma_many0_stop(grammar::pitch_item(), s, p as int, acc.deep_view());
                    }
                    return Ok((p, acc));
                },
                Err(e) => return Err(e),
            }
        }
    }

    fn pitch_item(&self, pos: usize) -> (r: Result<(usize, PPitch), PError>)
        requires
            self.wf(),
            pos <= self.chars.len(),
        ensures
            agrees(r, (grammar::pitch_item())(self.s(), pos as int)),
            failure_within(r, self.chars@.len()),
            r matches Ok((e, _)) ==> pos < e <= self.chars.len(),
    {
        let e = self.run(pos, CharClass::Alnum);
        if e > pos {
            let (p2, t) = self.transition(e);
            let ident = self.slice(pos, e);
            Ok((self.space0(p2), PPitch { id: ident, transition: t }))
        } else {
            Err(PError::Error)
        }
    }

    fn fragments(&self, pos: usize) -> (r: Result<(usize, Vec<PFragment>), PError>)
        requires
            self.wf(),
            pos <= self.chars.len(),
        ensures
            agrees(r, grammar::many0(grammar::fragment_item(), self.s(), pos as int)),
            failure_within(r, self.chars@.len()),
            r matches Ok((e, _)) ==> pos <= e <= self.chars.len(),
    {
        let ghost s = self.s();
        let mut acc: Vec<PFragment> = Vec::new();
        let mut p = pos;
        loop
            invariant
                self.wf(),
                s == self.s(),
                pos <= p <= self.chars.len(),
                grammar::many0(grammar::fragment_item(), s, pos as int) == grammar::prepend(
                    acc.deep_view(),
                    grammar::many0(grammar::fragment_item(), s, p as int),
                ),
            decreases self.chars.len() - p,
        {
            match self.fragment(p) {
                Ok((e, x)) => {
                    let ghost old = acc;
                    let ghost xv = x.deep_view();
                    acc.push(x);
                    proof {
                        lemma_deep_view_push(old, acc, x);
                        grammar::lemma_many0_step(grammar::fragment_item(), s, p as int);
                        grammar::lemma_prepend_prepend(
                            old.deep_view(),
                            seq![xv],
                            grammar::many0(grammar::fragment_item(), s, e as int),
                        );
                    }
                    p = e;
                },
                Err(PError::Error) => {
                    proof {
                        grammar::lemma_many0_stop(grammar::fragment_item(), s, p as int, acc.deep_view());
                    }
                    return Ok((p, acc));
                },
                Err(e) => return Err(e),
            }
        }
    }

    fn expressions(&self, pos: usize) -> (r: Result<(usize, Vec<Expression>), PError>)
        requires
            self.wf(),
            pos <= self.chars.len(),
        ensures
            agrees(r, grammar::many0(grammar::expression_item(), self.s(), pos as int)),
            failure_within(r, self.chars@.len()),
            r matches Ok((e, _)) ==> pos <= e <= self.chars.len(),
    {
        let ghost s = self.s();
        let mut acc: Vec<Expression> = Vec::new();
        let mut p = pos;
        loop
            invariant
                self.wf(),
                s == self.s(),
                pos <= p <= self.chars.len(),
                grammar::many0(grammar::expression_item(), s, pos as int) == grammar::prepend(
                    acc.deep_view(),
                    grammar::many0(grammar::expression_item(), s, p as int),
                ),
            decreases self.chars.len() - p,
        {
            match self.expression(p) {
                Ok((e, x)) => {
                    let ghost old = acc;
                    let ghost xv = x.deep_view();
                    acc.push(x);
                    proof {
                        lemma_deep_view_push(old, acc, x);
                        grammar::lemma_many0_step(grammar::expression_item(), s, p as int);
                        grammar::lemma_prepend_prepend(
                            old.deep_view(),
                            seq![xv],
                            grammar::many0(grammar::expression_item(), s, e as int),
                        );
                    }
                    p = e;
                },
                Err(PError::Error) => {
                    proof {
                        grammar::lemma_many0_stop(grammar::expression_item(), s, p as int, acc.deep_view());
                    }
                    return Ok((p, acc));
                },
                Err(e) => return Err(e),
            }
        }
    }

    fn hit(&self, pos: usize) -> (r: Result<(usize, PHit), PError>)
        requires
            self.wf(),
            pos <= self.chars.len(),
        ensures
            agrees(r, (grammar::hit_item())(self.s(), pos as int)),
            failure_within(r, self.chars@.len()),
            r matches Ok((e, _)) ==> pos < e <= self.chars.len(),
    {
        let (p1, position) = match self.number(pos) {
            Ok(x) => x,
            Err(x) => return Err(x),
        };
        let p2 = self.space0(p1);
        match self.join_number(p2) {
            Ok((p3, d)) => Ok((p3, PHit { position, duration: Some(d) })),
            Err(PError::Error) => Ok((p2, PHit { position, duration: None })),
            Err(e) => Err(e),
        }
    }

    fn chords(&self, pos: usize) -> (r: Result<(usize, Expression), PError>)
        requires
            self.wf(),
            pos <= self.chars.len(),
        ensures
            agrees(r, grammar::chords(self.s(), pos as int)),
            failure_within(r, self.chars@.len()),
            r matches Ok((e, _)) ==> pos < e <= self.chars.len(),
    {
        let kw = ['c', 'h', 'o', 'r', 'd', 's'];
        assert(kw@ == grammar::kw_chords());
        let (p1, ident) = match self.head(pos, &kw) {
            Ok(x) => x,
            Err(_) => return Err(PError::Error),
        };
        let (p2, ids) = match self.chord_ids(p1) {
            Ok(x) => x,
            Err(x) => return Err(x),
        };
        match self.end(p2) {
            Ok((p3, _)) => Ok((p3, Expression::ChordLine(PChordLine { id: ident, chords: ids }))),
            Err(_) => Err(PError::Error),
        }
    }

    fn hits(&self, pos: usize) -> (r: Result<(usize, Expression), PError>)
        requires
            self.wf(),
            pos <= self.chars.len(),
        ensures
            agrees(r, grammar::hits(self.s(), pos as int)),
            failure_within(r, self.chars@.len()),
            r matches Ok((e, _)) ==> pos < e <= self.chars.len(),
    {
        let kw = ['h', 'i', 't', 's'];
        assert(kw@ == grammar::kw_hits());
        let (p1, ident) = match self.head(pos, &kw) {
            Ok(x) => x,
            Err(_) => return Err(PError::Error),
        };
        let (p2, hs) = match self.hit_list(p1) {
            Ok(x) => x,
            Err(x) => return Err(x),
        };
        let p3 = match self.on(p2) {
            Some(p3) => p3,
            None => return Err(PError::Error),
        };
        let (p4, duration) = match self.number(p3) {
            Ok(x) => x,
            Err(x) => return Err(x),
        };
        match self.end(p4) {
            Ok((p5, _)) => Ok((p5, Expression::HitLine(PHitLine { id: ident, hits: hs, duration }))),
            Err(_) => Err(PError::Error),
        }
    }

    fn durations(&self, pos: usize) -> (r: Result<(usize, Expression), PError>)
        requires
            self.wf(),
            pos <= self.chars.len(),
        ensures
            agrees(r, grammar::durations(self.s(), pos as int)),
            failure_within(r, self.chars@.len()),
            r matches Ok((e, _)) ==> pos < e <= self.chars.len(),
    {
        let kw = ['d', 'u', 'r', 'a', 't', 'i', 'o', 'n', 's'];
        assert(kw@ == grammar::kw_durations());
        let (p1, ident) = match self.head(pos, &kw) {
            Ok(x) => x,
            Err(_) => return Err(PError::Error),
        };
        match self.numbers(p1) {
            Ok((p2, ds)) => Ok((p2, Expression::DurationLine(PDurationLine { id: ident, durations: ds }))),
            Err(x) => Err(x),
        }
    }

    fn velocities(&self, pos: usize) -> (r: Result<(usize, Expression), PError>)
        requires
            self.wf(),
            pos <= self.chars.len(),
        ensures
            agrees(r, grammar::velocities(self.s(), pos as int)),
            failure_within(r, self.chars@.len()),
            r matches Ok((e, _)) ==> pos < e <= self.chars.len(),
    {
        let kw = ['v', 'e', 'l', 'o', 'c', 'i', 't', 'i', 'e', 's'];
        assert(kw@ == grammar::kw_velocities());
        let (p1, ident) = match self.head(pos, &kw) {
            Ok(x) => x,
            Err(_) => return Err(PError::Error),
        };
        let (p2, vs) = match self.velocity_list(p1) {
            Ok(x) => x,
            Err(x) => return Err(x),
        };
        match self.end(p2) {
            Ok((p3, _)) => Ok((p3, Expression::VelocityLine(PVelocityLine { id: ident, velocities: vs }))),
            Err(_) => Err(PError::Error),
        }
    }

    fn pitchs(&self, pos: usize) -> (r: Result<(usize, Expression), PError>)
        requires
            self.wf(),
            pos <= self.chars.len(),
        ensures
            agrees(r, grammar::pitchs(self.s(), pos as int)),
            failure_within(r, self.chars@.len()),
            r matches Ok((e, _)) ==> pos < e <= self.chars.len(),
    {
        let kw = ['p', 'i', 't', 'c', 'h', 's'];
        assert(kw@ == grammar::kw_pitchs());
        let (p1, ident) = match self.head(pos, &kw) {
            Ok(x) => x,
            Err(_) => return Err(PError::Error),
        };
        let (p2, ps) = match self.pitch_list(p1) {
            Ok(x) => x,
            Err(x) => return Err(x),
        };
        match self.end(p2) {
            Ok((p3, _)) => Ok((p3, Expression::PitchLine(PPitchLine { id: ident, pitchs: ps }))),
            Err(_) => Err(PError::Error),
        }
    }
}

impl<'a> Src<'a> {
    fn marked_id(&self, pos: usize, c: char) -> (r: Result<(usize, String), PError>)
        requires
            self.wf(),
            pos <= self.chars.len(),
        ensures
            agrees(r, grammar::marked_id(self.s(), pos as int, c)),
            failure_within(r, self.chars@.len()),
            r matches Ok((e, _)) ==> pos < e <= self.chars.len(),
    {
        if self.char_is(pos, c) {
            self.id(pos + 1)
        } else {
            Err(PError::Error)
        }
    }

    /// An optional identifier marked by `c`: absent when the mark or the identifier is not there.
    fn opt_marked_id(&self, pos: usize, c: char) -> (r: (usize, Option<String>))
        requires
            self.wf(),
            pos <= self.chars.len(),
        ensures
            grammar::opt(grammar::marked_id(self.s(), pos as int, c), pos as int) == Outcome::Parsed(
                r.0 as int,
                r.1.deep_view(),
            ),
            pos <= r.0 <= self.chars.len(),
    {
        match self.marked_id(pos, c) {
            Ok((e, x)) => (e, Some(x)),
            Err(_) => (pos, None),
        }
    }

    fn mul_number(&self, pos: usize) -> (r: Result<(usize, PNumber), PError>)
        requires
            self.wf(),
            pos <= self.chars.len(),
        ensures
            agrees(r, grammar::mul_number(self.s(), pos as int)),
            failure_within(r, self.chars@.len()),
            r matches Ok((e, _)) ==> pos < e <= self.chars.len(),
    {
        let q = self.space0(pos);
        if self.char_is(q, '*') {
            self.number(self.space0(q + 1))
        } else {
            Err(PError::Error)
        }
    }

    fn part(&self, pos: usize) -> (r: Result<(usize, PFragment), PError>)
        requires
            self.wf(),
            pos <= self.chars.len(),
        ensures
            agrees(r, grammar::part(self.s(), pos as int)),
            failure_within(r, self.chars@.len()),
            r matches Ok((e, _)) ==> pos < e <= self.chars.len(),
    {
        let (p0, hitline_id) = match self.id(pos) {
            Ok(x) => x,
            Err(x) => return Err(x),
        };
        let (p1, durationline_id) = self.opt_marked_id(p0, '&');
        let (p2, pitchline_id) = self.opt_marked_id(p1, '-');
        let (p3, chordline_id) = self.opt_marked_id(p2, '&');
        let (p4, velocityline_id) = self.opt_marked_id(p3, '-');
        let (p5, mul) = match self.mul_number(p4) {
            Ok((p5, m)) => (p5, Some(m)),
            Err(PError::Error) => (p4, None),
            Err(e) => return Err(e),
        };
        Ok((
            self.space0(p5),
            PFragment::Part(
                PPart {
                    hitline_id,
                    durationline_id,
                    pitchline_id,
                    chordline_id,
                    velocityline_id,
                    mul,
                },
            ),
        ))
    }

    fn mul_digits_end(&self, pos: usize) -> (r: Option<usize>)
        requires
            pos <= self.chars.len(),
        ensures
            r matches Some(d) ==> d as int == grammar::mul_digits_end(self.s(), pos as int) && pos
                < d <= self.chars.len(),
            r is None ==> grammar::mul_digits_end(self.s(), pos as int) < 0,
    {
        if self.char_is(pos, '*') {
            let q = self.space0(pos + 1);
            let d = self.run(q, CharClass::Digit);
            if d > q {
                Some(d)
            } else {
                None
            }
        } else {
            None
        }
    }

    fn seq_ref(&self, pos: usize) -> (r: Result<(usize, PFragment), PError>)
        requires
            self.wf(),
            pos <= self.chars.len(),
        ensures
            agrees(r, grammar::seq_ref(self.s(), pos as int)),
            failure_within(r, self.chars@.len()),
            r matches Ok((e, _)) ==> pos < e <= self.chars.len(),
    {
        let (p1, ident) = match self.marked_id(pos, '@') {
            Ok(x) => x,
            Err(x) => return Err(x),
        };
        let p2 = self.space0(p1);
        match self.mul_digits_end(p2) {
            None => Ok((self.space0(p2), PFragment::SeqRef(PSeqRef { id: ident, mul: None }))),
            Some(d) => {
                let q = self.space0(p2 + 1);
                proof {
                    lemma_run_class(self.s(), q as int, CharClass::Digit);
                }
                match self.checked_digits_value(q, d) {
                    Some(count) => Ok(
                        (self.space0(d), PFragment::SeqRef(PSeqRef { id: ident, mul: Some(count) })),
                    ),
                    None => Err(PError::Overflow),
                }
            },
        }
    }

    fn fragment(&self, pos: usize) -> (r: Result<(usize, PFragment), PError>)
        requires
            self.wf(),
            pos <= self.chars.len(),
        ensures
            agrees(r, (grammar::fragment_item())(self.s(), pos as int)),
            failure_within(r, self.chars@.len()),
            r matches Ok((e, _)) ==> pos < e <= self.chars.len(),
    {
        match self.seq_ref(pos) {
            Err(PError::Error) => self.part(pos),
            r => r,
        }
    }

    fn sequence(&self, pos: usize) -> (r: Result<(usize, PSequence), PError>)
        requires
            self.wf(),
            pos <= self.chars.len(),
        ensures
            agrees(r, grammar::sequence(self.s(), pos as int)),
            failure_within(r, self.chars@.len()),
            r matches Ok((e, _)) ==> pos < e <= self.chars.len(),
    {
        let p0 = self.space0(pos);
        if p0 == pos {
            return Err(PError::Error);
        }
        let (p1, ident) = match self.id(p0) {
            Ok(x) => x,
            Err(x) => return Err(x),
        };
        let p2 = self.space0(p1);
        if !self.char_is(p2, ':') {
            return Err(PError::Error);
        }
        let p3 = self.space0(p2 + 1);
        let (p4, beat) = match self.on(p3) {
            Some(q) => match self.id(q) {
                Ok((e, b)) => (self.space0(e), Some(b)),
                Err(_) => (p3, None),
            },
            None => (p3, None),
        };
        let (p5, fragments) = match self.fragments(p4) {
            Ok(x) => x,
            Err(x) => return Err(x),
        };
        match self.end(p5) {
            Ok((p6, _)) => Ok((p6, PSequence { id: ident, beat, fragments })),
            Err(_) => Err(PError::Error),
        }
    }

    fn seq(&self, pos: usize) -> (r: Result<(usize, Expression), PError>)
        requires
            self.wf(),
            pos <= self.chars.len(),
        ensures
            agrees(r, grammar::seq(self.s(), pos as int)),
            failure_within(r, self.chars@.len()),
            r matches Ok((e, _)) ==> pos < e <= self.chars.len(),
    {
        let kw = ['s', 'e', 'q'];
        assert(kw@ == grammar::kw_seq());
        if self.has_tag(pos, &kw) {
            match self.sequence(pos + 3) {
                Ok((e, q)) => Ok((e, Expression::Sequence(q))),
                Err(x) => Err(x),
            }
        } else {
            Err(PError::Error)
        }
    }

    fn seqout(&self, pos: usize) -> (r: Result<(usize, Expression), PError>)
        requires
            self.wf(),
            pos <= self.chars.len(),
        ensures
            agrees(r, grammar::seqout(self.s(), pos as int)),
            failure_within(r, self.chars@.len()),
            r matches Ok((e, _)) ==> pos < e <= self.chars.len(),
    {
        let kw = ['s', 'e', 'q', 'o', 'u', 't'];
        assert(kw@ == grammar::kw_seqout());
        if self.has_tag(pos, &kw) {
            match self.sequence(pos + 6) {
                Ok((e, q)) => Ok((e, Expression::SeqOut(q))),
                Err(x) => Err(x),
            }
        } else {
            Err(PError::Error)
        }
    }

    fn midiout(&self, pos: usize) -> (r: Result<(usize, Expression), PError>)
        requires
            self.wf(),
            pos <= self.chars.len(),
        ensures
            agrees(r, grammar::midiout(self.s(), pos as int)),
            failure_within(r, self.chars@.len()),
            r matches Ok((e, _)) ==> pos < e <= self.chars.len(),
    {
        let kw = ['m', 'i', 'd', 'i', 'o', 'u', 't'];
        assert(kw@ == grammar::kw_midiout());
        if self.has_tag(pos, &kw) {
            match self.sequence(pos + 7) {
                Ok((e, q)) => Ok((e, Expression::MidiOut(q))),
                Err(x) => Err(x),
            }
        } else {
            Err(PError::Error)
        }
    }

    fn find_tag(&self, pos: usize, t: &[char]) -> (r: Option<usize>)
        requires
            pos <= self.chars.len(),
        ensures
            r matches Some(i) ==> i as int == grammar::find_tag(self.s(), pos as int, t@) && pos <= i
                && i + t.len() <= self.chars.len(),
            r is None ==> grammar::find_tag(self.s(), pos as int, t@) < 0,
    {
        let mut i = pos;
        while i < self.chars.len() && t.len() <= self.chars.len() - i
            invariant
                pos <= i <= self.chars.len(),
                grammar::find_tag(self.s(), pos as int, t@) == grammar::find_tag(self.s(), i as int, t@),
            decreases self.chars.len() - i,
        {
            if self.has_tag(i, t) {
                return Some(i);
            }
            i += 1;
        }
        None
    }

    fn line_comment(&self, pos: usize) -> (r: Result<(usize, Expression), PError>)
        requires
            self.wf(),
            pos <= self.chars.len(),
        ensures
            agrees(r, grammar::line_comment(self.s(), pos as int)),
            failure_within(r, self.chars@.len()),
            r matches Ok((e, _)) ==> pos < e <= self.chars.len(),
    {
        let kw = [';', ';'];
        assert(kw@ == grammar::kw_line_comment());
        let nl = ['\n'];
        assert(nl@ == seq!['\n']);
        if !self.has_tag(pos, &kw) {
            return Err(PError::Error);
        }
        match self.find_tag(pos + 2, &nl) {
            None => Err(PError::Error),
            Some(i) => match self.end(i) {
                Ok((e, _)) => Ok((e, Expression::Nothing)),
                Err(_) => Err(PError::Error),
            },
        }
    }

    fn multiline_comment(&self, pos: usize) -> (r: Result<(usize, Expression), PError>)
        requires
            self.wf(),
            pos <= self.chars.len(),
        ensures
            agrees(r, grammar::multiline_comment(self.s(), pos as int)),
            failure_within(r, self.chars@.len()),
            r matches Ok((e, _)) ==> pos < e <= self.chars.len(),
    {
        let kw = [';', ';', ';'];
        assert(kw@ == grammar::kw_multiline_comment());
        if !self.has_tag(pos, &kw) {
            return Err(PError::Error);
        }
        match self.find_tag(pos + 3, &kw) {
            None => Err(PError::Error),
            Some(i) => Ok((i + 3, Expression::Nothing)),
        }
    }

    fn blank(&self, pos: usize) -> (r: Result<(usize, Expression), PError>)
        requires
            self.wf(),
            pos <= self.chars.len(),
        ensures
            agrees(r, grammar::blank(self.s(), pos as int)),
            failure_within(r, self.chars@.len()),
            r matches Ok((e, _)) ==> pos < e <= self.chars.len(),
    {
        match self.end(pos) {
            Ok((e, _)) => Ok((e, Expression::Nothing)),
            Err(_) => Err(PError::Error),
        }
    }

    fn expression(&self, pos: usize) -> (r: Result<(usize, Expression), PError>)
        requires
            self.wf(),
            pos <= self.chars.len(),
        ensures
            agrees(r, (grammar::expression_item())(self.s(), pos as int)),
            failure_within(r, self.chars@.len()),
            r matches Ok((e, _)) ==> pos < e <= self.chars.len(),
    {
        let ghost s = self.s();
        let ghost ip = pos as int;
        assert((grammar::expression_item())(s, ip) == grammar::expression(s, ip));
        match self.beat(pos) {
            Err(PError::Error) => {},
            r => return r,
        }
        match self.chord(pos) {
            Err(PError::Error) => {},
            r => return r,
        }
        match self.chords(pos) {
            Err(PError::Error) => {},
            r => return r,
        }
        match self.hits(pos) {
            Err(PError::Error) => {},
            r => return r,
        }
        match self.durations(pos) {
            Err(PError::Error) => {},
            r => return r,
        }
        match self.pitchs(pos) {
            Err(PError::Error) => {},
            r => return r,
        }
        match self.velocities(pos) {
            Err(PError::Error) => {},
            r => return r,
        }
        match self.seq(pos) {
            Err(PError::Error) => {},
            r => return r,
        }
        match self.seqout(pos) {
            Err(PError::Error) => {},
            r => return r,
        }
        match self.midiout(pos) {
            Err(PError::Error) => {},
            r => return r,
        }
        match self.multiline_comment(pos) {
            Err(PError::Error) => {},
            r => return r,
        }
        match self.line_comment(pos) {
            Err(PError::Error) => {},
            r => return r,
        }
        self.blank(pos)
    }
}

/// A result of a parser on a whole text agrees with the outcome of its rule at the start of
/// the text: the rest of the text after what the rule recognized, and the same value.
pub open spec fn agrees_rest<'t, T: DeepView>(
    r: Result<(&'t str, T), PError>,
    s: Seq<char>,
    o: Outcome<T::V>,
) -> bool {
    match o {
        Outcome::Parsed(e, v) => r matches Ok((rest, x)) && rest@ == s.subrange(e, s.len() as int)
            && x.deep_view() == v,
        Outcome::Rejected => r matches Err(PError::Error),
        Outcome::Failed(p) => r matches Err(PError::Failure(q)) && q == p,
        Outcome::Aborted => r matches Err(PError::Overflow),
    }
}

/// The rest of `input` after the position a parser reached.
fn with_rest<'t, T>(input: &'t str, len: usize, r: Result<(usize, T), PError>) -> (out: Result<(&'t str, T), PError>)
    requires
        len == input@.len(),
        r matches Ok((e, _)) ==> e <= len,
    ensures
        match r {
            Ok((e, x)) => out matches Ok((rest, y)) && rest@ == input@.subrange(e as int, len as int) && y == x,
            Err(x) => out == Err::<(&'t str, T), PError>(x),
        },
{
    match r {
        Ok((e, x)) => Ok((input.substring_char(e, len), x)),
        Err(x) => Err(x),
    }
}

/// An identifier: one or more letters, digits or underscores.
pub fn id(input: &str) -> (r: Result<(&str, String), PError>)
    ensures
        agrees_rest(r, input@, grammar::id(input@, 0)),
{
    let src = Src::new(input);
    let r = src.id(0);
    with_rest(input, src.chars.len(), r)
}

/// A number: an optional sign, then digits with an optional fraction or a fraction alone,
/// then an optional exponent; or `nan` or `inf` in any case. An exponent marker without
/// digits is a failure.
pub fn number(input: &str) -> (r: Result<(&str, PNumber), PError>)
    ensures
        agrees_rest(r, input@, grammar::number(input@, 0)),
{
    let src = Src::new(input);
    let r = src.number(0);
    with_rest(input, src.chars.len(), r)
}

/// The end of a statement: one or more lines that hold only blanks.
pub fn end(input: &str) -> (r: Result<(&str, Expression), PError>)
    ensures
        agrees_rest(r, input@, grammar::blank(input@, 0)),
{
    let src = Src::new(input);
    let r = src.blank(0);
    with_rest(input, src.chars.len(), r)
}

/// A comment to the end of the line.
pub fn line_comment(input: &str) -> (r: Result<(&str, Expression), PError>)
    ensures
        agrees_rest(r, input@, grammar::line_comment(input@, 0)),
{
    let src = Src::new(input);
    let r = src.line_comment(0);
    with_rest(input, src.chars.len(), r)
}

/// A comment between two `;;;`.
pub fn multiline_comment(input: &str) -> (r: Result<(&str, Expression), PError>)
    ensures
        agrees_rest(r, input@, grammar::multiline_comment(input@, 0)),
{
    let src = Src::new(input);
    let r = src.multiline_comment(0);
    with_rest(input, src.chars.len(), r)
}

/// A beat statement: `beat <id> : <bpm>`.
pub fn beat(input: &str) -> (r: Result<(&str, Expression), PError>)
    requires
        !(grammar::beat(input@, 0) is Aborted),
    ensures
        agrees_rest(r, input@, grammar::beat(input@, 0)),
{
    let src = Src::new(input);
    let r = src.beat(0);
    with_rest(input, src.chars.len(), r)
}

/// A chord statement: `chord <id> : <harmonic> ...`.
pub fn chord(input: &str) -> (r: Result<(&str, Expression), PError>)
    ensures
        agrees_rest(r, input@, grammar::chord(input@, 0)),
{
    let src = Src::new(input);
    let r = src.chord(0);
    with_rest(input, src.chars.len(), r)
}

/// A chord line statement: `chords <id> : <chord_id> ...`.
pub fn chords(input: &str) -> (r: Result<(&str, Expression), PError>)
    ensures
        agrees_rest(r, input@, grammar::chords(input@, 0)),
{
    let src = Src::new(input);
    let r = src.chords(0);
    with_rest(input, src.chars.len(), r)
}

/// A hit line statement: `hits <id> : <position>[-<duration>] ... / <duration>`.
pub fn hits(input: &str) -> (r: Result<(&str, Expression), PError>)
    ensures
        agrees_rest(r, input@, grammar::hits(input@, 0)),
{
    let src = Src::new(input);
    let r = src.hits(0);
    with_rest(input, src.chars.len(), r)
}

/// A duration line statement: `durations <id> : <duration> ...`.
pub fn durations(input: &str) -> (r: Result<(&str, Expression), PError>)
    ensures
        agrees_rest(r, input@, grammar::durations(input@, 0)),
{
    let src = Src::new(input);
    let r = src.durations(0);
    with_rest(input, src.chars.len(), r)
}

/// A velocity line statement: `velocities <id> : <velocity><transition> ...`.
pub fn velocities(input: &str) -> (r: Result<(&str, Expression), PError>)
    ensures
        agrees_rest(r, input@, grammar::velocities(input@, 0)),
{
    let src = Src::new(input);
    let r = src.velocities(0);
    with_rest(input, src.chars.len(), r)
}

/// A pitch line statement: `pitchs <id> : <pitch><transition> ...`.
pub fn pitchs(input: &str) -> (r: Result<(&str, Expression), PError>)
    ensures
        agrees_rest(r, input@, grammar::pitchs(input@, 0)),
{
    let src = Src::new(input);
    let r = src.pitchs(0);
    with_rest(input, src.chars.len(), r)
}

/// A part of a sequence: `hits[&durations][-pitchs[&chords][-velocities]][*mul]`.
pub fn part(input: &str) -> (r: Result<(&str, PFragment), PError>)
    ensures
        agrees_rest(r, input@, grammar::part(input@, 0)),
{
    let src = Src::new(input);
    let r = src.part(0);
    with_rest(input, src.chars.len(), r)
}

/// A reference to a sequence: `@<id>[*<count>]`.
pub fn seq_ref(input: &str) -> (r: Result<(&str, PFragment), PError>)
    requires
        !(grammar::seq_ref(input@, 0) is Aborted),
    ensures
        agrees_rest(r, input@, grammar::seq_ref(input@, 0)),
{
    let src = Src::new(input);
    let r = src.seq_ref(0);
    with_rest(input, src.chars.len(), r)
}

/// The body of a sequence statement after its keyword.
pub fn sequence(input: &str) -> (r: Result<(&str, PSequence), PError>)
    requires
        !(grammar::sequence(input@, 0) is Aborted),
    ensures
        agrees_rest(r, input@, grammar::sequence(input@, 0)),
{
    let src = Src::new(input);
    let r = src.sequence(0);
    with_rest(input, src.chars.len(), r)
}

/// A sequence statement: `seq <id> : [/ <beat>] <fragment> ...`.
pub fn seq(input: &str) -> (r: Result<(&str, Expression), PError>)
    requires
        !(grammar::seq(input@, 0) is Aborted),
    ensures
        agrees_rest(r, input@, grammar::seq(input@, 0)),
{
    let src = Src::new(input);
    let r = src.seq(0);
    with_rest(input, src.chars.len(), r)
}

/// A sequence output statement: `seqout <id> : ...`.
pub fn seqout(input: &str) -> (r: Result<(&str, Expression), PError>)
    requires
        !(grammar::seqout(input@, 0) is Aborted),
    ensures
        agrees_rest(r, input@, grammar::seqout(input@, 0)),
{
    let src = Src::new(input);
    let r = src.seqout(0);
    with_rest(input, src.chars.len(), r)
}

/// A MIDI output statement: `midiout <id> : ...`.
pub fn midiout(input: &str) -> (r: Result<(&str, Expression), PError>)
    requires
        !(grammar::midiout(input@, 0) is Aborted),
    ensures
        agrees_rest(r, input@, grammar::midiout(input@, 0)),
{
    let src = Src::new(input);
    let r = src.midiout(0);
    with_rest(input, src.chars.len(), r)
}

/// Why a tseq text could not be read.
#[derive(Debug, PartialEq)]
pub enum ParseError {
    /// A statement is wrong for good: a number with an exponent marker and no exponent
    /// starts the text held here, which runs to the end.
    Syntax(String),
    /// The statements stop before the end of the text; this is the rest of the text.
    Unparsed(String),
}

/// The text that `{:?}` writes for a text: the text in double quotes, with its special
/// characters escaped.
pub uninterp spec fn debug_quoted(s: Seq<char>) -> Seq<char>;

/// `str`'s `Debug`: the text in double quotes with its special characters escaped. It
/// depends on the text alone and is named [`debug_quoted`]; the escapes are not stated.
#[verifier::external_body]
fn debug_text(s: &str) -> (r: String)
    ensures
        r@ == debug_quoted(s@),
{
    format!("{:?}", s)
}

impl ParseError {
    /// The text of the error: `tseq parser error : ` then, for a failure, the failure as
    /// it is written for a parser failure on a number (the text from the number on, and
    /// the kind `Float`), and, for statements that stop early, the rest of the text
    /// quoted.
    pub fn message(&self) -> (r: String)
        ensures
            r@ == match self {
                ParseError::Syntax(rest) => "tseq parser error : Failure(Error { input: "@
                    + debug_quoted(rest@) + ", code: Float })"@,
                ParseError::Unparsed(rest) => "tseq parser error : "@ + debug_quoted(rest@),
            },
    {
        match self {
            ParseError::Syntax(rest) => {
                let mut r = "tseq parser error : Failure(Error { input: ".to_owned();
                let q = debug_text(rest.as_str());
                r.append(q.as_str());
                r.append(", code: Float })");
                r
            },
            ParseError::Unparsed(rest) => {
                let mut r = "tseq parser error : ".to_owned();
                let q = debug_text(rest.as_str());
                r.append(q.as_str());
                r
            },
        }
    }
}

/// Whether every count that a tseq text writes (beats per minute, repetitions of a
/// sequence) fits in a `usize`, which [`parse`] needs.
pub fn counts_fit(input: &str) -> (r: bool)
    ensures
        r == !(grammar::text(input@) is Aborted),
{
    let src = Src::new(input);
    match src.expressions(0) {
        Err(PError::Overflow) => false,
        _ => true,
    }
}

/// Reads the statements of a tseq text.
pub fn parse(input: &str) -> (r: Result<Vec<Expression>, ParseError>)
    requires
        !(grammar::text(input@) is Aborted),
    ensures
        match grammar::text(input@) {
            grammar::TextOutcome::Statements(es) => r matches Ok(v) && v.deep_view() == es,
            grammar::TextOutcome::StopsAt(e) => r matches Err(ParseError::Unparsed(rest))
                && rest@ == input@.subrange(e, input@.len() as int),
            grammar::TextOutcome::Failed(p) => r matches Err(ParseError::Syntax(rest))
                && rest@ == input@.subrange(p, input@.len() as int),
            grammar::TextOutcome::Aborted => false,
        },
{
    let src = Src::new(input);
    match src.expressions(0) {
        Ok((e, es)) => {
            if e == src.chars.len() {
                Ok(es)
            } else {
                Err(ParseError::Unparsed(src.slice(e, src.chars.len())))
            }
        },
        Err(PError::Failure(p)) => Err(ParseError::Syntax(src.slice(p, src.chars.len()))),
        Err(_) => Err(ParseError::Unparsed(src.slice(0, src.chars.len()))),
    }
}

fn same_letter(c: char, l: char) -> (r: bool)
    ensures
        r == grammar::same_letter(c, l),
{
    c == l || (c as u32) + 32 == (l as u32)
}

/// The characters of a run belong to its class.
proof fn lemma_run_class(s: Seq<char>, pos: int, k: CharClass)
    requires
        0 <= pos <= s.len(),
    ensures
        pos <= grammar::run_end(s, pos, k) <= s.len(),
        forall|j: int| pos <= j < grammar::run_end(s, pos, k) ==> grammar::in_class(#[trigger] s[j], k),
    decreases s.len() - pos,
{
    if pos < s.len() && grammar::in_class(s[pos], k) {
        lemma_run_class(s, pos + 1, k);
    }
}

fn in_class(c: char, k: CharClass) -> (r: bool)
    ensures
        r == grammar::in_class(c, k),
{
    let u = c as u32;
    let digit = 48 <= u && u <= 57;
    let alnum = digit || (65 <= u && u <= 90) || (97 <= u && u <= 122);
    match k {
        CharClass::Space => c == ' ' || c == '\t',
        CharClass::Digit => digit,
        CharClass::Alnum => alnum,
        CharClass::IdChar => alnum || c == '_',
    }
}

} // verus!

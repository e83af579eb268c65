//! The pitches of a pitch line and the transformations of their order.
use vstd::prelude::*;

use crate::parser::{PPitch, PTransition};

verus! {

#[derive(Debug, PartialEq)]
pub struct Pitch {
    pub id: String,
    pub transition: PTransition,
}

impl DeepView for Pitch {
    type V = (Seq<char>, PTransition);

    open spec fn deep_view(&self) -> (Seq<char>, PTransition) {
        (self.id@, self.transition)
    }
}

impl Pitch {
    /// A copy of `pitch`.
    pub fn new(pitch: &Pitch) -> (r: Pitch)
        ensures
            r.deep_view() == pitch.deep_view(),
    {
        Self { id: pitch.id.clone(), transition: pitch.transition }
    }

    /// The pitch that a pitch line of the text names.
    pub fn from_parser_pitch(ppitch: &PPitch) -> (r: Pitch)
        ensures
            r.id@ == ppitch.id@,
            r.transition == ppitch.transition,
    {
        Self { id: ppitch.id.clone(), transition: ppitch.transition }
    }
}

/// A shift of the notes of a pitch line by a count that is not below its length.
#[derive(Debug, PartialEq, Eq, Structural, Clone, Copy)]
pub enum PitchError {
    InvalidShiftCount(usize),
}

/// The notes of a pitch line rotated so that the one at `k` comes first.
pub open spec fn shifted<A>(s: Seq<A>, k: int) -> Seq<A> {
    s.skip(k) + s.take(k)
}

proof fn lemma_shift_shift<A>(s: Seq<A>, a: int, b: int)
    requires
        0 <= a < s.len(),
        0 <= b < s.len(),
    ensures
        shifted(shifted(s, a), b) == shifted(s, (a + b) % (s.len() as int)),
{
    let n = s.len() as int;
    let c = (a + b) % n;
    assert(c == if a + b < n { a + b } else { a + b - n }) by (nonlinear_arith)
        requires
            0 <= a < n,
            0 <= b < n,
            c == (a + b) % n,
    ;
    let t = shifted(s, a);
    let lhs = shifted(t, b);
    let rhs = shifted(s, c);
    assert(forall|j: int| 0 <= j < n ==> #[trigger] t[j] == if j < n - a { s[j + a] } else { s[j + a - n] });
    assert(forall|j: int| 0 <= j < n ==> #[trigger] lhs[j] == if j < n - b { t[j + b] } else { t[j + b - n] });
    assert(forall|j: int| 0 <= j < n ==> #[trigger] rhs[j] == if j < n - c { s[j + c] } else { s[j + c - n] });
    assert forall|i: int| 0 <= i < n implies #[trigger] lhs[i] == rhs[i] by {
        let p = if i < n - b { i + b } else { i + b - n };
        assert(lhs[i] == t[p]);
    }
    assert(lhs =~= rhs);
}

/// Shifting the notes by `a` then by `b` shifts them by `a + b`, modulo their count; in
/// particular a shift by `n - a` undoes a shift by `a`.
pub proof fn lemma_shift_compose<A>(s: Seq<A>, a: int, b: int)
    requires
        0 <= a < s.len(),
        0 <= b < s.len(),
    ensures
        shifted(shifted(s, a), b) == shifted(s, (a + b) % (s.len() as int)),
        a > 0 ==> shifted(shifted(s, a), s.len() - a) == s,
{
    let n = s.len() as int;
    lemma_shift_shift(s, a, b);
    if a > 0 {
        assert((a + (n - a)) % n == 0) by (nonlinear_arith)
            requires
                0 < a < n,
        ;
        lemma_shift_shift(s, a, n - a);
        assert(shifted(s, 0) =~= s);
    }
}

impl PitchError {
    /// The text of the error.
    pub fn message(&self) -> (r: String)
        ensures
            r@ == match self {
                PitchError::InvalidShiftCount(k) => "Tseq pitchline notes shift count "@
                    + crate::session::decimal_text(*k as nat) + " invalide!"@,
            },
    {
        match self {
            PitchError::InvalidShiftCount(k) => {
                let mut r = "Tseq pitchline notes shift count ".to_owned();
                let t = crate::session::decimal_string(*k as u64);
                r.append(t.as_str());
                r.append(" invalide!");
                r
            },
        }
    }
}

/// Moves the first `shift_count` elements of `v` to its end, keeping their order.
fn rotate_left(v: &mut Vec<Pitch>, shift_count: usize)
    requires
        shift_count <= old(v)@.len(),
    ensures
        final(v)@ == shifted(old(v)@, shift_count as int),
{
    let ghost s = v@;
    let mut j: usize = 0;
    assert(s.skip(0) + s.take(0) =~= s);
    while j < shift_count
        invariant
            j <= shift_count <= s.len(),
            v@ == s.skip(j as int) + s.take(j as int),
        decreases shift_count - j,
    {
        let first = v.remove(0);
        v.push(first);
        assert(v@ =~= s.skip(j + 1) + s.take(j + 1));
        j += 1;
    }
}

/// Reverses the order of the elements of `v`.
fn reverse(v: &mut Vec<Pitch>)
    ensures
        final(v)@ == old(v)@.reverse(),
{
    let ghost s = v@;
    let mut r: Vec<Pitch> = Vec::new();
    while v.len() > 0
        invariant
            v@ == s.take(v@.len() as int),
            v@.len() <= s.len(),
            r@ == s.skip(v@.len() as int).reverse(),
        decreases v@.len(),
    {
        let ghost n = v@.len();
        let x = v.pop().unwrap();
        r.push(x);
        assert(v@ =~= s.take(n - 1));
        assert(r@ =~= s.skip(n - 1).reverse());
    }
    assert(r@ =~= s.reverse());
    *v = r;
}

/// Rotates the notes of a pitch line: the note at `shift_count` comes first, the notes
/// before it go to the end.
pub fn notes_shift(pitchs: &mut Vec<Pitch>, shift_count: usize) -> (r: Result<(), PitchError>)
    ensures
        r is Err <==> shift_count >= old(pitchs)@.len(),
        r is Err ==> r == Err::<(), PitchError>(PitchError::InvalidShiftCount(shift_count))
            && final(pitchs)@ == old(pitchs)@,
        r is Ok ==> final(pitchs)@ == shifted(old(pitchs)@, shift_count as int),
{
    if shift_count >= pitchs.len() {
        return Err(PitchError::InvalidShiftCount(shift_count));
    }
    rotate_left(pitchs, shift_count);
    Ok(())
}

/// Rotates the notes of a pitch line as [`notes_shift`] does, then reverses their order.
pub fn backward_notes_shift(pitchs: &mut Vec<Pitch>, shift_count: usize) -> (r: Result<(), PitchError>)
    ensures
        r is Err <==> shift_count >= old(pitchs)@.len(),
        r is Err ==> r == Err::<(), PitchError>(PitchError::InvalidShiftCount(shift_count))
            && final(pitchs)@ == old(pitchs)@,
        r is Ok ==> final(pitchs)@ == shifted(old(pitchs)@, shift_count as int).reverse(),
{
    if shift_count >= pitchs.len() {
        return Err(PitchError::InvalidShiftCount(shift_count));
    }
    rotate_left(pitchs, shift_count);
    reverse(pitchs);
    Ok(())
}

} // verus!

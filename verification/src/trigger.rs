use vstd::prelude::*;

verus! {

/// The start ticks come in order.
pub open spec fn sorted(starts: Seq<i64>) -> bool {
    forall|i: int, j: int| 0 <= i <= j < starts.len() ==> starts[i] <= starts[j]
}

/// How many start ticks come before the tick `t`.
pub open spec fn count_below(starts: Seq<i64>, t: int) -> nat
    decreases starts.len(),
{
    if starts.len() == 0 {
        0
    } else {
        count_below(starts.drop_last(), t) + if starts.last() < t {
            1nat
        } else {
            0nat
        }
    }
}

/// The positions, counted from `tick`, of the events that start in the chunk
/// `[tick, tick + len)`.
pub open spec fn trigger_positions(starts: Seq<i64>, tick: int, len: int) -> Seq<usize> {
    let first = count_below(starts, tick) as int;
    let last = count_below(starts, tick + len) as int;
    Seq::new((last - first) as nat, |k: int| (starts[first + k] - tick) as usize)
}

/// In ordered start ticks, those before `t` are the first `count_below` ones.
pub proof fn lemma_count_below(starts: Seq<i64>, t: int)
    requires
        sorted(starts),
    ensures
        count_below(starts, t) <= starts.len(),
        forall|i: int| 0 <= i < count_below(starts, t) ==> starts[i] < t,
        forall|i: int| count_below(starts, t) <= i < starts.len() ==> starts[i] >= t,
    decreases starts.len(),
{
    if starts.len() > 0 {
        let init = starts.drop_last();
        let n = init.len() as int;
        assert(sorted(init));
        lemma_count_below(init, t);
        assert(forall|i: int| 0 <= i < n ==> init[i] == starts[i]);
        if starts.last() < t && count_below(init, t) < n {
            let i = count_below(init, t) as int;
            assert(starts[i] <= starts[n]);
        }
        if starts.last() >= t {
            assert(count_below(starts, t) == count_below(init, t));
        }
    }
}

/// Ordered start ticks below `t` are below any later tick too.
pub proof fn lemma_count_below_monotonic(starts: Seq<i64>, t: int, u: int)
    requires
        sorted(starts),
        t <= u,
    ensures
        count_below(starts, t) <= count_below(starts, u),
{
    lemma_count_below(starts, t);
    lemma_count_below(starts, u);
    if count_below(starts, u) < count_below(starts, t) {
        let i = count_below(starts, u) as int;
        assert(starts[i] < t);
        assert(starts[i] >= u);
    }
}

/// Two chunks that follow each other mark the events that the chunk spanning both marks:
/// those of the first chunk, then those of the second moved by the first one's length.
pub proof fn lemma_trigger_chunks(starts: Seq<i64>, tick: int, a: int, b: int)
    requires
        sorted(starts),
        0 <= a,
        0 <= b,
        a + b <= usize::MAX,
    ensures
        trigger_positions(starts, tick, a + b) == trigger_positions(starts, tick, a)
            + trigger_positions(starts, tick + a, b).map_values(|p: usize| (p + a) as usize),
{
    let first = count_below(starts, tick) as int;
    let mid = count_below(starts, tick + a) as int;
    let last = count_below(starts, tick + a + b) as int;
    lemma_count_below(starts, tick);
    lemma_count_below(starts, tick + a);
    lemma_count_below(starts, tick + a + b);
    lemma_count_below_monotonic(starts, tick, tick + a);
    lemma_count_below_monotonic(starts, tick + a, tick + a + b);
    let whole = trigger_positions(starts, tick, a + b);
    let left = trigger_positions(starts, tick, a);
    let right = trigger_positions(starts, tick + a, b).map_values(|p: usize| (p + a) as usize);
    assert forall|k: int| 0 <= k < whole.len() implies #[trigger] whole[k] == (left + right)[k] by {
        if k < mid - first {
            assert(whole[k] == left[k]);
        } else {
            let q = k - (mid - first);
            assert(mid + q == first + k);
            assert(tick + a <= starts[mid + q] < tick + a + b);
            assert(right[q] == (((starts[mid + q] - (tick + a)) as usize) + a) as usize);
        }
    }
    assert(whole =~= left + right);
}

/// Marks the events of a trigger sequence that start in the chunk of `len`
/// ticks from `tick`: returns their positions in the chunk, and moves the
/// reminder's event index past them, whichever event it pointed at before.
pub fn trigger_sequence_talk(
    tick: i64,
    len: usize,
    events_start_ticks: &Vec<i64>,
    event_index: &mut usize,
) -> (positions: Vec<usize>)
    requires
        sorted(events_start_ticks@),
        *old(event_index) <= events_start_ticks@.len(),
        len <= i64::MAX,
        tick + len <= i64::MAX,
    ensures
        *final(event_index) == count_below(events_start_ticks@, tick + len),
        positions@ == trigger_positions(events_start_ticks@, tick as int, len as int),
        forall|k: int| 0 <= k < positions@.len() ==> #[trigger] positions@[k] < len,
{
    let ghost starts = events_start_ticks@;
    let end_t: i64 = tick + len as i64;
    let ev_count = events_start_ticks.len();
    let mut ev_idx: usize = *event_index;
    proof {
        lemma_count_below(starts, tick as int);
        lemma_count_below(starts, end_t as int);
        lemma_count_below_monotonic(starts, tick as int, end_t as int);
    }
    let ghost first = count_below(starts, tick as int) as int;
    let ghost last = count_below(starts, end_t as int) as int;

    while ev_idx > 0 && events_start_ticks[ev_idx - 1] >= tick
        invariant
            ev_idx <= ev_count,
            ev_count == starts.len(),
            starts == events_start_ticks@,
            sorted(starts),
            first == count_below(starts, tick as int),
            forall|i: int| 0 <= i < first ==> starts[i] < tick,
            forall|i: int| first <= i < starts.len() ==> starts[i] >= tick,
        decreases ev_idx,
    {
        ev_idx = ev_idx - 1;
    }
    assert(ev_idx <= first);
    while ev_idx < ev_count && events_start_ticks[ev_idx] < tick
        invariant
            ev_idx <= first,
            ev_count == starts.len(),
            starts == events_start_ticks@,
            first <= starts.len(),
            forall|i: int| 0 <= i < first ==> starts[i] < tick,
            forall|i: int| first <= i < starts.len() ==> starts[i] >= tick,
        decreases ev_count - ev_idx,
    {
        ev_idx = ev_idx + 1;
    }
    assert(ev_idx == first);
    let mut positions: Vec<usize> = Vec::new();
    while ev_idx < ev_count && events_start_ticks[ev_idx] < end_t
        invariant
            first <= ev_idx <= last,
            last <= ev_count,
            ev_count == starts.len(),
            starts == events_start_ticks@,
            end_t == tick + len,
            len <= i64::MAX,
            forall|i: int| 0 <= i < first ==> starts[i] < tick,
            forall|i: int| first <= i < starts.len() ==> starts[i] >= tick,
            forall|i: int| 0 <= i < last ==> starts[i] < end_t,
            forall|i: int| last <= i < starts.len() ==> starts[i] >= end_t,
            positions@.len() == ev_idx - first,
            forall|k: int|
                0 <= k < positions@.len() ==> #[trigger] positions@[k] == (starts[first + k]
                    - tick) as usize && positions@[k] < len,
        decreases ev_count - ev_idx,
    {
        assert(starts[ev_idx as int] >= tick);
        let position = (events_start_ticks[ev_idx] - tick) as usize;
        positions.push(position);
        ev_idx = ev_idx + 1;
    }
    assert(ev_idx == last);
    assert(positions@ =~= trigger_positions(starts, tick as int, len as int));
    *event_index = ev_idx;
    positions
}

} // verus!

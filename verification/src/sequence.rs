use std::collections::VecDeque;
use vstd::prelude::*;

verus! {

/// The ticks at which an event of a harmonic starts and ends.
#[derive(Clone, Copy, Debug, PartialEq, Eq, Structural)]
pub struct EventTicks {
    pub start_tick: i64,
    pub end_tick: i64,
}

/// The event at `i` of a harmonic's events, once it has been cut so that it
/// ends no later than the next event starts.
pub open spec fn limited_event(events: Seq<EventTicks>, i: int) -> EventTicks {
    if i + 1 < events.len() && events[i].end_tick > events[i + 1].start_tick {
        EventTicks { start_tick: events[i].start_tick, end_tick: events[i + 1].start_tick }
    } else {
        events[i]
    }
}

/// A harmonic's events where no event overlaps the one that follows it.
pub open spec fn limited_events(events: Seq<EventTicks>) -> Seq<EventTicks> {
    Seq::new(events.len(), |i: int| limited_event(events, i))
}

/// Once cut, no event of a harmonic ends after the next one starts, and each event
/// keeps its start.
pub proof fn lemma_limited_no_overlap(events: Seq<EventTicks>)
    ensures
        limited_events(events).len() == events.len(),
        forall|i: int|
            0 <= i < events.len() ==> (#[trigger] limited_events(events)[i]).start_tick
                == events[i].start_tick,
        forall|i: int|
            0 <= i < events.len() - 1 ==> (#[trigger] limited_events(events)[i]).end_tick
                <= limited_events(events)[i + 1].start_tick,
{
}

/// Cutting the events of a harmonic a second time changes nothing.
pub proof fn lemma_limited_idempotent(events: Seq<EventTicks>)
    ensures
        limited_events(limited_events(events)) == limited_events(events),
{
    lemma_limited_no_overlap(events);
    let once = limited_events(events);
    assert forall|i: int| 0 <= i < once.len() implies #[trigger] limited_events(once)[i]
        == once[i] by {
        if i + 1 < once.len() {
            assert(once[i].end_tick <= once[i + 1].start_tick);
        }
    }
    assert(limited_events(once) =~= once);
}

fn limit_harmonic(events: &mut Vec<EventTicks>)
    requires
        old(events).len() > 0,
    ensures
        final(events)@ == limited_events(old(events)@),
{
    let ghost orig = events@;
    let last = events.len() - 1;
    let mut idx: usize = 0;
    while idx < last
        invariant
            last + 1 == orig.len(),
            events@.len() == orig.len(),
            idx <= last,
            forall|j: int| 0 <= j < idx ==> events@[j] == limited_event(orig, j),
            forall|j: int| idx <= j < orig.len() ==> events@[j] == orig[j],
        decreases last - idx,
    {
        let next_start = events[idx + 1].start_tick;
        if events[idx].end_tick > next_start {
            let start = events[idx].start_tick;
            events.set(idx, EventTicks { start_tick: start, end_tick: next_start });
        }
        idx = idx + 1;
    }
    assert(events@ =~= limited_events(orig));
}

/// Cuts each event of each harmonic so that it ends no later than the next
/// event of that harmonic starts.
pub fn limit_overflowing_durations(harmonics_events: &mut VecDeque<Vec<EventTicks>>)
    requires
        forall|h: int| 0 <= h < old(harmonics_events)@.len() ==> #[trigger] old(harmonics_events)@[h].len() > 0,
    ensures
        final(harmonics_events)@.len() == old(harmonics_events)@.len(),
        forall|h: int|
            0 <= h < old(harmonics_events)@.len() ==> #[trigger] final(harmonics_events)@[h]@
                == limited_events(old(harmonics_events)@[h]@),
{
    let ghost orig = harmonics_events@;
    let count = harmonics_events.len();
    let mut done: usize = 0;
    while done < count
        invariant
            count == orig.len(),
            done <= count,
            harmonics_events@.len() == count,
            forall|h: int|
                0 <= h < count - done ==> #[trigger] harmonics_events@[h] == orig[h + done],
            forall|h: int|
                count - done <= h < count ==> #[trigger] harmonics_events@[h]@ == limited_events(
                    orig[h - (count - done)]@,
                ),
            forall|h: int| 0 <= h < orig.len() ==> #[trigger] orig[h].len() > 0,
        decreases count - done,
    {
        let front = harmonics_events.pop_front();
        match front {
            Some(events) => {
                let mut events = events;
                assert(events@ == orig[done as int]@);
                limit_harmonic(&mut events);
                harmonics_events.push_back(events);
            },
            None => {},
        }
        done = done + 1;
    }
}

/// Cutting never lengthens an event nor moves its start: an event that ends no later than
/// the next one starts (or that is the last one) is kept as it is, and an event that
/// overlaps the next one ends where the next one starts.
pub proof fn lemma_limited_never_lengthens(events: Seq<EventTicks>)
    ensures
        forall|i: int|
            0 <= i < events.len() ==> (#[trigger] limited_events(events)[i]).end_tick
                <= events[i].end_tick,
        forall|i: int|
            0 <= i < events.len() && (i + 1 == events.len() || events[i].end_tick
                <= events[i + 1].start_tick) ==> #[trigger] limited_events(events)[i] == events[i],
        forall|i: int|
            0 <= i < events.len() - 1 && events[i].end_tick > events[i + 1].start_tick ==> (
            #[trigger] limited_events(events)[i]).end_tick == events[i + 1].start_tick,
{
}

} // verus!

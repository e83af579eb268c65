//! The ticks that bound an audio event of a sequence.
use vstd::prelude::*;

verus! {

/// The ticks of an audio event: where it starts, where its fade-in ends, where its
/// fade-out starts, where it ends, and the envelope that shapes it.
#[derive(Debug, PartialEq, Eq, Structural, Clone, Copy)]
pub struct AudioEventBase {
    pub start_tick: i64,
    pub fadein_tick: i64,
    pub fadeout_tick: i64,
    pub end_tick: i64,
    pub envelop_index: usize,
}

impl AudioEventBase {
    pub fn new(
        start_tick: i64,
        fadein_tick: i64,
        fadeout_tick: i64,
        end_tick: i64,
        envelop_index: usize,
    ) -> (r: Self)
        ensures
            r.start_tick == start_tick,
            r.fadein_tick == fadein_tick,
            r.fadeout_tick == fadeout_tick,
            r.end_tick == end_tick,
            r.envelop_index == envelop_index,
    {
        Self { start_tick, fadein_tick, fadeout_tick, end_tick, envelop_index }
    }
}

/// The tick where the fade-in of an event ends: `fade_len` ticks after its start, but
/// not after its end; its start when it has no fade-in.
pub open spec fn fadein_end(start_tick: int, end_tick: int, fadein: bool, fade_len: int) -> int {
    if fadein {
        if start_tick + fade_len <= end_tick {
            start_tick + fade_len
        } else {
            end_tick
        }
    } else {
        start_tick
    }
}

/// The tick where the fade-out of an event starts: `fade_len` ticks before its end, but
/// not before its start; its end when it has no fade-out.
pub open spec fn fadeout_start(start_tick: int, end_tick: int, fadeout: bool, fade_len: int) -> int {
    if fadeout {
        if start_tick >= end_tick - fade_len {
            start_tick
        } else {
            end_tick - fade_len
        }
    } else {
        end_tick
    }
}

/// The fade-in of an event ends, and its fade-out starts, within the event.
pub proof fn lemma_fades_within_event(
    start_tick: int,
    end_tick: int,
    fadein: bool,
    fadeout: bool,
    fade_len: int,
)
    requires
        start_tick <= end_tick,
        0 <= fade_len,
    ensures
        start_tick <= fadein_end(start_tick, end_tick, fadein, fade_len) <= end_tick,
        start_tick <= fadeout_start(start_tick, end_tick, fadeout, fade_len) <= end_tick,
{
}

/// The tick where the fade-in of an event ends (see [`fadein_end`]).
pub fn fadein_tick(start_tick: i64, end_tick: i64, fadein: bool, fade_len: i64) -> (r: i64)
    requires
        fadein ==> i64::MIN <= start_tick + fade_len <= i64::MAX,
    ensures
        r == fadein_end(start_tick as int, end_tick as int, fadein, fade_len as int),
{
    if fadein {
        let t = start_tick + fade_len;
        if t <= end_tick {
            t
        } else {
            end_tick
        }
    } else {
        start_tick
    }
}

/// The tick where the fade-out of an event starts (see [`fadeout_start`]).
pub fn fadeout_tick(start_tick: i64, end_tick: i64, fadeout: bool, fade_len: i64) -> (r: i64)
    requires
        fadeout ==> i64::MIN <= end_tick - fade_len <= i64::MAX,
    ensures
        r == fadeout_start(start_tick as int, end_tick as int, fadeout, fade_len as int),
{
    if fadeout {
        let t = end_tick - fade_len;
        if start_tick >= t {
            start_tick
        } else {
            t
        }
    } else {
        end_tick
    }
}

} // verus!

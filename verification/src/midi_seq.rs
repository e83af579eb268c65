//! The checks of a MIDI output sequence.
use vstd::prelude::*;

verus! {

/// The most channels that a MIDI output has.
pub const MAX_MIDI_CHANNELS: usize = 16;

/// The message of a MIDI output `id` that has `count` channels, more than allowed.
pub open spec fn too_many_channels_message(id: Seq<char>, count: nat) -> Seq<char> {
    "Midi output "@ + id + " have "@ + crate::session::decimal_text(count)
        + " channels instead of 16 maximum!"@
}

/// Checks that the MIDI output `id` has at most 16 channels; the error message says how
/// many it has.
pub fn check_midi_channels(id: &str, channels_count: usize) -> (r: Result<(), String>)
    ensures
        r is Ok <==> channels_count <= MAX_MIDI_CHANNELS,
        r matches Err(e) ==> e@ == too_many_channels_message(id@, channels_count as nat),
{
    if channels_count > MAX_MIDI_CHANNELS {
        let mut e = "Midi output ".to_owned();
        e.append(id);
        e.append(" have ");
        let count = crate::session::decimal_string(channels_count as u64);
        e.append(count.as_str());
        e.append(" channels instead of 16 maximum!");
        Err(e)
    } else {
        Ok(())
    }
}

} // verus!

//! The tseq sequencing language of a modular audio application, and the
//! session rules around it.
//!
//! - `grammar`, `parser`: the grammar of tseq texts and the parsers that follow it.
//! - `binder`: the order in which lines and sequences are built, and the checks of
//!   their references.
//! - `pitch`, `sequence`, `trigger`, `audio_event`: transformations of pitch lines, and
//!   the ticks of the events of a sequence.
//! - `session`, `save`: reading and writing the declarations of a session file.
//! - `midi_seq`: the checks of a MIDI output.
//! - `player`: the orders and states of the audio player.
//! - `audio_data`, `output_presenter`, `talker_control`, `settings`, `gp_error`: the
//!   plain parts of the application around the sequencer.
//! - `text`: characters of strings.
pub mod grammar;
pub mod parser;
pub mod binder;
pub mod pitch;
pub mod sequence;
pub mod trigger;
pub mod audio_event;
pub mod session;
pub mod save;
pub mod midi_seq;
pub mod player;
pub mod audio_data;
pub mod output_presenter;
pub mod talker_control;
pub mod settings;
pub mod gp_error;
pub mod text;

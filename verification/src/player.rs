//! The decisions of the audio player: which order goes to the playing thread for each
//! command, the state the player is in after it, and what the playing thread does next
//! for each order it gets.
use vstd::prelude::*;

verus! {

/// The state of the player.
#[derive(Debug, PartialEq, Eq, Structural, Clone, Copy)]
pub enum State {
    Playing,
    Paused,
    Stopped,
}

/// An order sent to the playing thread.
#[derive(Debug, PartialEq, Eq, Structural, Clone, Copy)]
pub enum Order {
    Start,
    Play,
    Pause,
    Stop,
    Exit,
}

/// A command given to the player.
#[derive(Debug, PartialEq, Eq, Structural, Clone, Copy)]
pub enum Command {
    Start,
    Pause,
    Stop,
    Exit,
}

/// What the player does for a command: the order it sends (none when there is nothing to
/// tell the playing thread), the state it is in when the order was sent, and the state it
/// is in when the order could not be sent.
#[derive(Debug, PartialEq, Eq, Structural, Clone, Copy)]
pub struct Transition {
    pub order: Option<Order>,
    pub sent: State,
    pub not_sent: State,
}

/// The transition of the player in state `state` for `command`:
/// - start sends `Start` and plays;
/// - pause toggles between playing (sending `Pause`) and paused (sending `Play`), and
///   changes the state even when the order could not be sent; a stopped player stays
///   stopped and sends nothing;
/// - stop sends `Stop` unless the player is stopped already, and stops;
/// - exit sends `Exit` and stops.
/// Apart from pause, a command whose order could not be sent leaves the state as it was.
pub open spec fn transition_of(state: State, command: Command) -> Transition {
    match command {
        Command::Start => Transition { order: Some(Order::Start), sent: State::Playing, not_sent: state },
        Command::Pause => match state {
            State::Playing => Transition {
                order: Some(Order::Pause),
                sent: State::Paused,
                not_sent: State::Paused,
            },
            State::Paused => Transition {
                order: Some(Order::Play),
                sent: State::Playing,
                not_sent: State::Playing,
            },
            State::Stopped => Transition { order: None, sent: State::Stopped, not_sent: State::Stopped },
        },
        Command::Stop => Transition {
            order: if state == State::Stopped {
                None
            } else {
                Some(Order::Stop)
            },
            sent: State::Stopped,
            not_sent: state,
        },
        Command::Exit => Transition { order: Some(Order::Exit), sent: State::Stopped, not_sent: state },
    }
}

/// The transition of the player in state `state` for `command` (see [`transition_of`]).
pub fn transition(state: State, command: Command) -> (r: Transition)
    ensures
        r == transition_of(state, command),
{
    match command {
        Command::Start => Transition { order: Some(Order::Start), sent: State::Playing, not_sent: state },
        Command::Pause => match state {
            State::Playing => Transition {
                order: Some(Order::Pause),
                sent: State::Paused,
                not_sent: State::Paused,
            },
            State::Paused => Transition {
                order: Some(Order::Play),
                sent: State::Playing,
                not_sent: State::Playing,
            },
            State::Stopped => Transition { order: None, sent: State::Stopped, not_sent: State::Stopped },
        },
        Command::Stop => Transition {
            order: match state {
                State::Stopped => None,
                _ => Some(Order::Stop),
            },
            sent: State::Stopped,
            not_sent: state,
        },
        Command::Exit => Transition { order: Some(Order::Exit), sent: State::Stopped, not_sent: state },
    }
}

/// Pausing twice brings the player back to the state it was in, and a stopped player
/// that is stopped again sends nothing.
pub proof fn lemma_pause_toggles(state: State)
    ensures
        transition_of(transition_of(state, Command::Pause).sent, Command::Pause).sent == state,
        transition_of(State::Stopped, Command::Stop).order is None,
{
}

/// Where the playing thread stands: the tick it renders from next, and the ticks between
/// which it plays.
#[derive(Debug, PartialEq, Eq, Structural, Clone, Copy)]
pub struct PlaybackState {
    pub tick: i64,
    pub start_tick: i64,
    pub end_tick: i64,
}

/// What the playing thread does next: render this many ticks from its tick, wait for the
/// next order, or end.
#[derive(Debug, PartialEq, Eq, Structural, Clone, Copy)]
pub enum PlayerStep {
    Render(usize),
    WaitOrder,
    Exit,
}

/// Where the playing thread stands when it starts: at tick zero, playing from zero on
/// without end.
pub fn initial_playback() -> (r: PlaybackState)
    ensures
        r == (PlaybackState { tick: 0, start_tick: 0, end_tick: i64::MAX }),
{
    PlaybackState { tick: 0, start_tick: 0, end_tick: i64::MAX }
}

/// The chunk to render from `s`: past the end the tick goes back to the start; the
/// length is `chunk` ticks, or what is left up to the end when that is less.
pub open spec fn render_of(s: PlaybackState, chunk: int) -> (PlaybackState, PlayerStep) {
    let t = if s.tick > s.end_tick {
        s.start_tick
    } else {
        s.tick
    };
    let len = if t + chunk < s.end_tick {
        chunk
    } else {
        s.end_tick - t
    };
    (PlaybackState { tick: t, ..s }, PlayerStep::Render(len as usize))
}

/// What the playing thread does for the order it got, if any, from `s`:
/// - exit ends;
/// - pause waits for the next order;
/// - stop goes back to the start tick and waits for the next order;
/// - start goes back to the start tick and renders;
/// - play, or no order, renders (see [`render_of`]).
pub open spec fn playback_step_of(s: PlaybackState, order: Option<Order>, chunk: int) -> (
    PlaybackState,
    PlayerStep,
) {
    match order {
        Some(Order::Exit) => (s, PlayerStep::Exit),
        Some(Order::Pause) => (s, PlayerStep::WaitOrder),
        Some(Order::Stop) => (PlaybackState { tick: s.start_tick, ..s }, PlayerStep::WaitOrder),
        Some(Order::Start) => render_of(PlaybackState { tick: s.start_tick, ..s }, chunk),
        _ => render_of(s, chunk),
    }
}

/// What the playing thread does once the order it waited for came: exit ends; any other
/// order renders from where it stands, the order itself being ignored.
pub open spec fn resume_of(s: PlaybackState, received: Order, chunk: int) -> (
    PlaybackState,
    PlayerStep,
) {
    if received == Order::Exit {
        (s, PlayerStep::Exit)
    } else {
        render_of(s, chunk)
    }
}

fn render(s: PlaybackState, chunk_size: usize) -> (r: (PlaybackState, PlayerStep))
    requires
        s.start_tick <= s.end_tick,
        chunk_size <= i64::MAX,
    ensures
        r == render_of(s, chunk_size as int),
{
    let t = if s.tick > s.end_tick {
        s.start_tick
    } else {
        s.tick
    };
    let len: usize = if (t as i128) + (chunk_size as i128) < (s.end_tick as i128) {
        chunk_size
    } else {
        assert(0 <= s.end_tick - t <= chunk_size);
        (s.end_tick - t) as usize
    };
    (PlaybackState { tick: t, ..s }, PlayerStep::Render(len))
}

/// What the playing thread does for the order it got, if any (see [`playback_step_of`]).
pub fn playback_step(s: PlaybackState, order: Option<Order>, chunk_size: usize) -> (r: (
    PlaybackState,
    PlayerStep,
))
    requires
        s.start_tick <= s.end_tick,
        chunk_size <= i64::MAX,
    ensures
        r == playback_step_of(s, order, chunk_size as int),
{
    match order {
        Some(Order::Exit) => (s, PlayerStep::Exit),
        Some(Order::Pause) => (s, PlayerStep::WaitOrder),
        Some(Order::Stop) => (PlaybackState { tick: s.start_tick, ..s }, PlayerStep::WaitOrder),
        Some(Order::Start) => render(PlaybackState { tick: s.start_tick, ..s }, chunk_size),
        _ => render(s, chunk_size),
    }
}

/// What the playing thread does once the order it waited for came (see [`resume_of`]).
pub fn resume(s: PlaybackState, received: Order, chunk_size: usize) -> (r: (
    PlaybackState,
    PlayerStep,
))
    requires
        s.start_tick <= s.end_tick,
        chunk_size <= i64::MAX,
    ensures
        r == resume_of(s, received, chunk_size as int),
{
    match received {
        Order::Exit => (s, PlayerStep::Exit),
        _ => render(s, chunk_size),
    }
}

/// The playing thread after `len` ticks were rendered: its tick moves on by `len`.
pub fn advance(s: PlaybackState, len: usize) -> (r: PlaybackState)
    requires
        len <= i64::MAX,
        s.tick + len <= i64::MAX,
    ensures
        r == (PlaybackState { tick: (s.tick + len) as i64, ..s }),
{
    PlaybackState { tick: s.tick + len as i64, ..s }
}

/// A rendered chunk never goes past the end tick: rendering from a step and moving on by
/// at most the rendered length leaves the tick between where the chunk started and the
/// end, and the start and end ticks never change.
pub proof fn lemma_render_within_end(s: PlaybackState, order: Option<Order>, chunk: int, done: int)
    requires
        s.start_tick <= s.end_tick,
        0 <= chunk,
        playback_step_of(s, order, chunk).1 matches PlayerStep::Render(len) && 0 <= done <= len,
    ensures
        ({
            let (t, step) = playback_step_of(s, order, chunk);
            &&& t.start_tick == s.start_tick
            &&& t.end_tick == s.end_tick
            &&& t.tick <= t.tick + done <= t.end_tick
            &&& step matches PlayerStep::Render(len) && len <= chunk
        }),
{
}

/// Each command sends only its own order: start sends `Start`; stop sends `Stop`, unless
/// the player is stopped already, when it sends nothing; exit sends `Exit`; pause sends
/// `Pause` to a playing player, `Play` to a paused one, and nothing to a stopped one.
pub proof fn lemma_commands_send_their_order(state: State)
    ensures
        transition_of(state, Command::Start).order == Some(Order::Start),
        transition_of(state, Command::Exit).order == Some(Order::Exit),
        transition_of(state, Command::Stop).order is None || transition_of(
            state,
            Command::Stop,
        ).order == Some(Order::Stop),
        transition_of(state, Command::Stop).order is Some <==> state != State::Stopped,
        transition_of(state, Command::Stop).sent == State::Stopped,
        transition_of(state, Command::Pause).order == Some(Order::Pause) <==> state
            == State::Playing,
        transition_of(state, Command::Pause).order == Some(Order::Play) <==> state
            == State::Paused,
        transition_of(state, Command::Pause).order is None <==> state == State::Stopped,
{
}

/// Stopping a player that is not stopped brings the playing thread back to its start tick,
/// where it waits for the next order; the start and end ticks are kept.
pub proof fn lemma_stop_rewinds(state: State, s: PlaybackState, chunk: int)
    requires
        state != State::Stopped,
    ensures
        ({
            let (t, step) = playback_step_of(s, transition_of(state, Command::Stop).order, chunk);
            &&& t.tick == s.start_tick
            &&& t.start_tick == s.start_tick
            &&& t.end_tick == s.end_tick
            &&& step == PlayerStep::WaitOrder
        }),
{
}

} // verus!

//! Local-file playback: the decisions of the playback worker (what each
//! command, opened file and decoding round does to the player's state and
//! which events it reports), the handle the app holds, and the tag and
//! extension rules for local files.

use vstd::prelude::*;
use std::collections::VecDeque;
use std::sync::{Arc, Mutex, MutexGuard};
use std::sync::atomic::{AtomicBool, AtomicU64};
use std::sync::atomic::Ordering;
use crate::text::{ascii_lower, chars_of, chars_eq, lower_ascii_chars};

verus! {

/// `std::sync::Mutex`, guarding the event queue the worker fills.
#[verifier::external_type_specification]
#[verifier::external_body]
#[verifier::reject_recursive_types(T)]
pub struct ExMutex<T: ?Sized>(Mutex<T>);

/// `std::sync::MutexGuard`, the lock held while the event queue is emptied.
#[verifier::external_type_specification]
#[verifier::external_body]
#[verifier::reject_recursive_types(T)]
pub struct ExMutexGuard<'a, T: ?Sized + 'a>(MutexGuard<'a, T>);

/// What the worker reports back, shaped like the Spotify player's events so
/// the frontend treats local and Spotify tracks alike.
#[derive(Clone, Debug, PartialEq, Eq)]
pub enum LocalEvent {
    Playing { position_ms: u32 },
    Paused { position_ms: u32 },
    Stopped,
    EndOfTrack,
    Position { position_ms: u32 },
    /// The file couldn't be opened or decoded.
    Failed { path: String, reason: String },
}

/// A request queued to the worker.
#[derive(Clone, Debug, PartialEq, Eq)]
pub enum Command {
    Load(String),
    Play,
    Pause,
    Stop,
    Seek(u32),
}

/// What the worker keeps between steps: whether a file is open, the shared
/// playing flag, position and duration it publishes, whether the open file's
/// end has been reported, and the output rate of the open file.
#[derive(Clone, Copy, Debug, PartialEq, Eq)]
pub struct WorkerState {
    pub active: bool,
    pub playing: bool,
    pub position_ms: u64,
    pub duration_ms: u64,
    pub ended_sent: bool,
    pub sample_rate: u32,
}

/// What the worker has to do outside after a step.
#[derive(Clone, Debug, PartialEq, Eq)]
pub enum WorkerAction {
    /// Nothing beyond the next round.
    Wait,
    /// Open this file and report back with `on_opened`.
    Open(String),
    /// Seek the open file, drop the buffered audio and set the played-frame
    /// counter to `frames`.
    Seek { position_ms: u32, frames: u64 },
    /// Drop the open file.
    Close,
    /// The command channel is gone and nothing is open: stop the worker.
    Exit,
}

/// The outcome of one decision: the new state, the events to queue in order,
/// and the outside work to do.
pub struct Step {
    pub state: WorkerState,
    pub events: Vec<LocalEvent>,
    pub action: WorkerAction,
}

pub open spec fn idle_state() -> WorkerState {
    WorkerState {
        active: false,
        playing: false,
        position_ms: 0,
        duration_ms: 0,
        ended_sent: false,
        sample_rate: 0,
    }
}

/// What a received command (or `None`: nothing received, or the channel
/// closed) does.
pub open spec fn command_step(s: WorkerState, cmd: Option<Command>) -> (WorkerState, Seq<LocalEvent>, WorkerAction) {
    match cmd {
        Some(Command::Load(path)) => (s, Seq::empty(), WorkerAction::Open(path)),
        Some(Command::Play) => if s.active {
            (
                WorkerState { playing: true, ..s },
                seq![LocalEvent::Playing { position_ms: s.position_ms as u32 }],
                WorkerAction::Wait,
            )
        } else {
            (s, Seq::empty(), WorkerAction::Wait)
        },
        Some(Command::Pause) => if s.active {
            (
                WorkerState { playing: false, ..s },
                seq![LocalEvent::Paused { position_ms: s.position_ms as u32 }],
                WorkerAction::Wait,
            )
        } else {
            (s, Seq::empty(), WorkerAction::Wait)
        },
        Some(Command::Stop) => (
            WorkerState { active: false, playing: false, position_ms: 0, ..s },
            seq![LocalEvent::Stopped],
            WorkerAction::Close,
        ),
        Some(Command::Seek(ms)) => if s.active {
            (
                WorkerState { position_ms: ms as u64, ended_sent: false, ..s },
                Seq::empty(),
                WorkerAction::Seek { position_ms: ms, frames: seek_frames(ms, s.sample_rate) },
            )
        } else {
            (s, Seq::empty(), WorkerAction::Wait)
        },
        None => if s.active {
            (s, Seq::empty(), WorkerAction::Wait)
        } else {
            (s, Seq::empty(), WorkerAction::Exit)
        },
    }
}

/// The played-frame count at `ms` milliseconds for `rate` frames a second.
pub open spec fn seek_frames(ms: u32, rate: u32) -> u64 {
    (ms as int * rate as int / 1000) as u64
}

/// What the outcome of opening `path` does. `stored_duration` is the duration
/// the open published before it finished, if it got that far; `result` is the
/// output rate of the opened file, or why it failed.
pub open spec fn opened_step(
    s: WorkerState,
    path: String,
    stored_duration: Option<u64>,
    result: Result<u32, String>,
) -> (WorkerState, Seq<LocalEvent>, WorkerAction) {
    let duration = match stored_duration {
        Some(d) => d,
        None => s.duration_ms,
    };
    match result {
        Ok(rate) => (
            WorkerState {
                active: true,
                playing: true,
                position_ms: 0,
                duration_ms: match stored_duration {
                    Some(d) => d,
                    None => 0,
                },
                ended_sent: false,
                sample_rate: rate,
            },
            seq![LocalEvent::Playing { position_ms: 0 }],
            WorkerAction::Wait,
        ),
        Err(reason) => (
            WorkerState { active: false, playing: false, duration_ms: duration, ..s },
            seq![LocalEvent::Failed { path: path, reason: reason }],
            WorkerAction::Close,
        ),
    }
}

/// The position, in milliseconds, of `frames` played frames at `rate` frames
/// a second (a rate of 0 counts as 1): the frame count times 1000, wrapped to
/// 64 bits as `u64` arithmetic wraps, divided by the rate and cut to 32 bits.
pub open spec fn played_ms(frames: u64, rate: u32) -> u32 {
    ((frames as int * 1000) % 0x1_0000_0000_0000_0000 / (if rate == 0 { 1 } else { rate as int })) as u32
}

/// What a decoding round does: the clock follows the frames actually played,
/// a playing worker reports the position, and the end of the file is reported
/// once and stops playback.
pub open spec fn pumped_step(s: WorkerState, ended: bool, frames_played: u64) -> (WorkerState, Seq<LocalEvent>, WorkerAction) {
    let pos = played_ms(frames_played, s.sample_rate);
    let moved = WorkerState { position_ms: pos as u64, ..s };
    let reported: Seq<LocalEvent> = if s.playing {
        seq![LocalEvent::Position { position_ms: pos }]
    } else {
        Seq::empty()
    };
    if ended && !s.ended_sent {
        (
            WorkerState { ended_sent: true, playing: false, ..moved },
            reported.push(LocalEvent::EndOfTrack),
            WorkerAction::Wait,
        )
    } else {
        (moved, reported, WorkerAction::Wait)
    }
}

impl WorkerState {
    /// The worker before anything was loaded.
    pub fn idle() -> (s: WorkerState)
        ensures
            s == idle_state(),
    {
        WorkerState {
            active: false,
            playing: false,
            position_ms: 0,
            duration_ms: 0,
            ended_sent: false,
            sample_rate: 0,
        }
    }
}

fn low_u32(v: u64) -> (r: u32)
    ensures
        r == v as u32,
{
    v as u32
}

/// Decide what a received command does (`None`: nothing arrived, or the
/// channel closed).
pub fn handle_command(s: WorkerState, cmd: Option<Command>) -> (r: Step)
    ensures
        (r.state, r.events@, r.action) == command_step(s, cmd),
{
    match cmd {
        Some(Command::Load(path)) => Step { state: s, events: Vec::new(), action: WorkerAction::Open(path) },
        Some(Command::Play) => {
            if s.active {
                let mut events = Vec::new();
                events.push(LocalEvent::Playing { position_ms: low_u32(s.position_ms) });
                Step { state: WorkerState { playing: true, ..s }, events, action: WorkerAction::Wait }
            } else {
                Step { state: s, events: Vec::new(), action: WorkerAction::Wait }
            }
        },
        Some(Command::Pause) => {
            if s.active {
                let mut events = Vec::new();
                events.push(LocalEvent::Paused { position_ms: low_u32(s.position_ms) });
                Step { state: WorkerState { playing: false, ..s }, events, action: WorkerAction::Wait }
            } else {
                Step { state: s, events: Vec::new(), action: WorkerAction::Wait }
            }
        },
        Some(Command::Stop) => {
            let mut events = Vec::new();
            events.push(LocalEvent::Stopped);
            Step {
                state: WorkerState { active: false, playing: false, position_ms: 0, ..s },
                events,
                action: WorkerAction::Close,
            }
        },
        Some(Command::Seek(ms)) => {
            if s.active {
                let a = ms as u64;
                let b = s.sample_rate as u64;
                assert(a * b <= 0xFFFF_FFFFu64 * 0xFFFF_FFFFu64) by (nonlinear_arith)
                    requires
                        a <= 0xFFFF_FFFFu64,
                        b <= 0xFFFF_FFFFu64,
                ;
                let frames = a * b / 1000;
                Step {
                    state: WorkerState { position_ms: ms as u64, ended_sent: false, ..s },
                    events: Vec::new(),
                    action: WorkerAction::Seek { position_ms: ms, frames },
                }
            } else {
                Step { state: s, events: Vec::new(), action: WorkerAction::Wait }
            }
        },
        None => {
            if s.active {
                Step { state: s, events: Vec::new(), action: WorkerAction::Wait }
            } else {
                Step { state: s, events: Vec::new(), action: WorkerAction::Exit }
            }
        },
    }
}

/// Decide what the outcome of opening `path` does.
pub fn on_opened(s: WorkerState, path: String, stored_duration: Option<u64>, result: Result<u32, String>) -> (r: Step)
    ensures
        (r.state, r.events@, r.action) == opened_step(s, path, stored_duration, result),
{
    let duration = match stored_duration {
        Some(d) => d,
        None => s.duration_ms,
    };
    match result {
        Ok(rate) => {
            let mut events = Vec::new();
            events.push(LocalEvent::Playing { position_ms: 0 });
            Step {
                state: WorkerState {
                    active: true,
                    playing: true,
                    position_ms: 0,
                    duration_ms: match stored_duration {
                        Some(d) => d,
                        None => 0,
                    },
                    ended_sent: false,
                    sample_rate: rate,
                },
                events,
                action: WorkerAction::Wait,
            }
        },
        Err(reason) => {
            let mut events = Vec::new();
            events.push(LocalEvent::Failed { path, reason });
            Step {
                state: WorkerState { active: false, playing: false, duration_ms: duration, ..s },
                events,
                action: WorkerAction::Close,
            }
        },
    }
}

/// Decide what a decoding round of the open file does, given whether the file
/// has been decoded and played out and how many frames have been played.
pub fn after_pump(s: WorkerState, ended: bool, frames_played: u64) -> (r: Step)
    ensures
        (r.state, r.events@, r.action) == pumped_step(s, ended, frames_played),
{
    let rate: u128 = if s.sample_rate == 0 { 1 } else { s.sample_rate as u128 };
    let scaled: u128 = frames_played as u128 * 1000 % 0x1_0000_0000_0000_0000u128;
    let pos = (scaled / rate) as u32;
    let mut state = WorkerState { position_ms: pos as u64, ..s };
    let mut events = Vec::new();
    if s.playing {
        events.push(LocalEvent::Position { position_ms: pos });
    }
    if ended && !s.ended_sent {
        state = WorkerState { ended_sent: true, playing: false, ..state };
        events.push(LocalEvent::EndOfTrack);
    }
    assert(events@ =~= pumped_step(s, ended, frames_played).1);
    Step { state, events, action: WorkerAction::Wait }
}

/// Stopping leaves nothing open or playing, rewinds the clock to zero and
/// reports `Stopped`, whatever the worker was doing.
pub proof fn law_stop_resets(s: WorkerState)
    ensures
        ({
            let (t, events, action) = command_step(s, Some(Command::Stop));
            &&& !t.active
            &&& !t.playing
            &&& t.position_ms == 0
            &&& events == seq![LocalEvent::Stopped]
            &&& action == WorkerAction::Close
        }),
{
}

/// Play, pause and seek do nothing, and report nothing, while no file is open.
pub proof fn law_transport_needs_file(s: WorkerState, cmd: Command)
    requires
        !s.active,
        cmd == Command::Play || cmd == Command::Pause || cmd is Seek,
    ensures
        command_step(s, Some(cmd)) == (s, Seq::<LocalEvent>::empty(), WorkerAction::Wait),
{
}

/// A seek of the open file moves the clock to the target and sets the played
/// frames to match it; the file stays open, keeps playing or stays paused as
/// it was, and keeps its rate and duration.
pub proof fn law_seek_moves_clock(s: WorkerState, ms: u32)
    requires
        s.active,
    ensures
        ({
            let (t, events, action) = command_step(s, Some(Command::Seek(ms)));
            &&& t.active
            &&& t.playing == s.playing
            &&& t.sample_rate == s.sample_rate
            &&& t.duration_ms == s.duration_ms
            &&& t.position_ms == ms
            &&& !t.ended_sent
            &&& events.len() == 0
            &&& action == WorkerAction::Seek {
                position_ms: ms,
                frames: (ms as int * s.sample_rate as int / 1000) as u64,
            }
        }),
{
}

/// Pausing an open file stops playback where it is and reports that
/// position; the file stays open.
pub proof fn law_pause_holds_position(s: WorkerState)
    requires
        s.active,
    ensures
        ({
            let (t, events, action) = command_step(s, Some(Command::Pause));
            &&& t == WorkerState { playing: false, ..s }
            &&& events == seq![LocalEvent::Paused { position_ms: s.position_ms as u32 }]
            &&& action == WorkerAction::Wait
        }),
{
}

/// A load only asks for the file to be opened: nothing changes and nothing
/// is reported until the open finishes.
pub proof fn law_load_asks_to_open(s: WorkerState, path: String)
    ensures
        command_step(s, Some(Command::Load(path))) == (s, Seq::<LocalEvent>::empty(), WorkerAction::Open(path)),
{
}

/// When no command arrives, an open file keeps playing its course, and a
/// worker with nothing open (its channel gone) stops.
pub proof fn law_no_command(s: WorkerState)
    ensures
        command_step(s, None) == (s, Seq::<LocalEvent>::empty(), if s.active {
            WorkerAction::Wait
        } else {
            WorkerAction::Exit
        }),
{
}

/// A file that fails to open leaves nothing playing and reports the path and
/// the reason; one that opens starts playing from zero and keeps publishing
/// the duration its container reported, for the seek bar.
pub proof fn law_load_outcome(s: WorkerState, path: String, stored: Option<u64>, result: Result<u32, String>)
    ensures
        ({
            let (t, events, action) = opened_step(s, path, stored, result);
            match result {
                Ok(rate) => t.active && t.playing && t.position_ms == 0 && t.sample_rate == rate
                    && (stored matches Some(d) ==> t.duration_ms == d)
                    && events == seq![LocalEvent::Playing { position_ms: 0 }],
                Err(reason) => !t.active && !t.playing && action == WorkerAction::Close
                    && events == seq![LocalEvent::Failed { path: path, reason: reason }],
            }
        }),
{
}

/// The end of a file is reported at most once: a round after it was reported
/// reports no `EndOfTrack`, and a round that reports it marks it reported and
/// stops playback.
pub proof fn law_end_reported_once(s: WorkerState, ended: bool, frames: u64)
    ensures
        ({
            let (t, events, _) = pumped_step(s, ended, frames);
            &&& s.ended_sent ==> !events.contains(LocalEvent::EndOfTrack)
            &&& events.contains(LocalEvent::EndOfTrack) ==> t.ended_sent && !t.playing
        }),
{
    let (t, events, _) = pumped_step(s, ended, frames);
    if s.ended_sent {
        if events.contains(LocalEvent::EndOfTrack) {
            let k = choose|k: int| 0 <= k < events.len() && events[k] == LocalEvent::EndOfTrack;
            assert(events.len() <= 1);
        }
    }
    if events.contains(LocalEvent::EndOfTrack) && !(ended && !s.ended_sent) {
        let k = choose|k: int| 0 <= k < events.len() && events[k] == LocalEvent::EndOfTrack;
        assert(events.len() <= 1);
    }
}

/// A paused worker reports no position: the clock only moves on while playing.
pub proof fn law_paused_is_quiet(s: WorkerState, frames: u64)
    requires
        !s.playing,
    ensures
        pumped_step(s, false, frames).1.len() == 0,
{
}

/// A decoding round sets the clock from the frames actually played: the
/// position is the whole milliseconds those frames last at the file's rate
/// (for a frame count whose milliseconds fit the clock), a playing worker
/// reports exactly that position, and nothing else about the file changes
/// but the end-of-file mark and the playing flag.
pub proof fn law_pump_follows_played_frames(s: WorkerState, ended: bool, frames: u64)
    requires
        s.sample_rate > 0,
        frames as int * 1000 <= u64::MAX,
        frames as int * 1000 / s.sample_rate as int <= u32::MAX,
    ensures
        ({
            let (t, events, action) = pumped_step(s, ended, frames);
            &&& t.position_ms * s.sample_rate <= frames * 1000 < (t.position_ms + 1) * s.sample_rate
            &&& s.playing ==> events[0] == LocalEvent::Position { position_ms: t.position_ms as u32 }
            &&& t.active == s.active
            &&& t.sample_rate == s.sample_rate
            &&& t.duration_ms == s.duration_ms
            &&& !(ended && !s.ended_sent) ==> t.playing == s.playing && t.ended_sent == s.ended_sent
            &&& action == WorkerAction::Wait
        }),
{
    let v = frames as int * 1000;
    let r = s.sample_rate as int;
    assert(v % 0x1_0000_0000_0000_0000 == v);
    let q = v / r;
    assert(q * r <= v < (q + 1) * r) by (nonlinear_arith)
        requires
            r > 0,
            q == v / r,
            v >= 0,
    ;
}

/// One thing that happens to the worker: a command arrives (or nothing does),
/// an open finishes, or a decoding round of the open file runs.
#[derive(Debug)]
pub enum WorkerInput {
    Received(Option<Command>),
    Opened { path: String, stored_duration: Option<u64>, result: Result<u32, String> },
    Pumped { ended: bool, frames_played: u64 },
}

/// What one input does to the worker.
pub open spec fn input_step(s: WorkerState, i: WorkerInput) -> (WorkerState, Seq<LocalEvent>, WorkerAction) {
    match i {
        WorkerInput::Received(cmd) => command_step(s, cmd),
        WorkerInput::Opened { path, stored_duration, result } => opened_step(s, path, stored_duration, result),
        WorkerInput::Pumped { ended, frames_played } => pumped_step(s, ended, frames_played),
    }
}

/// The worker's state after a run of inputs, and every event it reported, in
/// order.
pub open spec fn run_worker(s: WorkerState, inputs: Seq<WorkerInput>) -> (WorkerState, Seq<LocalEvent>)
    decreases inputs.len(),
{
    if inputs.len() == 0 {
        (s, Seq::empty())
    } else {
        let (t, events, _) = input_step(s, inputs[0]);
        let (u, rest) = run_worker(t, inputs.drop_first());
        (u, events + rest)
    }
}

/// The worker only plays with a file open.
pub open spec fn playing_needs_file(s: WorkerState) -> bool {
    s.playing ==> s.active
}

/// How many `EndOfTrack` events `events` holds.
pub open spec fn count_ends(events: Seq<LocalEvent>) -> nat
    decreases events.len(),
{
    if events.len() == 0 {
        0
    } else {
        (if events[0] == LocalEvent::EndOfTrack { 1nat } else { 0nat }) + count_ends(events.drop_first())
    }
}

/// Whether an input restarts a file: a successful open, or a seek.
pub open spec fn restarts(i: WorkerInput) -> bool {
    ||| i matches WorkerInput::Opened { result: Ok(_), .. }
    ||| i matches WorkerInput::Received(Some(Command::Seek(_)))
}

/// How many inputs of `inputs` restart a file.
pub open spec fn count_restarts(inputs: Seq<WorkerInput>) -> nat
    decreases inputs.len(),
{
    if inputs.len() == 0 {
        0
    } else {
        (if restarts(inputs[0]) { 1nat } else { 0nat }) + count_restarts(inputs.drop_first())
    }
}

/// 1 while the end of the open file may still be reported, else 0.
pub open spec fn end_pending(s: WorkerState) -> nat {
    if s.ended_sent { 0 } else { 1 }
}

proof fn lemma_count_ends_add(a: Seq<LocalEvent>, b: Seq<LocalEvent>)
    ensures
        count_ends(a + b) == count_ends(a) + count_ends(b),
    decreases a.len(),
{
    if a.len() > 0 {
        assert((a + b).drop_first() =~= a.drop_first() + b);
        lemma_count_ends_add(a.drop_first(), b);
    }
}

proof fn lemma_step_ends(s: WorkerState, i: WorkerInput)
    ensures
        ({
            let (t, events, _) = input_step(s, i);
            &&& count_ends(events) + end_pending(t) <= (if restarts(i) { 1nat } else { 0nat }) + end_pending(s)
            &&& playing_needs_file(s) ==> playing_needs_file(t)
        }),
{
    reveal_with_fuel(count_ends, 3);
    let (t, events, _) = input_step(s, i);
    if let WorkerInput::Pumped { ended, frames_played } = i {
        let pos = played_ms(frames_played, s.sample_rate);
        let reported: Seq<LocalEvent> = if s.playing {
            seq![LocalEvent::Position { position_ms: pos }]
        } else {
            Seq::empty()
        };
        if ended && !s.ended_sent {
            assert(events == reported.push(LocalEvent::EndOfTrack));
            if s.playing {
                assert(events == seq![LocalEvent::Position { position_ms: pos }, LocalEvent::EndOfTrack]);
            } else {
                assert(events == seq![LocalEvent::EndOfTrack]);
            }
        }
    }
}

/// Whatever happens to a worker that plays only with a file open, it keeps
/// playing only with a file open; a fresh worker is such a worker.
pub proof fn law_playing_needs_file(s: WorkerState, inputs: Seq<WorkerInput>)
    requires
        playing_needs_file(s),
    ensures
        playing_needs_file(idle_state()),
        playing_needs_file(run_worker(s, inputs).0),
    decreases inputs.len(),
{
    if inputs.len() > 0 {
        lemma_step_ends(s, inputs[0]);
        law_playing_needs_file(input_step(s, inputs[0]).0, inputs.drop_first());
    }
}

/// Playback starts only by a successful open, or by play while a file is
/// open; it stops on stop, on a failed open, on pause of an open file and
/// once the end of the file is reported.
pub proof fn law_playing_flag(s: WorkerState, i: WorkerInput)
    ensures
        ({
            let (t, events, _) = input_step(s, i);
            &&& (!s.playing && t.playing) ==> (i matches WorkerInput::Opened { result: Ok(_), .. }
                || (i == WorkerInput::Received(Some(Command::Play)) && s.active))
            &&& i == WorkerInput::Received(Some(Command::Stop)) ==> !t.playing
            &&& (i == WorkerInput::Received(Some(Command::Pause)) && s.active) ==> !t.playing
            &&& i matches WorkerInput::Opened { result: Err(_), .. } ==> !t.playing
            &&& events.contains(LocalEvent::EndOfTrack) ==> !t.playing
        }),
{
    let (t, events, _) = input_step(s, i);
    if events.contains(LocalEvent::EndOfTrack) {
        let k = choose|k: int| 0 <= k < events.len() && events[k] == LocalEvent::EndOfTrack;
        assert(i is Pumped);
        if let WorkerInput::Pumped { ended, frames_played } = i {
            if !(ended && !s.ended_sent) {
                assert(events.len() <= 1);
            }
        }
    }
}

/// Over any run, the end of a file is reported at most once per successful
/// open or seek (plus once for a worker whose end was still pending at the
/// start, as a fresh one is not).
pub proof fn law_end_once_per_start(s: WorkerState, inputs: Seq<WorkerInput>)
    ensures
        count_ends(run_worker(s, inputs).1) + end_pending(run_worker(s, inputs).0)
            <= count_restarts(inputs) + end_pending(s),
    decreases inputs.len(),
{
    if inputs.len() > 0 {
        let (t, events, _) = input_step(s, inputs[0]);
        lemma_step_ends(s, inputs[0]);
        law_end_once_per_start(t, inputs.drop_first());
        lemma_count_ends_add(events, run_worker(t, inputs.drop_first()).1);
    }
}

/// Whether an input leaves a paused worker to itself: no command arrives and
/// the decoding rounds see the played-frame count stay at `frames`.
pub open spec fn quiet_input(i: WorkerInput, frames: u64) -> bool {
    ||| i == WorkerInput::Received(None)
    ||| i matches WorkerInput::Pumped { frames_played, .. } && frames_played == frames
}

/// Pausing freezes the clock: until the next command, a paused worker whose
/// output has stopped consuming frames keeps its position, stays paused and
/// reports no position.
pub proof fn law_pause_freezes_clock(s: WorkerState, inputs: Seq<WorkerInput>, frames: u64)
    requires
        !s.playing,
        s.position_ms == played_ms(frames, s.sample_rate) as u64,
        forall|k: int| 0 <= k < inputs.len() ==> quiet_input(#[trigger] inputs[k], frames),
    ensures
        run_worker(s, inputs).0.position_ms == s.position_ms,
        run_worker(s, inputs).0.sample_rate == s.sample_rate,
        !run_worker(s, inputs).0.playing,
        forall|k: int| 0 <= k < run_worker(s, inputs).1.len() ==> !(#[trigger] run_worker(s, inputs).1[k] is Position),
    decreases inputs.len(),
{
    if inputs.len() > 0 {
        let (t, events, _) = input_step(s, inputs[0]);
        assert(quiet_input(inputs[0], frames));
        assert forall|k: int| 0 <= k < inputs.drop_first().len() implies quiet_input(
            #[trigger] inputs.drop_first()[k],
            frames,
        ) by {
            assert(inputs.drop_first()[k] == inputs[k + 1]);
        }
        law_pause_freezes_clock(t, inputs.drop_first(), frames);
        let rest = run_worker(t, inputs.drop_first()).1;
        assert forall|k: int| 0 <= k < events.len() implies !(#[trigger] events[k] is Position) by {
            if let WorkerInput::Pumped { ended, frames_played } = inputs[0] {
                if ended && !s.ended_sent {
                    assert(events == seq![LocalEvent::EndOfTrack]);
                } else {
                    assert(events.len() == 0);
                }
            }
        }
        assert forall|k: int| 0 <= k < (events + rest).len() implies !(#[trigger] (events + rest)[k] is Position) by {
            if k < events.len() {
                assert((events + rest)[k] == events[k]);
            } else {
                assert((events + rest)[k] == rest[k - events.len()]);
            }
        }
    }
}

/// Play resumes where playback was paused: the clock is kept and the
/// reported position is the paused one.
pub proof fn law_play_resumes_in_place(s: WorkerState)
    requires
        s.active,
    ensures
        ({
            let (t, events, _) = command_step(s, Some(Command::Play));
            &&& t.position_ms == s.position_ms
            &&& t.playing
            &&& events == seq![LocalEvent::Playing { position_ms: s.position_ms as u32 }]
        }),
{
}

/// The handle the app holds: it names the commands to queue to the worker,
/// and reads back what the worker publishes through shared state. Queueing a
/// command on the worker's channel is the app's part.
pub struct LocalPlayer {
    events: Arc<Mutex<VecDeque<LocalEvent>>>,
    position_ms: Arc<AtomicU64>,
    playing: Arc<AtomicBool>,
    duration_ms: Arc<AtomicU64>,
}

/// `Mutex::lock` on the event queue; `None` when the lock is poisoned.
#[verifier::external_body]
fn lock_events<'a>(q: &'a Mutex<VecDeque<LocalEvent>>) -> (g: Option<MutexGuard<'a, VecDeque<LocalEvent>>>) {
    q.lock().ok()
}

/// `DerefMut::deref_mut` of the lock guard: the queue it guards. What the
/// queue holds is written by the worker thread, so nothing is stated of it.
#[verifier::external_body]
fn guarded_queue<'a, 'b>(g: &'b mut MutexGuard<'a, VecDeque<LocalEvent>>) -> (q: &'b mut VecDeque<LocalEvent>) {
    &mut **g
}

/// Move every queued event, oldest first, into a list, leaving the queue
/// empty.
pub fn drain_queue(q: &mut VecDeque<LocalEvent>) -> (events: Vec<LocalEvent>)
    ensures
        events@ == old(q)@,
        final(q)@.len() == 0,
{
    let mut events: Vec<LocalEvent> = Vec::new();
    let ghost start = q@;
    while q.len() > 0
        invariant
            events@ + q@ == start,
        decreases q@.len(),
    {
        let ghost before = q@;
        match q.pop_front() {
            Some(e) => {
                events.push(e);
                assert(events@ + q@ =~= start) by {
                    assert(before == seq![e] + q@);
                    assert(events@ + q@ =~= (events@.drop_last() + seq![e]) + q@);
                }
            },
            None => {},
        }
    }
    assert(events@ =~= start);
    events
}

impl LocalPlayer {
    /// A handle over the state the worker publishes.
    pub fn connect(
        events: Arc<Mutex<VecDeque<LocalEvent>>>,
        position_ms: Arc<AtomicU64>,
        playing: Arc<AtomicBool>,
        duration_ms: Arc<AtomicU64>,
    ) -> LocalPlayer {
        LocalPlayer { events, position_ms, playing, duration_ms }
    }

    /// The command that loads (and plays) the file at `path`.
    pub fn load(&self, path: String) -> (c: Command)
        ensures
            c == Command::Load(path),
    {
        Command::Load(path)
    }

    /// The command that resumes playback.
    pub fn play(&self) -> (c: Command)
        ensures
            c == Command::Play,
    {
        Command::Play
    }

    /// The command that pauses playback.
    pub fn pause(&self) -> (c: Command)
        ensures
            c == Command::Pause,
    {
        Command::Pause
    }

    /// The command that stops playback.
    pub fn stop(&self) -> (c: Command)
        ensures
            c == Command::Stop,
    {
        Command::Stop
    }

    /// The command that seeks to `position_ms`.
    pub fn seek(&self, position_ms: u32) -> (c: Command)
        ensures
            c == Command::Seek(position_ms),
    {
        Command::Seek(position_ms)
    }

    /// The position the worker last published, cut to 32 bits. The worker
    /// thread stores it, so nothing is stated of the value.
    pub fn position_ms(&self) -> u32 {
        let v = self.position_ms.load(Ordering::Relaxed);
        low_u32(v)
    }

    /// The duration the worker last published, cut to 32 bits. The worker
    /// thread stores it, so nothing is stated of the value.
    pub fn duration_ms(&self) -> u32 {
        let v = self.duration_ms.load(Ordering::Relaxed);
        low_u32(v)
    }

    /// Whether the worker last published that it is playing. The worker
    /// thread stores the flag, so nothing is stated of the value.
    pub fn is_playing(&self) -> bool {
        self.playing.load(Ordering::Relaxed)
    }

    /// Take the events the worker has queued, oldest first, leaving the queue
    /// empty (as `drain_queue` states under the lock). The worker thread
    /// fills the queue, so nothing is stated here of what comes back.
    pub fn take_events(&self) -> Vec<LocalEvent> {
        match lock_events(&self.events) {
            Some(mut guard) => drain_queue(guarded_queue(&mut guard)),
            None => Vec::new(),
        }
    }
}

/// The channel count a file is decoded with: what its codec reports (2 when
/// it reports none), and at least 1.
pub fn file_channels(reported: Option<usize>) -> (c: usize)
    ensures
        c == match reported {
            Some(n) => if n == 0 { 1 } else { n },
            None => 2,
        },
{
    match reported {
        Some(n) => if n == 0 { 1 } else { n },
        None => 2,
    }
}

/// The channel count the output stream is opened with: the device's own, at
/// least 1.
pub fn device_channels(reported: u16) -> (c: usize)
    ensures
        c == if reported == 0 { 1 } else { reported as usize },
{
    if reported == 0 { 1 } else { reported as usize }
}

/// Whether a file's samples have to be resampled or remapped for the output
/// device: its rate or channel count differs from the device's.
pub fn needs_resampling(file_rate: u32, file_channels: usize, out_rate: u32, out_channels: usize) -> (r: bool)
    ensures
        r == (file_rate != out_rate || file_channels != out_channels),
{
    out_rate != file_rate || out_channels != file_channels
}

/// Title / artist / album / duration read from a file's tags, so a local
/// track shows real names instead of just its file name.
#[derive(Clone, Debug, PartialEq, Eq)]
pub struct LocalMeta {
    pub title: String,
    pub artist: String,
    pub album: String,
    pub duration_ms: u32,
}

impl Default for LocalMeta {
    fn default() -> (m: LocalMeta)
        ensures
            m.title@ == Seq::<char>::empty(),
            m.artist@ == Seq::<char>::empty(),
            m.album@ == Seq::<char>::empty(),
            m.duration_ms == 0,
    {
        LocalMeta { title: String::new(), artist: String::new(), album: String::new(), duration_ms: 0 }
    }
}

/// The tag keys the metadata reader looks at (every other key is `Other`).
#[derive(Clone, Copy, Debug, PartialEq, Eq)]
pub enum TagKey {
    TrackTitle,
    Artist,
    AlbumArtist,
    Album,
    Other,
}

/// One tag of a metadata revision: its standard key and its value as text.
#[derive(Clone, Debug, PartialEq, Eq)]
pub struct TagEntry {
    pub key: TagKey,
    pub value: String,
}

/// `(title, artist, album, duration)` of a `LocalMeta`.
pub open spec fn meta_view(m: LocalMeta) -> (Seq<char>, Seq<char>, Seq<char>, u32) {
    (m.title@, m.artist@, m.album@, m.duration_ms)
}

/// One tag fills its field only while that field is still empty; the album
/// artist stands in for a missing artist.
pub open spec fn apply_tag(m: (Seq<char>, Seq<char>, Seq<char>, u32), key: TagKey, v: Seq<char>) -> (Seq<char>, Seq<char>, Seq<char>, u32) {
    match key {
        TagKey::TrackTitle => if m.0.len() == 0 {
            (v, m.1, m.2, m.3)
        } else {
            m
        },
        TagKey::Artist => if m.1.len() == 0 {
            (m.0, v, m.2, m.3)
        } else {
            m
        },
        TagKey::AlbumArtist => if m.1.len() == 0 {
            (m.0, v, m.2, m.3)
        } else {
            m
        },
        TagKey::Album => if m.2.len() == 0 {
            (m.0, m.1, v, m.3)
        } else {
            m
        },
        TagKey::Other => m,
    }
}

/// The tags applied in order.
pub open spec fn apply_tag_list(m: (Seq<char>, Seq<char>, Seq<char>, u32), tags: Seq<TagEntry>) -> (Seq<char>, Seq<char>, Seq<char>, u32)
    decreases tags.len(),
{
    if tags.len() == 0 {
        m
    } else {
        apply_tag(apply_tag_list(m, tags.drop_last()), tags.last().key, tags.last().value@)
    }
}

/// Fill the still-empty title, artist and album of `meta` from `tags`, in order.
pub fn apply_tags(tags: &Vec<TagEntry>, meta: &mut LocalMeta)
    ensures
        meta_view(*final(meta)) == apply_tag_list(meta_view(*old(meta)), tags@),
{
    let ghost m0 = meta_view(*meta);
    let mut i: usize = 0;
    assert(tags@.take(0) =~= Seq::<TagEntry>::empty());
    while i < tags.len()
        invariant
            i <= tags@.len(),
            meta_view(*meta) == apply_tag_list(m0, tags@.take(i as int)),
        decreases tags@.len() - i,
    {
        let tag = &tags[i];
        match tag.key {
            TagKey::TrackTitle => {
                if meta.title.as_str().is_empty() {
                    meta.title = tag.value.clone();
                }
            },
            TagKey::Artist | TagKey::AlbumArtist => {
                if meta.artist.as_str().is_empty() {
                    meta.artist = tag.value.clone();
                }
            },
            TagKey::Album => {
                if meta.album.as_str().is_empty() {
                    meta.album = tag.value.clone();
                }
            },
            TagKey::Other => {},
        }
        assert(tags@.take(i + 1).drop_last() =~= tags@.take(i as int));
        i += 1;
    }
    assert(tags@.take(i as int) =~= tags@);
}

/// The metadata of a probed file: its duration when the container gives one
/// (else 0), then the tags the probe collected up front, then those the format
/// reader exposes, each filling only what is still empty.
pub fn collect_local_meta(duration_ms: Option<u32>, probe_tags: Option<Vec<TagEntry>>, format_tags: Option<Vec<TagEntry>>) -> (m: LocalMeta)
    ensures
        meta_view(m) == apply_tag_list(
            apply_tag_list(
                (Seq::empty(), Seq::empty(), Seq::empty(), match duration_ms { Some(d) => d, None => 0 }),
                match probe_tags { Some(t) => t@, None => Seq::empty() },
            ),
            match format_tags { Some(t) => t@, None => Seq::empty() },
        ),
{
    let mut meta = LocalMeta::default();
    if let Some(d) = duration_ms {
        meta.duration_ms = d;
    }
    let probe = match probe_tags {
        Some(t) => t,
        None => Vec::new(),
    };
    apply_tags(&probe, &mut meta);
    let format = match format_tags {
        Some(t) => t,
        None => Vec::new(),
    };
    apply_tags(&format, &mut meta);
    meta
}

/// The extensions of the audio files the player can decode.
pub open spec fn audio_extensions() -> Seq<Seq<char>> {
    seq!["mp3"@, "flac"@, "m4a"@, "aac"@, "wav"@, "ogg"@, "oga"@, "opus"@, "wma"@]
}

fn audio_extension_slot(k: usize) -> (r: &'static str)
    requires
        k < 9,
    ensures
        r@ == audio_extensions()[k as int],
{
    match k {
        0 => "mp3",
        1 => "flac",
        2 => "m4a",
        3 => "aac",
        4 => "wav",
        5 => "ogg",
        6 => "oga",
        7 => "opus",
        _ => "wma",
    }
}

/// Whether a file extension (any ASCII case) is one of the audio formats the
/// player can decode.
pub fn is_audio_extension(ext: &str) -> (r: bool)
    ensures
        r == audio_extensions().contains(ext@.map_values(|c: char| ascii_lower(c))),
{
    let lower = lower_ascii_chars(&chars_of(ext));
    let mut k: usize = 0;
    while k < 9
        invariant
            k <= 9,
            lower@ == ext@.map_values(|c: char| ascii_lower(c)),
            forall|i: int| 0 <= i < k ==> audio_extensions()[i] != lower@,
        decreases 9 - k,
    {
        if chars_eq(&lower, &chars_of(audio_extension_slot(k))) {
            assert(audio_extensions()[k as int] == lower@);
            return true;
        }
        k += 1;
    }
    assert(!audio_extensions().contains(lower@)) by {
        if audio_extensions().contains(lower@) {
            let i = choose|i: int| 0 <= i < audio_extensions().len() && audio_extensions()[i] == lower@;
            assert(audio_extensions().len() == 9);
        }
    }
    false
}

} // verus!

//! The two background pollers: one locks onto the game being played once
//! it has been seen twice in a row, the other tells when OBS starts or stops
//! recording. Each is a step from state and poll result to the next state
//! and what to do; the caller sleeps and polls.
use vstd::prelude::*;

use crate::clip::opt_str_view;
use crate::text::{append_str, owned, str_eq};

verus! {

/// Whether `o` holds `s`.
pub fn opt_is(o: &Option<String>, s: &str) -> (r: bool)
    ensures
        r == (opt_str_view(*o) == Some(s@)),
{
    match o {
        Some(x) => str_eq(x.as_str(), s),
        None => false,
    }
}

/// Whether the OBS integration mode, where it could be read, is `off`.
pub fn integration_off(mode: &Option<String>) -> (r: bool)
    ensures
        r == (opt_str_view(*mode) == Some("off"@)),
{
    opt_is(mode, "off")
}

// ------------------------------------------------------------ game lock

/// The game poller's memory: the game seen last, how many polls in a row
/// saw it, and the game locked onto.
pub struct GameMonitor {
    pub candidate: Option<String>,
    pub candidate_count: u8,
    pub active_game: Option<String>,
}

pub type GameView = (Option<Seq<char>>, u8, Option<Seq<char>>);

pub open spec fn game_view(m: GameMonitor) -> GameView {
    (opt_str_view(m.candidate), m.candidate_count, opt_str_view(m.active_game))
}

/// What one poll found.
pub enum GamePoll {
    /// The OBS integration is switched off.
    Off,
    /// OBS is not running.
    ObsStopped,
    /// The game in the foreground, if any.
    Detected(Option<String>),
}

/// What to do after a poll: lock onto a game (remember it, announce it,
/// show the overlay), then sleep.
pub struct GameAction {
    pub lock: Option<String>,
    pub sleep_secs: u64,
}

pub open spec fn game_cleared() -> GameView {
    (None, 0, None)
}

/// The next memory and the game to lock onto, after a poll.
pub open spec fn game_next(v: GameView, poll: GamePoll) -> (GameView, Option<Seq<char>>) {
    match poll {
        GamePoll::Detected(Some(g)) => {
            let count: u8 = if v.0 == Some(g@) {
                if v.1 < 255 {
                    (v.1 + 1) as u8
                } else {
                    255
                }
            } else {
                1
            };
            if count >= 2 && v.2 != Some(g@) {
                ((Some(g@), count, Some(g@)), Some(g@))
            } else {
                ((Some(g@), count, v.2), None)
            }
        },
        _ => (game_cleared(), None),
    }
}

impl GameMonitor {
    pub fn new() -> (r: GameMonitor)
        ensures
            game_view(r) == game_cleared(),
    {
        GameMonitor { candidate: None, candidate_count: 0, active_game: None }
    }
}

/// One poll of the game poller.
pub fn game_monitor_step(m: &mut GameMonitor, poll: GamePoll) -> (r: GameAction)
    ensures
        (game_view(*final(m)), opt_str_view(r.lock)) == game_next(game_view(*old(m)), poll),
        r.sleep_secs == (if poll is Off {
            3u64
        } else {
            2u64
        }),
{
    match poll {
        GamePoll::Detected(Some(g)) => {
            if opt_is(&m.candidate, g.as_str()) {
                m.candidate_count = if m.candidate_count < 255 {
                    m.candidate_count + 1
                } else {
                    255
                };
            } else {
                m.candidate = Some(owned(g.as_str()));
                m.candidate_count = 1;
            }
            let mut lock: Option<String> = None;
            if m.candidate_count >= 2 && !opt_is(&m.active_game, g.as_str()) {
                m.active_game = Some(owned(g.as_str()));
                lock = Some(g);
            }
            GameAction { lock, sleep_secs: 2 }
        },
        GamePoll::Off => {
            m.candidate = None;
            m.candidate_count = 0;
            m.active_game = None;
            GameAction { lock: None, sleep_secs: 3 }
        },
        _ => {
            m.candidate = None;
            m.candidate_count = 0;
            m.active_game = None;
            GameAction { lock: None, sleep_secs: 2 }
        },
    }
}

/// A game is locked onto only once the poll before saw it too, and only
/// while it is not the game locked onto already.
pub proof fn law_lock_needs_two_polls(v: GameView, poll: GamePoll, g: Seq<char>)
    requires
        game_next(v, poll).1 == Some(g),
    ensures
        poll matches GamePoll::Detected(Some(s)) && s@ == g,
        v.0 == Some(g),
        v.2 != Some(g),
        game_next(v, poll).0.2 == Some(g),
{
}

/// Once locked, seeing the same game again locks nothing more.
pub proof fn law_lock_once(v: GameView, poll: GamePoll)
    requires
        poll matches GamePoll::Detected(Some(s)) && v.2 == Some(s@),
    ensures
        game_next(v, poll).1 is None,
        game_next(v, poll).0.2 == v.2,
{
}

/// A poll that finds no game (or OBS stopped, or the integration off)
/// forgets everything.
pub proof fn law_no_game_forgets(v: GameView, poll: GamePoll)
    requires
        !(poll matches GamePoll::Detected(Some(_))),
    ensures
        game_next(v, poll) == (game_cleared(), None::<Seq<char>>),
{
}

// ------------------------------------------------------------ recording

/// The recording poller's memory: the recording state seen last and the
/// error reported last.
pub struct RecordingMonitor {
    pub last: Option<bool>,
    pub last_error: Option<String>,
}

pub type RecordingView = (Option<bool>, Option<Seq<char>>);

pub open spec fn recording_view(m: RecordingMonitor) -> RecordingView {
    (m.last, opt_str_view(m.last_error))
}

/// What one poll found.
pub enum RecordingPoll {
    /// The settings could not be read.
    SettingsUnreadable,
    /// OBS is not managed by the app.
    NotManaged,
    /// OBS is not running.
    ObsStopped,
    /// Whether OBS is recording.
    Active(bool),
    /// Asking OBS failed with this error.
    CheckFailed(String),
}

/// What to do after a poll.
pub struct RecordingAction {
    /// Show the recording overlay in this state.
    pub show_overlay: Option<bool>,
    /// A debug line to log.
    pub report: Option<String>,
    pub sleep_ms: u64,
}

pub open spec fn recording_next(v: RecordingView, poll: RecordingPoll) -> (RecordingView, Option<bool>, Option<
    Seq<char>,
>) {
    match poll {
        RecordingPoll::SettingsUnreadable => (v, None, None),
        RecordingPoll::NotManaged => ((None, None), None, None),
        RecordingPoll::ObsStopped => ((Some(false), None), None, None),
        RecordingPoll::Active(a) => (
            (Some(a), None),
            if v.0 is Some && v.0 != Some(a) {
                Some(a)
            } else {
                None
            },
            None,
        ),
        RecordingPoll::CheckFailed(e) => if v.1 != Some(e@) {
            ((v.0, Some(e@)), None, Some("OBS recording check failed: "@ + e@))
        } else {
            (v, None, None)
        },
    }
}

pub open spec fn recording_sleep(poll: RecordingPoll) -> u64 {
    match poll {
        RecordingPoll::SettingsUnreadable | RecordingPoll::ObsStopped => 2000,
        RecordingPoll::NotManaged => 3000,
        _ => 2500,
    }
}

impl RecordingMonitor {
    pub fn new() -> (r: RecordingMonitor)
        ensures
            recording_view(r) == (None::<bool>, None::<Seq<char>>),
    {
        RecordingMonitor { last: None, last_error: None }
    }
}

/// One poll of the recording poller.
pub fn recording_monitor_step(m: &mut RecordingMonitor, poll: RecordingPoll) -> (r: RecordingAction)
    ensures
        (recording_view(*final(m)), r.show_overlay, opt_str_view(r.report)) == recording_next(
            recording_view(*old(m)),
            poll,
        ),
        r.sleep_ms == recording_sleep(poll),
{
    match poll {
        RecordingPoll::SettingsUnreadable => RecordingAction { show_overlay: None, report: None, sleep_ms: 2000 },
        RecordingPoll::NotManaged => {
            m.last = None;
            m.last_error = None;
            RecordingAction { show_overlay: None, report: None, sleep_ms: 3000 }
        },
        RecordingPoll::ObsStopped => {
            m.last = Some(false);
            m.last_error = None;
            RecordingAction { show_overlay: None, report: None, sleep_ms: 2000 }
        },
        RecordingPoll::Active(a) => {
            let show = match m.last {
                Some(b) => if b != a {
                    Some(a)
                } else {
                    None
                },
                None => None,
            };
            m.last = Some(a);
            m.last_error = None;
            RecordingAction { show_overlay: show, report: None, sleep_ms: 2500 }
        },
        RecordingPoll::CheckFailed(e) => {
            if opt_is(&m.last_error, e.as_str()) {
                RecordingAction { show_overlay: None, report: None, sleep_ms: 2500 }
            } else {
                let mut line = owned("OBS recording check failed: ");
                append_str(&mut line, e.as_str());
                m.last_error = Some(e);
                RecordingAction { show_overlay: None, report: Some(line), sleep_ms: 2500 }
            }
        },
    }
}

/// The overlay comes up only when a known recording state flips.
pub proof fn law_overlay_on_change(v: RecordingView, poll: RecordingPoll, a: bool)
    requires
        recording_next(v, poll).1 == Some(a),
    ensures
        poll == RecordingPoll::Active(a),
        v.0 == Some(!a),
{
}

/// A failure is reported once for each new message: the same failure
/// polled again reports nothing.
pub proof fn law_error_reported_once(v: RecordingView, e: String)
    ensures
        recording_next(recording_next(v, RecordingPoll::CheckFailed(e)).0, RecordingPoll::CheckFailed(e)).2 is None,
        recording_next(v, RecordingPoll::CheckFailed(e)).2 is Some <==> v.1 != Some(e@),
{
}

} // verus!

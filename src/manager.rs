use vstd::prelude::*;

use crate::shared::Evt;

verus! {

/// Milliseconds within which a second tap makes a double tap.
pub const TAP_WINDOW_MS: u64 = 250;

/// The game's screens; an entry or exit state lasts one frame, while its
/// side effect (a sound, a stopped theme) is played.
#[derive(Debug, Clone, Copy, PartialEq, Eq, Structural)]
pub enum Manager {
    Idle,
    MainEntry,
    Main,
    PlayingEntry,
    Playing,
    PlayingExit(Evt),
    PausedEntry,
    Paused,
    GameOver,
    Exit,
}

/// The screen that follows `state` when `evt` arrives.
pub open spec fn next_state(state: Manager, evt: Evt) -> Manager {
    match state {
        Manager::Idle => if evt == Evt::Menu { Manager::MainEntry } else { state },
        Manager::MainEntry => if evt == Evt::Menu { Manager::Main } else { state },
        Manager::Main => if evt == Evt::Exit {
            Manager::Exit
        } else if evt == Evt::Play {
            Manager::PlayingEntry
        } else {
            state
        },
        Manager::PlayingEntry => if evt == Evt::Play { Manager::Playing } else { state },
        Manager::Playing => if evt == Evt::DTap || evt == Evt::Pause || evt == Evt::Dead {
            Manager::PlayingExit(evt)
        } else {
            state
        },
        Manager::PlayingExit(_) => if evt == Evt::Pause {
            Manager::PausedEntry
        } else if evt == Evt::Dead {
            Manager::GameOver
        } else {
            state
        },
        Manager::PausedEntry => if evt == Evt::Pause { Manager::Paused } else { state },
        Manager::Paused => if evt == Evt::DTap || evt == Evt::Play {
            Manager::PlayingEntry
        } else {
            state
        },
        Manager::GameOver => if evt == Evt::Menu { Manager::MainEntry } else { state },
        Manager::Exit => state,
    }
}

/// What the tap tracker holds after a tap at `now`: a first tap, a tap that
/// came too late to pair and starts over, or a double tap.
pub open spec fn next_taps(taps: Evt, now: u64) -> Evt {
    match taps {
        Evt::Nothing => Evt::Tap(now, TAP_WINDOW_MS),
        Evt::Tap(init, delay) => if now > init + delay {
            Evt::Tap(now, delay)
        } else {
            Evt::DTap
        },
        Evt::DTap => Evt::Tap(now, TAP_WINDOW_MS),
        _ => Evt::Nothing,
    }
}

/// The game's screen state machine.
pub struct GameMachine {
    pub state: Manager,
}

impl GameMachine {
    /// A machine on the idle screen.
    pub fn new() -> (r: Self)
        ensures
            r.state == Manager::Idle,
    {
        Self { state: Manager::Idle }
    }

    /// Moves to the screen that follows the current one on `evt`.
    pub fn send(&mut self, evt: &Evt)
        ensures
            final(self).state == next_state(old(self).state, *evt),
    {
        match self.state {
            Manager::Idle => {
                if matches!(evt, Evt::Menu) {
                    self.state = Manager::MainEntry;
                }
            },
            Manager::MainEntry => {
                if matches!(evt, Evt::Menu) {
                    self.state = Manager::Main;
                }
            },
            Manager::Main => {
                if matches!(evt, Evt::Exit) {
                    self.state = Manager::Exit;
                }
                if matches!(evt, Evt::Play) {
                    self.state = Manager::PlayingEntry;
                }
            },
            Manager::PlayingEntry => {
                if matches!(evt, Evt::Play) {
                    self.state = Manager::Playing;
                }
            },
            Manager::Playing => {
                if matches!(evt, Evt::DTap) {
                    self.state = Manager::PlayingExit(Evt::DTap);
                }
                if matches!(evt, Evt::Pause) {
                    self.state = Manager::PlayingExit(Evt::Pause);
                }
                if matches!(evt, Evt::Dead) {
                    self.state = Manager::PlayingExit(Evt::Dead);
                }
            },
            Manager::PlayingExit(_e) => {
                if matches!(evt, Evt::Pause) {
                    self.state = Manager::PausedEntry;
                }
                if matches!(evt, Evt::Dead) {
                    self.state = Manager::GameOver;
                }
            },
            Manager::PausedEntry => {
                if matches!(evt, Evt::Pause) {
                    self.state = Manager::Paused;
                }
            },
            Manager::Paused => {
                if matches!(evt, Evt::DTap) {
                    self.state = Manager::PlayingEntry;
                }
                if matches!(evt, Evt::Play) {
                    self.state = Manager::PlayingEntry;
                }
            },
            Manager::GameOver => {
                if matches!(evt, Evt::Menu) {
                    self.state = Manager::MainEntry;
                }
            },
            Manager::Exit => {},
        }
    }

    /// Registers a tap at `now` (milliseconds) on the tap tracker `taps` and
    /// returns the tracker's new value; a double tap is also sent to the
    /// machine.
    pub fn register_tap(&mut self, taps: Evt, now: u64) -> (r: Evt)
        ensures
            r == next_taps(taps, now),
            final(self).state == if r == Evt::DTap {
                next_state(old(self).state, Evt::DTap)
            } else {
                old(self).state
            },
    {
        match taps {
            Evt::Nothing => Evt::Tap(now, TAP_WINDOW_MS),
            Evt::Tap(init, delay) => {
                if now > init && now - init > delay {
                    Evt::Tap(now, delay)
                } else {
                    self.send(&Evt::DTap);
                    Evt::DTap
                }
            },
            Evt::DTap => Evt::Tap(now, TAP_WINDOW_MS),
            _ => Evt::Nothing,
        }
    }
}

} // verus!

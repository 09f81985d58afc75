use vstd::prelude::*;
use vstd::string::*;
use crate::alarm::{alarm_text, digit, digit_char, goes_off, string_of, Alarm, ClockReading};
use crate::input::InputEvent;

verus! {

/// What the music player reports of itself.
#[derive(Debug, Clone, Copy, PartialEq, Eq, Structural)]
pub enum PlayerState {
    Stop,
    Pause,
    Play,
}

/// What the clock takes the playback to be.
#[derive(Debug, Clone, Copy, PartialEq, Eq, Structural)]
pub enum PlaybackState {
    Playing,
    Paused,
    /// Playing while an alarm fades the volume in.
    Fading,
}

/// What the clock tells the music player to do.
#[derive(Debug, Clone, Copy, PartialEq, Eq, Structural)]
pub enum PlayerCommand {
    Play,
    Pause,
}

/// The button of the alarm.
pub const BUTTON_A: u8 = 27;
/// The button of play and pause.
pub const BUTTON_B: u8 = 17;
/// The button of the light.
pub const BUTTON_C: u8 = 22;
/// The push button of the rotary encoder.
pub const BUTTON_ROT: u8 = 4;

/// What the inputs of one round of the main loop ask for.
#[derive(Debug, Clone, Copy, PartialEq, Eq, Structural)]
pub struct Requests {
    pub toggle_alarm: bool,
    pub toggle_play: bool,
    pub power_off: bool,
    pub vol_change: i8,
    pub activity: bool,
    pub dim_now: bool,
}

impl Requests {
    /// Nothing asked for.
    pub fn none() -> (r: Requests)
        ensures
            r == (Requests {
                toggle_alarm: false,
                toggle_play: false,
                power_off: false,
                vol_change: 0,
                activity: false,
                dim_now: false,
            }),
    {
        Requests {
            toggle_alarm: false,
            toggle_play: false,
            power_off: false,
            vol_change: 0,
            activity: false,
            dim_now: false,
        }
    }

    /// The requests after one more event. Every event counts as activity
    /// and keeps the light on, but for the light button while the light is
    /// on: that asks for darkness at once. Turns of the encoder add up,
    /// within what a byte holds.
    pub fn take(self, event: InputEvent, backlight_on: bool) -> (r: Requests)
        ensures
            r == after_event(self, event, backlight_on),
    {
        let mut r = self;
        r.activity = true;
        r.dim_now = false;
        match event {
            InputEvent::Button(pin) => {
                if pin == BUTTON_A {
                    r.toggle_alarm = true;
                }
                if pin == BUTTON_B {
                    r.toggle_play = true;
                }
                if pin == BUTTON_ROT {
                    r.power_off = true;
                }
                if pin == BUTTON_C && backlight_on {
                    r.activity = false;
                    r.dim_now = true;
                }
            },
            InputEvent::RotaryEncoder(inc) => {
                let sum: i16 = r.vol_change as i16 + inc as i16;
                r.vol_change = if sum > 127 {
                    127
                } else if sum < -128 {
                    -128
                } else {
                    sum as i8
                };
            },
        }
        r
    }
}

/// `v` kept between `lo` and `hi`.
pub open spec fn clamp(v: int, lo: int, hi: int) -> int {
    if v < lo {
        lo
    } else if v > hi {
        hi
    } else {
        v
    }
}

/// The requests after one more event.
pub open spec fn after_event(r: Requests, event: InputEvent, backlight_on: bool) -> Requests {
    match event {
        InputEvent::Button(pin) => Requests {
            toggle_alarm: r.toggle_alarm || pin == BUTTON_A,
            toggle_play: r.toggle_play || pin == BUTTON_B,
            power_off: r.power_off || pin == BUTTON_ROT,
            vol_change: r.vol_change,
            activity: !(pin == BUTTON_C && backlight_on),
            dim_now: pin == BUTTON_C && backlight_on,
        },
        InputEvent::RotaryEncoder(inc) => Requests {
            vol_change: clamp(r.vol_change + inc, -128, 127) as i8,
            activity: true,
            dim_now: false,
            ..r
        },
    }
}

/// The playback state once the player has reported its own: a player that
/// does not play is paused, one that plays was started from outside if the
/// clock took it to be paused.
pub fn follow_player(pb: PlaybackState, player: PlayerState) -> (next: PlaybackState)
    ensures
        next == match player {
            PlayerState::Stop | PlayerState::Pause => PlaybackState::Paused,
            PlayerState::Play => if pb == PlaybackState::Paused {
                PlaybackState::Playing
            } else {
                pb
            },
        },
{
    match player {
        PlayerState::Stop => PlaybackState::Paused,
        PlayerState::Pause => PlaybackState::Paused,
        PlayerState::Play => match pb {
            PlaybackState::Paused => PlaybackState::Playing,
            _ => pb,
        },
    }
}

/// The playback state after the play button: paused turns to playing,
/// everything else to paused.
pub fn toggle_play(pb: PlaybackState) -> (next: PlaybackState)
    ensures
        next == if pb == PlaybackState::Paused {
            PlaybackState::Playing
        } else {
            PlaybackState::Paused
        },
{
    match pb {
        PlaybackState::Paused => PlaybackState::Playing,
        _ => PlaybackState::Paused,
    }
}

/// The playback state after the volume was turned by hand: a fade is over.
pub fn after_volume_turn(pb: PlaybackState) -> (next: PlaybackState)
    ensures
        next == if pb == PlaybackState::Fading {
            PlaybackState::Playing
        } else {
            pb
        },
{
    match pb {
        PlaybackState::Fading => PlaybackState::Playing,
        _ => pb,
    }
}

/// Whether the alarm is to be started now: it goes off at `now`, and
/// nothing plays yet.
pub fn alarm_due(alarm: &Alarm, now: &ClockReading, pb: PlaybackState) -> (due: bool)
    ensures
        due == (goes_off(*alarm, *now) && pb == PlaybackState::Paused),
{
    match pb {
        PlaybackState::Paused => alarm.should_start(now),
        _ => false,
    }
}

/// The volume after the encoder was turned by `vol_change` steps: five per
/// cent a step, kept between 0 and 100.
pub fn turned_volume(volume: i8, vol_change: i8) -> (next: i8)
    ensures
        next == clamp(5 * vol_change + volume, 0, 100),
{
    let v: i16 = 5 * (vol_change as i16) + volume as i16;
    if v < 0 {
        0
    } else if v > 100 {
        100
    } else {
        v as i8
    }
}

/// What to tell the player so that it does what the clock takes the
/// playback to be: nothing if it does so already.
pub fn player_command(player: PlayerState, pb: PlaybackState) -> (cmd: Option<PlayerCommand>)
    ensures
        cmd == match player {
            PlayerState::Stop | PlayerState::Pause => if pb == PlaybackState::Paused {
                None
            } else {
                Some(PlayerCommand::Play)
            },
            PlayerState::Play => if pb == PlaybackState::Paused {
                Some(PlayerCommand::Pause)
            } else {
                None
            },
        },
{
    match player {
        PlayerState::Play => match pb {
            PlaybackState::Paused => Some(PlayerCommand::Pause),
            _ => None,
        },
        _ => match pb {
            PlaybackState::Paused => None,
            _ => Some(PlayerCommand::Play),
        },
    }
}

/// What to do with the backlight: on after any activity, off once nothing
/// has happened for longer than the timeout, else as it is.
pub fn backlight_wanted(activity: bool, idle_ms: i64, timeout_ms: i64) -> (on: Option<bool>)
    ensures
        on == if activity {
            Some(true)
        } else if idle_ms > timeout_ms {
            Some(false)
        } else {
            None::<bool>
        },
{
    if activity {
        Some(true)
    } else if idle_ms > timeout_ms {
        Some(false)
    } else {
        None
    }
}

/// A number of at most three digits in decimal, without leading zeros.
pub open spec fn number_text(n: int) -> Seq<char> {
    if n < 10 {
        seq![digit_char(n)]
    } else if n < 100 {
        seq![digit_char(n / 10), digit_char(n % 10)]
    } else {
        seq![digit_char(n / 100), digit_char((n / 10) % 10), digit_char(n % 10)]
    }
}

/// A volume in decimal, with a minus sign if it is negative.
pub open spec fn volume_text(v: int) -> Seq<char> {
    if v < 0 {
        seq!['-'] + number_text(-v)
    } else {
        number_text(v)
    }
}

/// The words for a playback state on the top line.
pub open spec fn playback_text(pb: PlaybackState) -> Seq<char> {
    if pb == PlaybackState::Paused {
        "Paused"@
    } else {
        "Playing"@
    }
}

/// The top line: the volume and whether the music plays.
pub fn status_line(volume: i8, pb: PlaybackState) -> (line: String)
    ensures
        line@ == "Vol: "@ + volume_text(volume as int) + "    "@ + playback_text(pb),
{
    let mut digits: Vec<char> = Vec::new();
    let n: u8 = if volume < 0 {
        digits.push('-');
        (-(volume as i16)) as u8
    } else {
        volume as u8
    };
    if n >= 100 {
        digits.push(digit(n / 100));
        digits.push(digit((n / 10) % 10));
        digits.push(digit(n % 10));
    } else if n >= 10 {
        digits.push(digit(n / 10));
        digits.push(digit(n % 10));
    } else {
        digits.push(digit(n));
    }
    assert(digits@ =~= volume_text(volume as int));
    let number = string_of(&digits);
    let mut line = String::from_str("Vol: ");
    line.append(number.as_str());
    line.append("    ");
    match pb {
        PlaybackState::Paused => {
            line.append("Paused");
        },
        _ => {
            line.append("Playing");
        },
    }
    line
}

/// The bottom line: the alarm in words.
pub fn alarm_line(alarm: &Alarm) -> (line: String)
    ensures
        line@ == "A: "@ + alarm_text(*alarm),
{
    let mut line = String::from_str("A: ");
    let words = alarm.to_str();
    line.append(words.as_str());
    line
}

} // verus!

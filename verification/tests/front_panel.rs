use wump::alarm::{
    Alarm, AlarmMode, ClockReading, DayMask, Time, Weekday, FRIDAY, MONDAY, SUNDAY,
};
use wump::input::{InputEvent, RotaryDecoder};
use wump::player::{
    after_volume_turn, alarm_due, alarm_line, backlight_wanted, follow_player, player_command, status_line,
    toggle_play, turned_volume, PlaybackState, PlayerCommand, PlayerState, Requests, BUTTON_A,
    BUTTON_B, BUTTON_C, BUTTON_ROT,
};
use wump::webform::{alarm_from_form, form_view, mode_from_form};

#[test]
fn encoder_steps_on_the_rising_clock() {
    let mut decoder = RotaryDecoder::new();
    assert!(!decoder.clock(true));
    assert!(!decoder.clock(false));
    assert!(decoder.clock(true));
    assert!(!decoder.clock(true));
    assert!(!decoder.clock(false));
    assert!(!decoder.clock(false));
    assert!(decoder.clock(true));
    assert_eq!(RotaryDecoder::turn(false), InputEvent::RotaryEncoder(1));
    assert_eq!(RotaryDecoder::turn(true), InputEvent::RotaryEncoder(-1));
}

#[test]
fn requests_gather_events() {
    let r = Requests::none();
    assert!(!r.activity && !r.toggle_alarm && !r.toggle_play && !r.power_off && !r.dim_now);
    let r = r.take(InputEvent::Button(BUTTON_A), false);
    assert!(r.toggle_alarm && r.activity && !r.toggle_play);
    let r = r.take(InputEvent::Button(BUTTON_B), false);
    assert!(r.toggle_alarm && r.toggle_play && !r.power_off);
    let r = r.take(InputEvent::RotaryEncoder(1), false).take(InputEvent::RotaryEncoder(1), false);
    assert_eq!(r.vol_change, 2);
    let r = r.take(InputEvent::RotaryEncoder(-1), false);
    assert_eq!(r.vol_change, 1);
    let r = r.take(InputEvent::Button(BUTTON_C), false);
    assert!(r.activity && !r.dim_now);
    let r = r.take(InputEvent::Button(BUTTON_C), true);
    assert!(!r.activity && r.dim_now);
    let r = r.take(InputEvent::Button(BUTTON_ROT), true);
    assert!(r.activity && !r.dim_now && r.power_off);
    let r = r.take(InputEvent::Button(99), true);
    assert!(r.activity && r.toggle_alarm && r.toggle_play && r.power_off);
    let mut far = Requests::none();
    for _ in 0..3 {
        far = far.take(InputEvent::RotaryEncoder(100), false);
    }
    assert_eq!(far.vol_change, 127);
    for _ in 0..5 {
        far = far.take(InputEvent::RotaryEncoder(-100), false);
    }
    assert_eq!(far.vol_change, -128);
}

#[test]
fn playback_follows_player_and_buttons() {
    let (playing, paused, fading) =
        (PlaybackState::Playing, PlaybackState::Paused, PlaybackState::Fading);
    for pb in [playing, paused, fading] {
        assert_eq!(follow_player(pb, PlayerState::Stop), paused);
        assert_eq!(follow_player(pb, PlayerState::Pause), paused);
    }
    assert_eq!(follow_player(paused, PlayerState::Play), playing);
    assert_eq!(follow_player(playing, PlayerState::Play), playing);
    assert_eq!(follow_player(fading, PlayerState::Play), fading);
    assert_eq!(toggle_play(paused), playing);
    assert_eq!(toggle_play(playing), paused);
    assert_eq!(toggle_play(fading), paused);
    assert_eq!(after_volume_turn(fading), playing);
    assert_eq!(after_volume_turn(playing), playing);
    assert_eq!(after_volume_turn(paused), paused);
    assert_eq!(player_command(PlayerState::Stop, playing), Some(PlayerCommand::Play));
    assert_eq!(player_command(PlayerState::Pause, fading), Some(PlayerCommand::Play));
    assert_eq!(player_command(PlayerState::Pause, paused), None);
    assert_eq!(player_command(PlayerState::Play, paused), Some(PlayerCommand::Pause));
    assert_eq!(player_command(PlayerState::Play, playing), None);
    assert_eq!(player_command(PlayerState::Play, fading), None);
}

#[test]
fn volume_turns_in_steps_of_five() {
    assert_eq!(turned_volume(50, 1), 55);
    assert_eq!(turned_volume(50, -3), 35);
    assert_eq!(turned_volume(98, 1), 100);
    assert_eq!(turned_volume(3, -1), 0);
    assert_eq!(turned_volume(-1, 0), 0);
    assert_eq!(turned_volume(127, 127), 100);
    assert_eq!(turned_volume(-128, -128), 0);
    assert_eq!(turned_volume(0, 20), 100);
}

#[test]
fn backlight_dims_after_the_timeout() {
    assert_eq!(backlight_wanted(true, 0, 5000), Some(true));
    assert_eq!(backlight_wanted(true, 9000, 5000), Some(true));
    assert_eq!(backlight_wanted(false, 5001, 5000), Some(false));
    assert_eq!(backlight_wanted(false, 5000, 5000), None);
    assert_eq!(backlight_wanted(false, 0, 5000), None);
}

#[test]
fn lines_of_the_main_screen() {
    assert_eq!(status_line(35, PlaybackState::Paused), "Vol: 35    Paused");
    assert_eq!(status_line(100, PlaybackState::Playing), "Vol: 100    Playing");
    assert_eq!(status_line(0, PlaybackState::Fading), "Vol: 0    Playing");
    assert_eq!(status_line(-1, PlaybackState::Paused), "Vol: -1    Paused");
    assert_eq!(status_line(-128, PlaybackState::Paused), "Vol: -128    Paused");
    for v in -128..=127i8 {
        assert_eq!(status_line(v, PlaybackState::Playing), format!("Vol: {}    Playing", v));
    }
    let alarm = Alarm::new(true, Time::new(6, 30), 60, 0, 50, AlarmMode::OneTime);
    assert_eq!(alarm_line(&alarm), "A: 06:30 (1 time)");
}

#[test]
fn form_shows_the_alarm() {
    let days = DayMask::from_bits_truncate(MONDAY | FRIDAY | SUNDAY);
    let alarm = Alarm::new(true, Time::new(6, 5), 600, 10, 80, AlarmMode::Recurring(days));
    let view = form_view(&alarm);
    assert!(view.enabled && view.recurring && !view.onetime && !view.days_disabled);
    assert_eq!(view.days, [true, false, false, false, true, false, true]);
    assert_eq!(view.time, "06:05");
    assert_eq!((view.fade_length_s, view.start_vol, view.end_vol), (600, 10, 80));
    let once = Alarm::new(false, Time::new(22, 0), 1, 2, 3, AlarmMode::OneTime);
    let view = form_view(&once);
    assert!(!view.enabled && !view.recurring && view.onetime && view.days_disabled);
    assert_eq!(view.days, [false; 7]);
}

#[test]
fn form_makes_an_alarm() {
    let ticked = [false, true, false, false, false, true, false];
    let mode = mode_from_form(true, ticked);
    assert_eq!(mode, AlarmMode::Recurring(DayMask::from_bits_truncate(0x22)));
    assert_eq!(mode_from_form(false, ticked), AlarmMode::OneTime);
    assert_eq!(mode_from_form(true, [true; 7]), AlarmMode::Recurring(DayMask::all()));
    assert_eq!(mode_from_form(true, [false; 7]), AlarmMode::Recurring(DayMask::empty()));
    let alarm = alarm_from_form(true, "07:15", mode, 5, 60, 900).unwrap();
    assert_eq!(alarm, Alarm::new(true, Time::new(7, 15), 900, 5, 60, mode));
    assert_eq!(form_view(&alarm).days, ticked);
    assert_eq!(alarm_from_form(true, "7.15", mode, 5, 60, 900), None);
}

#[test]
fn alarm_starts_only_while_paused() {
    let alarm = Alarm::new(true, Time::new(6, 30), 600, 10, 80, AlarmMode::OneTime);
    let due = ClockReading { weekday: Weekday::Tue, hour: 6, minute: 30, second: 0 };
    let late = ClockReading { weekday: Weekday::Tue, hour: 6, minute: 30, second: 1 };
    assert!(alarm_due(&alarm, &due, PlaybackState::Paused));
    assert!(!alarm_due(&alarm, &due, PlaybackState::Playing));
    assert!(!alarm_due(&alarm, &due, PlaybackState::Fading));
    assert!(!alarm_due(&alarm, &late, PlaybackState::Paused));
}

use vstd::prelude::*;
use crate::alarm::{
    clock_text, Alarm, AlarmMode, DayMask, Time, Weekday, parse_time, FRIDAY, MONDAY, SATURDAY,
    SUNDAY, THURSDAY, TUESDAY, WEDNESDAY,
};

verus! {

/// What the form of the configuration page shows of an alarm.
pub struct FormView {
    pub enabled: bool,
    pub onetime: bool,
    pub recurring: bool,
    /// Whether the boxes of the days are greyed out.
    pub days_disabled: bool,
    /// The boxes of the days, Monday first.
    pub days: [bool; 7],
    pub time: String,
    pub fade_length_s: i64,
    pub start_vol: u8,
    pub end_vol: u8,
}

/// The days in the order of the form.
pub open spec fn form_day(i: int) -> Weekday {
    if i == 0 {
        Weekday::Mon
    } else if i == 1 {
        Weekday::Tue
    } else if i == 2 {
        Weekday::Wed
    } else if i == 3 {
        Weekday::Thu
    } else if i == 4 {
        Weekday::Fri
    } else if i == 5 {
        Weekday::Sat
    } else {
        Weekday::Sun
    }
}

/// The form of an alarm: a day is ticked if the alarm recurs on it, and the
/// days are greyed out for an alarm that goes off once.
pub fn form_view(alarm: &Alarm) -> (view: FormView)
    ensures
        view.enabled == alarm.enabled,
        view.onetime == (alarm.mode is OneTime),
        view.recurring == (alarm.mode is Recurring),
        view.days_disabled == (alarm.mode is OneTime),
        forall|i: int|
            0 <= i < 7 ==> #[trigger] view.days[i] == (alarm.mode matches AlarmMode::Recurring(dm)
                && dm.has(form_day(i))),
        view.time@ == clock_text(alarm.time.hour as int, alarm.time.min as int),
        view.fade_length_s == alarm.length_s,
        view.start_vol == alarm.start_vol,
        view.end_vol == alarm.end_vol,
{
    let days: [bool; 7] = match alarm.get_mode() {
        AlarmMode::OneTime => [false, false, false, false, false, false, false],
        AlarmMode::Recurring(dm) => [
            dm.contains_dow(Weekday::Mon),
            dm.contains_dow(Weekday::Tue),
            dm.contains_dow(Weekday::Wed),
            dm.contains_dow(Weekday::Thu),
            dm.contains_dow(Weekday::Fri),
            dm.contains_dow(Weekday::Sat),
            dm.contains_dow(Weekday::Sun),
        ],
    };
    let onetime = match alarm.get_mode() {
        AlarmMode::OneTime => true,
        AlarmMode::Recurring(_) => false,
    };
    FormView {
        enabled: alarm.is_enabled(),
        onetime,
        recurring: !onetime,
        days_disabled: onetime,
        days,
        time: alarm.get_time().to_str(),
        fade_length_s: alarm.get_length(),
        start_vol: alarm.get_start_vol(),
        end_vol: alarm.get_end_vol(),
    }
}

/// The bits of the ticked days, Monday first.
pub open spec fn day_bits(
    mon: bool,
    tue: bool,
    wed: bool,
    thu: bool,
    fri: bool,
    sat: bool,
    sun: bool,
) -> u8 {
    (if mon { 0x01u8 } else { 0u8 }) | (if tue { 0x02u8 } else { 0u8 }) | (if wed { 0x04u8 } else { 0u8 })
        | (if thu { 0x08u8 } else { 0u8 }) | (if fri { 0x10u8 } else { 0u8 }) | (if sat { 0x20u8 } else { 0u8 })
        | (if sun { 0x40u8 } else { 0u8 })
}

/// The bits of the ticked days of a form.
pub open spec fn ticked_bits(days: Seq<bool>) -> u8 {
    day_bits(days[0], days[1], days[2], days[3], days[4], days[5], days[6])
}

/// The mode that a submitted form asks for: recurring on the ticked days,
/// or once.
pub fn mode_from_form(recurring: bool, days: [bool; 7]) -> (mode: AlarmMode)
    ensures
        !recurring ==> mode == AlarmMode::OneTime,
        recurring ==> (mode matches AlarmMode::Recurring(dm) && dm@ == ticked_bits(days@)),
{
    if recurring {
        let mon = days[0];
        let tue = days[1];
        let wed = days[2];
        let thu = days[3];
        let fri = days[4];
        let sat = days[5];
        let sun = days[6];
        let bits: u8 = (if mon { MONDAY } else { 0u8 }) | (if tue { TUESDAY } else { 0u8 }) | (if wed {
            WEDNESDAY
        } else {
            0u8
        }) | (if thu { THURSDAY } else { 0u8 }) | (if fri { FRIDAY } else { 0u8 }) | (if sat {
            SATURDAY
        } else {
            0u8
        }) | (if sun { SUNDAY } else { 0u8 });
        assert(day_bits(mon, tue, wed, thu, fri, sat, sun) & 0x7f == day_bits(
            mon,
            tue,
            wed,
            thu,
            fri,
            sat,
            sun,
        )) by (bit_vector);
        AlarmMode::Recurring(DayMask::from_bits_truncate(bits))
    } else {
        AlarmMode::OneTime
    }
}

/// The alarm that a submitted form asks for; nothing if its time is no
/// time. Volumes are in per cent.
pub fn alarm_from_form(
    enabled: bool,
    time: &str,
    mode: AlarmMode,
    start_vol: u8,
    end_vol: u8,
    fade_length_s: i64,
) -> (alarm: Option<Alarm>)
    ensures
        alarm == match parse_time(time@) {
            Some(t) => Some(
                Alarm { enabled, time: t, length_s: fade_length_s, start_vol, end_vol, mode },
            ),
            None => None,
        },
{
    match Time::parse(time) {
        Some(t) => Some(Alarm::new(enabled, t, fade_length_s, start_vol, end_vol, mode)),
        None => None,
    }
}

} // verus!

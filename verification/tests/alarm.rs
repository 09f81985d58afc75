use wump::alarm::{
    string_of, Alarm, AlarmMode, ClockReading, DayMask, Time, Weekday, ALL_DAYS, FRIDAY, MONDAY,
    SATURDAY, SUNDAY, THURSDAY, TUESDAY, WEDNESDAY, WORKDAYS,
};

#[test]
fn time_is_shown_with_leading_zeros() {
    assert_eq!(Time::new(7, 5).to_str(), "07:05");
    assert_eq!(Time::new(23, 59).to_str(), "23:59");
    assert_eq!(Time::new(0, 0).to_str(), "00:00");
    assert_eq!(Time::new(100, 255).to_str(), "100:255");
    assert_eq!(Time::new(9, 30).digits(), vec!['0', '9', ':', '3', '0']);
    for h in 0..=255u8 {
        assert_eq!(Time::new(h, 255 - h).to_str(), format!("{:02}:{:02}", h, 255 - h));
    }
    assert_eq!(string_of(&vec!['a', 'ä', '€']), "aä€");
}

#[test]
fn day_mask_holds_days() {
    assert_eq!(DayMask::default().bits(), 0b0001_1111);
    assert_eq!(DayMask::default().bits(), WORKDAYS);
    assert_eq!(DayMask::all().bits(), ALL_DAYS);
    assert_eq!(DayMask::empty().bits(), 0);
    assert_eq!(DayMask::from_bits_truncate(0xff).bits(), 0x7f);
    let days = [
        (Weekday::Mon, MONDAY),
        (Weekday::Tue, TUESDAY),
        (Weekday::Wed, WEDNESDAY),
        (Weekday::Thu, THURSDAY),
        (Weekday::Fri, FRIDAY),
        (Weekday::Sat, SATURDAY),
        (Weekday::Sun, SUNDAY),
    ];
    for (i, (dow, bit)) in days.iter().enumerate() {
        assert_eq!(*bit, 1 << i);
        let only = DayMask::from_bits_truncate(*bit);
        for (other, _) in days.iter() {
            assert_eq!(only.contains_dow(*other), other == dow);
        }
        assert_eq!(DayMask::default().contains_dow(*dow), i < 5);
        assert!(DayMask::all().contains(only));
        assert!(!DayMask::empty().contains(only));
    }
    let mut mask = DayMask::empty();
    mask.insert(DayMask::from_bits_truncate(SATURDAY));
    mask.insert(DayMask::from_bits_truncate(MONDAY));
    assert_eq!(mask.bits(), 0x21);
    mask.remove(DayMask::from_bits_truncate(MONDAY | SUNDAY));
    assert_eq!(mask.bits(), 0x20);
}

fn at(weekday: Weekday, hour: u8, minute: u8, second: u8) -> ClockReading {
    ClockReading { weekday, hour, minute, second }
}

#[test]
fn alarm_goes_off_on_the_minute() {
    let alarm = Alarm::new(true, Time::new(6, 30), 600, 10, 80, AlarmMode::OneTime);
    assert!(alarm.should_start(&at(Weekday::Sun, 6, 30, 0)));
    assert!(!alarm.should_start(&at(Weekday::Sun, 6, 30, 1)));
    assert!(!alarm.should_start(&at(Weekday::Sun, 6, 31, 0)));
    assert!(!alarm.should_start(&at(Weekday::Sun, 7, 30, 0)));
    let weekly = Alarm::new(true, Time::new(6, 30), 600, 10, 80, AlarmMode::Recurring(DayMask::default()));
    assert!(weekly.should_start(&at(Weekday::Fri, 6, 30, 0)));
    assert!(!weekly.should_start(&at(Weekday::Sat, 6, 30, 0)));
    let mut off = weekly;
    off.toggle_enabled();
    assert!(!off.is_enabled());
    assert!(!off.should_start(&at(Weekday::Fri, 6, 30, 0)));
    off.toggle_enabled();
    assert_eq!(off, weekly);
}

#[test]
fn one_time_alarm_is_disabled_when_it_starts() {
    let mut alarm = Alarm::new(true, Time::new(6, 30), 600, 10, 80, AlarmMode::OneTime);
    alarm.start();
    assert!(!alarm.is_enabled());
    let mut weekly = Alarm::new(true, Time::new(6, 30), 600, 10, 80, AlarmMode::Recurring(DayMask::all()));
    weekly.start();
    assert!(weekly.is_enabled());
    assert_eq!(weekly.get_length(), 600);
    assert_eq!(weekly.get_start_vol(), 10);
    assert_eq!(weekly.get_end_vol(), 80);
    assert_eq!(weekly.get_time(), Time::new(6, 30));
    assert_eq!(weekly.get_mode(), AlarmMode::Recurring(DayMask::all()));
}

#[test]
fn alarm_in_words() {
    let time = Time::new(6, 5);
    assert_eq!(Alarm::new(false, time, 1, 0, 0, AlarmMode::OneTime).to_str(), "Disabled");
    assert_eq!(Alarm::new(true, time, 1, 0, 0, AlarmMode::OneTime).to_str(), "06:05 (1 time)");
    let mode = AlarmMode::Recurring(DayMask::default());
    assert_eq!(Alarm::new(true, time, 1, 0, 0, mode).to_str(), "06:05 (M-F)");
    let mode = AlarmMode::Recurring(DayMask::from_bits_truncate(MONDAY | WEDNESDAY | SUNDAY));
    assert_eq!(Alarm::new(true, time, 1, 0, 0, mode).to_str(), "06:05 ([x x   x])");
    let mode = AlarmMode::Recurring(DayMask::empty());
    assert_eq!(Alarm::new(true, time, 1, 0, 0, mode).to_str(), "06:05 ([       ])");
}

#[test]
fn time_is_read_from_text() {
    assert_eq!(Time::parse("06:30"), Some(Time::new(6, 30)));
    assert_eq!(Time::parse("6:5"), Some(Time::new(6, 5)));
    assert_eq!(Time::parse("+6:+05"), Some(Time::new(6, 5)));
    assert_eq!(Time::parse("23:59:12"), Some(Time::new(23, 59)));
    assert_eq!(Time::parse("255:000255"), Some(Time::new(255, 255)));
    assert_eq!(Time::parse("0630"), None);
    assert_eq!(Time::parse(""), None);
    assert_eq!(Time::parse(":"), None);
    assert_eq!(Time::parse("6:"), None);
    assert_eq!(Time::parse(":30"), None);
    assert_eq!(Time::parse("256:00"), None);
    assert_eq!(Time::parse("12:256"), None);
    assert_eq!(Time::parse("-1:00"), None);
    assert_eq!(Time::parse("1a:00"), None);
    assert_eq!(Time::parse(" 1:00"), None);
    assert_eq!(Time::parse("+:00"), None);
    assert_eq!(Time::parse("++1:00"), None);
    assert_eq!(Time::parse("١:00"), None);
    assert_eq!(Time::parse("99999999999999999999:00"), None);
    assert_eq!(Time::from_str("07:45"), Time::new(7, 45));
    assert_eq!(Time::from_str(&Time::new(19, 3).to_str()), Time::new(19, 3));
}

#[test]
fn time_parse_agrees_with_std() {
    let fields = ["", "0", "7", "07", "+7", "-7", "255", "256", "0255", "+", "1 ", "x", "12", "300", "00"];
    for a in fields.iter() {
        for b in fields.iter() {
            let text = format!("{}:{}", a, b);
            let want = match (a.parse::<u8>(), b.parse::<u8>()) {
                (Ok(h), Ok(m)) => Some(Time::new(h, m)),
                _ => None,
            };
            assert_eq!(Time::parse(&text), want, "{}", text);
        }
    }
}

#[test]
fn clock_text_is_hour_and_minute_of_the_day() {
    for h in 0..24u32 {
        for m in 0..60u32 {
            let t = chrono::NaiveTime::from_hms_opt(h, m, 0).unwrap();
            assert_eq!(Time::new(h as u8, m as u8).to_str(), t.format("%H:%M").to_string());
        }
    }
}

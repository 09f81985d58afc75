use vstd::prelude::*;
use vstd::string::*;

verus! {

/// The character of a decimal digit.
pub open spec fn digit_char(d: int) -> char {
    if d == 0 {
        '0'
    } else if d == 1 {
        '1'
    } else if d == 2 {
        '2'
    } else if d == 3 {
        '3'
    } else if d == 4 {
        '4'
    } else if d == 5 {
        '5'
    } else if d == 6 {
        '6'
    } else if d == 7 {
        '7'
    } else if d == 8 {
        '8'
    } else {
        '9'
    }
}

/// `n` in decimal, with a leading zero if it has one digit only.
pub open spec fn two_digits(n: int) -> Seq<char> {
    if n < 100 {
        seq![digit_char(n / 10), digit_char(n % 10)]
    } else {
        seq![digit_char(n / 100), digit_char((n / 10) % 10), digit_char(n % 10)]
    }
}

/// Hour, colon, minute, each of at least two digits.
pub open spec fn clock_text(hour: int, min: int) -> Seq<char> {
    two_digits(hour) + seq![':'] + two_digits(min)
}

pub(crate) fn digit(d: u8) -> (c: char)
    requires
        d < 10,
    ensures
        c == digit_char(d as int),
{
    if d == 0 {
        '0'
    } else if d == 1 {
        '1'
    } else if d == 2 {
        '2'
    } else if d == 3 {
        '3'
    } else if d == 4 {
        '4'
    } else if d == 5 {
        '5'
    } else if d == 6 {
        '6'
    } else if d == 7 {
        '7'
    } else if d == 8 {
        '8'
    } else {
        '9'
    }
}

fn push_two_digits(out: &mut Vec<char>, n: u8)
    ensures
        final(out)@ == old(out)@ + two_digits(n as int),
{
    if n >= 100 {
        out.push(digit(n / 100));
        out.push(digit((n / 10) % 10));
        out.push(digit(n % 10));
    } else {
        out.push(digit(n / 10));
        out.push(digit(n % 10));
    }
    assert(out@ =~= old(out)@ + two_digits(n as int));
}

/// `String::push` of std appends one character to the end of a string.
#[verifier::external_body]
pub(crate) fn push_char(s: &mut String, c: char)
    ensures
        final(s)@ == old(s)@.push(c),
{
    s.push(c)
}

/// The string of the given characters.
pub fn string_of(chars: &Vec<char>) -> (s: String)
    ensures
        s@ == chars@,
{
    let mut s = String::new();
    let mut i: usize = 0;
    while i < chars.len()
        invariant
            i <= chars@.len(),
            s@ == chars@.take(i as int),
        decreases chars@.len() - i,
    {
        push_char(&mut s, chars[i]);
        assert(chars@.take(i as int).push(chars@[i as int]) =~= chars@.take(i + 1));
        i += 1;
    }
    assert(chars@.take(chars@.len() as int) =~= chars@);
    s
}

/// The value of a decimal digit.
pub open spec fn digit_value(c: char) -> int {
    c as u32 - 48
}

/// Whether a character is one of the digits 0 to 9.
pub open spec fn is_digit(c: char) -> bool {
    48 <= c as u32 <= 57
}

/// Whether every character is a digit.
pub open spec fn all_digits(ds: Seq<char>) -> bool {
    forall|i: int| 0 <= i < ds.len() ==> is_digit(#[trigger] ds[i])
}

/// The number that a row of digits stands for.
pub open spec fn decimal(ds: Seq<char>) -> int
    decreases ds.len(),
{
    if ds.len() == 0 {
        0
    } else {
        decimal(ds.drop_last()) * 10 + digit_value(ds.last())
    }
}

/// The number of at most 255 that a field stands for: digits, with or
/// without a plus sign before them. Nothing for any other field.
pub open spec fn parse_u8(f: Seq<char>) -> Option<u8> {
    let body = if f.len() > 0 && f[0] == '+' {
        f.skip(1)
    } else {
        f
    };
    if body.len() > 0 && all_digits(body) && decimal(body) <= 255 {
        Some(decimal(body) as u8)
    } else {
        None
    }
}

/// The place of the first colon from `from` on, or the length of `s`.
pub open spec fn field_end(s: Seq<char>, from: int) -> int
    decreases s.len() - from,
{
    if 0 <= from < s.len() && s[from] != ':' {
        field_end(s, from + 1)
    } else {
        from
    }
}

/// The time that a text stands for: its first two fields, which colons
/// part, are hour and minute. Nothing if there is one field only or if one
/// of the two is no number of at most 255.
pub open spec fn parse_time(s: Seq<char>) -> Option<Time> {
    let e1 = field_end(s, 0);
    if e1 >= s.len() {
        None
    } else {
        let e2 = field_end(s, e1 + 1);
        match (parse_u8(s.subrange(0, e1)), parse_u8(s.subrange(e1 + 1, e2))) {
            (Some(hour), Some(min)) => Some(Time { hour, min }),
            _ => None,
        }
    }
}

proof fn lemma_field_end(s: Seq<char>, from: int)
    requires
        0 <= from <= s.len(),
    ensures
        from <= field_end(s, from) <= s.len(),
    decreases s.len() - from,
{
    if from < s.len() && s[from] != ':' {
        lemma_field_end(s, from + 1);
    }
}

proof fn lemma_decimal_grows(ds: Seq<char>, k: int)
    requires
        0 <= k <= ds.len(),
        all_digits(ds),
    ensures
        0 <= decimal(ds.take(k)) <= decimal(ds),
    decreases ds.len() - k,
{
    if k == ds.len() {
        assert(ds.take(k) =~= ds);
        lemma_decimal_nonneg(ds);
    } else {
        lemma_decimal_grows(ds, k + 1);
        assert(ds.take(k + 1).drop_last() =~= ds.take(k));
        assert(is_digit(ds[k]));
        lemma_decimal_nonneg(ds.take(k));
    }
}

proof fn lemma_decimal_nonneg(ds: Seq<char>)
    requires
        all_digits(ds),
    ensures
        0 <= decimal(ds),
    decreases ds.len(),
{
    if ds.len() > 0 {
        lemma_decimal_nonneg(ds.drop_last());
        assert(is_digit(ds.last()));
    }
}

fn find_colon(chars: &Vec<char>, from: usize) -> (end: usize)
    requires
        from <= chars@.len(),
    ensures
        end == field_end(chars@, from as int),
        from <= end <= chars@.len(),
{
    let mut i = from;
    while i < chars.len() && chars[i] != ':'
        invariant
            from <= i <= chars@.len(),
            field_end(chars@, from as int) == field_end(chars@, i as int),
        decreases chars@.len() - i,
    {
        i += 1;
    }
    i
}

fn parse_field(chars: &Vec<char>, from: usize, to: usize) -> (res: Option<u8>)
    requires
        from <= to <= chars@.len(),
    ensures
        res == parse_u8(chars@.subrange(from as int, to as int)),
{
    let ghost f = chars@.subrange(from as int, to as int);
    let start = if from < to && chars[from] == '+' {
        from + 1
    } else {
        from
    };
    let ghost body = chars@.subrange(start as int, to as int);
    assert(body =~= if f.len() > 0 && f[0] == '+' {
        f.skip(1)
    } else {
        f
    });
    if start == to {
        return None;
    }
    let mut acc: u32 = 0;
    let mut i = start;
    while i < to
        invariant
            from <= start <= i <= to <= chars@.len(),
            start < to,
            f == chars@.subrange(from as int, to as int),
            body == chars@.subrange(start as int, to as int),
            body == (if f.len() > 0 && f[0] == '+' {
                f.skip(1)
            } else {
                f
            }),
            all_digits(body.take(i - start)),
            acc == decimal(body.take(i - start)),
            acc <= 255,
        decreases to - i,
    {
        let v = chars[i] as u32;
        if v < 48 || v > 57 {
            assert(!is_digit(body[i - start]));
            return None;
        }
        let ghost prev = body.take(i - start);
        let ghost next = body.take(i - start + 1);
        assert(next.drop_last() =~= prev);
        assert(next.last() == chars@[i as int]);
        assert(all_digits(next)) by {
            assert forall|k: int| 0 <= k < next.len() implies is_digit(#[trigger] next[k]) by {
                if k < prev.len() {
                    assert(next[k] == prev[k]);
                }
            }
        }
        acc = acc * 10 + (v - 48);
        if acc > 255 {
            proof {
                if all_digits(body) {
                    lemma_decimal_grows(body, i - start + 1);
                }
            }
            return None;
        }
        i += 1;
    }
    assert(body.take(to - start) =~= body);
    Some(acc as u8)
}

/// A time of day to the minute.
#[derive(Debug, Clone, Copy, PartialEq, Eq, Structural)]
pub struct Time {
    pub hour: u8,
    pub min: u8,
}

impl Time {
    /// The time `hour`:`min`.
    pub fn new(hour: u8, min: u8) -> (t: Time)
        ensures
            t.hour == hour,
            t.min == min,
    {
        Time { hour, min }
    }

    /// The time that `s` stands for, if it stands for one: the text up to
    /// the first colon is the hour, what follows up to the next colon or the
    /// end is the minute.
    pub fn parse(s: &str) -> (res: Option<Time>)
        ensures
            res == parse_time(s@),
    {
        let n = s.unicode_len();
        let mut chars: Vec<char> = Vec::new();
        let mut i: usize = 0;
        while i < n
            invariant
                i <= n,
                n == s@.len(),
                chars@ == s@.take(i as int),
            decreases n - i,
        {
            chars.push(s.get_char(i));
            assert(s@.take(i as int).push(s@[i as int]) =~= s@.take(i + 1));
            i += 1;
        }
        assert(s@.take(n as int) =~= s@);
        let e1 = find_colon(&chars, 0);
        if e1 >= chars.len() {
            return None;
        }
        let e2 = find_colon(&chars, e1 + 1);
        let hour = parse_field(&chars, 0, e1);
        let min = parse_field(&chars, e1 + 1, e2);
        match (hour, min) {
            (Some(hour), Some(min)) => Some(Time { hour, min }),
            _ => None,
        }
    }

    /// The time that `s` stands for. `s` must stand for one.
    pub fn from_str(s: &str) -> (t: Time)
        requires
            parse_time(s@) is Some,
        ensures
            Some(t) == parse_time(s@),
    {
        match Time::parse(s) {
            Some(t) => t,
            None => Time { hour: 0, min: 0 },
        }
    }

    /// The characters of `to_str`.
    pub fn digits(&self) -> (text: Vec<char>)
        ensures
            text@ == clock_text(self.hour as int, self.min as int),
    {
        let mut text: Vec<char> = Vec::new();
        push_two_digits(&mut text, self.hour);
        text.push(':');
        push_two_digits(&mut text, self.min);
        assert(text@ =~= clock_text(self.hour as int, self.min as int));
        text
    }

    /// The time as text: hour and minute, each with a leading zero where it
    /// has one digit, and a colon between them.
    pub fn to_str(&self) -> (s: String)
        ensures
            s@ == clock_text(self.hour as int, self.min as int),
    {
        let text = self.digits();
        string_of(&text)
    }
}

/// A day of the week.
#[derive(Debug, Clone, Copy, PartialEq, Eq, Structural)]
pub enum Weekday {
    Mon,
    Tue,
    Wed,
    Thu,
    Fri,
    Sat,
    Sun,
}

pub const MONDAY: u8 = 0x01;
pub const TUESDAY: u8 = 0x02;
pub const WEDNESDAY: u8 = 0x04;
pub const THURSDAY: u8 = 0x08;
pub const FRIDAY: u8 = 0x10;
pub const SATURDAY: u8 = 0x20;
pub const SUNDAY: u8 = 0x40;
/// Monday to Friday.
pub const WORKDAYS: u8 = 0x1f;
/// Every day of the week.
pub const ALL_DAYS: u8 = 0x7f;

/// The bit that stands for a day in a `DayMask`.
pub open spec fn day_bit(dow: Weekday) -> u8 {
    match dow {
        Weekday::Mon => MONDAY,
        Weekday::Tue => TUESDAY,
        Weekday::Wed => WEDNESDAY,
        Weekday::Thu => THURSDAY,
        Weekday::Fri => FRIDAY,
        Weekday::Sat => SATURDAY,
        Weekday::Sun => SUNDAY,
    }
}

/// A set of days of the week, one bit for each day, Monday in bit 0.
#[derive(Debug, Clone, Copy, PartialEq, Eq, Structural)]
pub struct DayMask {
    bits: u8,
}

impl View for DayMask {
    type V = u8;

    closed spec fn view(&self) -> u8 {
        self.bits
    }
}

impl Default for DayMask {
    /// Monday to Friday.
    fn default() -> (mask: DayMask)
        ensures
            mask@ == WORKDAYS,
    {
        DayMask { bits: WORKDAYS }
    }
}

impl DayMask {
    /// Whether `dow` is in the set.
    pub open spec fn has(&self, dow: Weekday) -> bool {
        self@ & day_bit(dow) != 0
    }

    /// The days whose bits are set in `bits`; bit 7 stands for no day and is
    /// dropped.
    pub fn from_bits_truncate(bits: u8) -> (mask: DayMask)
        ensures
            mask@ == bits & ALL_DAYS,
    {
        DayMask { bits: bits & ALL_DAYS }
    }

    /// No day.
    pub fn empty() -> (mask: DayMask)
        ensures
            mask@ == 0,
    {
        DayMask { bits: 0 }
    }

    /// Every day.
    pub fn all() -> (mask: DayMask)
        ensures
            mask@ == ALL_DAYS,
    {
        DayMask { bits: ALL_DAYS }
    }

    /// The set as bits.
    pub fn bits(&self) -> (bits: u8)
        ensures
            bits == self@,
    {
        self.bits
    }

    /// Whether every day of `other` is in the set.
    pub fn contains(&self, other: DayMask) -> (r: bool)
        ensures
            r == (self@ & other@ == other@),
    {
        self.bits & other.bits == other.bits
    }

    /// Adds the days of `other`.
    pub fn insert(&mut self, other: DayMask)
        ensures
            final(self)@ == old(self)@ | other@,
    {
        self.bits = self.bits | other.bits;
    }

    /// Takes the days of `other` out.
    pub fn remove(&mut self, other: DayMask)
        ensures
            final(self)@ == old(self)@ & !other@,
    {
        self.bits = self.bits & !other.bits;
    }

    /// Whether `dow` is in the set.
    pub fn contains_dow(self, dow: Weekday) -> (r: bool)
        ensures
            r == self.has(dow),
    {
        let bit: u8 = match dow {
            Weekday::Mon => MONDAY,
            Weekday::Tue => TUESDAY,
            Weekday::Wed => WEDNESDAY,
            Weekday::Thu => THURSDAY,
            Weekday::Fri => FRIDAY,
            Weekday::Sat => SATURDAY,
            Weekday::Sun => SUNDAY,
        };
        self.bits & bit != 0
    }
}

/// When an alarm goes off.
#[derive(Debug, Clone, Copy, PartialEq, Eq, Structural)]
pub enum AlarmMode {
    /// Once, the next time its time of day comes.
    OneTime,
    /// On every day of the mask.
    Recurring(DayMask),
}

/// A reading of the wall clock.
#[derive(Debug, Clone, Copy, PartialEq, Eq, Structural)]
pub struct ClockReading {
    pub weekday: Weekday,
    pub hour: u8,
    pub minute: u8,
    pub second: u8,
}

/// An alarm: when it goes off, and how the volume fades in from then on.
/// Volumes are in per cent of full volume.
#[derive(Debug, Clone, Copy, PartialEq, Eq, Structural)]
pub struct Alarm {
    pub enabled: bool,
    pub time: Time,
    pub length_s: i64,
    pub start_vol: u8,
    pub end_vol: u8,
    pub mode: AlarmMode,
}

/// `x` for a day that is in the mask, a blank for one that is not.
pub open spec fn day_mark(mask: u8, i: int) -> char {
    if mask & (1u8 << (i as u8)) != 0 {
        'x'
    } else {
        ' '
    }
}

/// The seven marks of a mask between square brackets, Monday first.
pub open spec fn mask_text(mask: u8) -> Seq<char> {
    seq![
        '[',
        day_mark(mask, 0),
        day_mark(mask, 1),
        day_mark(mask, 2),
        day_mark(mask, 3),
        day_mark(mask, 4),
        day_mark(mask, 5),
        day_mark(mask, 6),
        ']',
    ]
}

/// The alarm in words, as the bottom line shows it.
pub open spec fn alarm_text(alarm: Alarm) -> Seq<char> {
    let time = clock_text(alarm.time.hour as int, alarm.time.min as int);
    if !alarm.enabled {
        "Disabled"@
    } else {
        match alarm.mode {
            AlarmMode::OneTime => time + " (1 time)"@,
            AlarmMode::Recurring(dm) => if dm@ == WORKDAYS {
                time + " (M-F)"@
            } else {
                time + " ("@ + mask_text(dm@) + ")"@
            },
        }
    }
}

/// Whether the alarm goes off at `now`: it is enabled, `now` is the full
/// minute of its time, and the day fits its mode.
pub open spec fn goes_off(alarm: Alarm, now: ClockReading) -> bool {
    &&& alarm.enabled
    &&& now.second == 0
    &&& now.hour == alarm.time.hour
    &&& now.minute == alarm.time.min
    &&& match alarm.mode {
        AlarmMode::OneTime => true,
        AlarmMode::Recurring(mask) => mask.has(now.weekday),
    }
}

impl Alarm {
    /// An alarm at `time` that fades the volume from `start_vol` to
    /// `end_vol` per cent over `length_s` seconds.
    pub fn new(
        enabled: bool,
        time: Time,
        length_s: i64,
        start_vol: u8,
        end_vol: u8,
        mode: AlarmMode,
    ) -> (alarm: Alarm)
        ensures
            alarm == (Alarm { enabled, time, length_s, start_vol, end_vol, mode }),
    {
        Alarm { enabled, time, length_s, start_vol, end_vol, mode }
    }

    /// The alarm in words: `Disabled`, or its time followed by `(1 time)`,
    /// by `(M-F)` for Monday to Friday, or by the marks of its days.
    pub fn to_str(&self) -> (s: String)
        ensures
            s@ == alarm_text(*self),
    {
        if self.enabled {
            let mut s = self.time.to_str();
            match self.mode {
                AlarmMode::OneTime => {
                    s.append(" (1 time)");
                },
                AlarmMode::Recurring(dm) => {
                    if dm.bits() == WORKDAYS {
                        s.append(" (M-F)");
                    } else {
                        s.append(" (");
                        let ghost head = s@;
                        push_char(&mut s, '[');
                        let mut i: u8 = 0;
                        while i < 7
                            invariant
                                i <= 7,
                                s@.len() == head.len() + 1 + i,
                                s@.take(head.len() as int) == head,
                                s@[head.len() as int] == '[',
                                forall|k: int|
                                    0 <= k < i ==> s@[head.len() + 1 + k] == day_mark(dm@, k),
                            decreases 7 - i,
                        {
                            assert(1u8 << i <= 0x40) by (bit_vector)
                                requires
                                    i < 7,
                            ;
                            let next_char = if dm.bits() & (1u8 << i) != 0 {
                                'x'
                            } else {
                                ' '
                            };
                            let ghost prev = s@;
                            push_char(&mut s, next_char);
                            assert(s@.take(head.len() as int) =~= prev.take(head.len() as int));
                            i += 1;
                        }
                        let ghost prev = s@;
                        push_char(&mut s, ']');
                        assert(s@ =~= head + mask_text(dm@)) by {
                            assert(s@.take(head.len() as int) =~= prev.take(head.len() as int));
                        }
                        s.append(")");
                    }
                },
            }
            s
        } else {
            String::from_str("Disabled")
        }
    }

    /// The length of the fade, in seconds.
    pub fn get_length(&self) -> (length_s: i64)
        ensures
            length_s == self.length_s,
    {
        self.length_s
    }

    /// The volume at which the fade starts, in per cent.
    pub fn get_start_vol(&self) -> (vol: u8)
        ensures
            vol == self.start_vol,
    {
        self.start_vol
    }

    /// The volume at which the fade ends, in per cent.
    pub fn get_end_vol(&self) -> (vol: u8)
        ensures
            vol == self.end_vol,
    {
        self.end_vol
    }

    /// When the alarm goes off.
    pub fn get_mode(&self) -> (mode: AlarmMode)
        ensures
            mode == self.mode,
    {
        self.mode
    }

    /// Whether the alarm is enabled.
    pub fn is_enabled(&self) -> (enabled: bool)
        ensures
            enabled == self.enabled,
    {
        self.enabled
    }

    /// Enables a disabled alarm and disables an enabled one.
    pub fn toggle_enabled(&mut self)
        ensures
            *final(self) == (Alarm { enabled: !old(self).enabled, ..*old(self) }),
    {
        self.enabled = !self.enabled;
    }

    /// The time of day of the alarm.
    pub fn get_time(&self) -> (time: Time)
        ensures
            time == self.time,
    {
        self.time
    }

    /// Whether the alarm goes off at `now`.
    pub fn should_start(&self, now: &ClockReading) -> (r: bool)
        ensures
            r == goes_off(*self, *now),
    {
        if !self.enabled || now.second != 0 || now.hour != self.time.hour || now.minute
            != self.time.min {
            return false;
        }
        match self.mode {
            AlarmMode::OneTime => true,
            AlarmMode::Recurring(mask) => mask.contains_dow(now.weekday),
        }
    }

    /// Takes note that the alarm went off: one that goes off once is
    /// disabled, a recurring one stays as it is.
    pub fn start(&mut self)
        ensures
            *final(self) == (Alarm {
                enabled: old(self).enabled && old(self).mode != AlarmMode::OneTime,
                ..*old(self)
            }),
    {
        if let AlarmMode::OneTime = self.mode {
            self.enabled = false;
        }
    }
}

} // verus!

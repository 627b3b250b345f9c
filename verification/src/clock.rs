use vstd::prelude::*;
use crate::text::{digit, digit_char, string_of_chars};

verus! {

/// Minutes in a day.
pub const DAY: i32 = 1440;

/// The minute count that a clock keeps for a raw count of minutes: the
/// remainder modulo one day for a count that is not negative, and one day
/// less the remainder of the magnitude for a negative one (so a negative
/// whole number of days is kept as a full day, not as zero).
pub open spec fn wrap_minutes(m: int) -> int {
    if m < 0 {
        1440 - ((-m) % 1440)
    } else {
        m % 1440
    }
}

/// The text of a minute count: hours and minutes, two digits each, with a
/// colon between them.
pub open spec fn clock_text(m: int) -> Seq<char> {
    seq![
        digit_char((m / 60) / 10),
        digit_char((m / 60) % 10),
        ':',
        digit_char((m % 60) / 10),
        digit_char((m % 60) % 10),
    ]
}

/// A time of day, kept as minutes since midnight.
#[derive(Debug, PartialEq, Eq, Structural)]
pub struct Clock {
    minutes: i32,
}

impl Clock {
    /// The minutes since midnight that this clock shows.
    pub closed spec fn view(&self) -> int {
        self.minutes as int
    }

    /// Every clock holds between zero minutes and one full day.
    pub closed spec fn wf(&self) -> bool {
        0 <= self.minutes <= 1440
    }

    fn from_minutes(minutes: i32) -> (c: Self)
        ensures
            c.wf(),
            c@ == wrap_minutes(minutes as int),
    {
        if minutes < 0 {
            let magnitude: i64 = -(minutes as i64);
            let rest: i64 = magnitude % 1440;
            Clock { minutes: (1440 - rest) as i32 }
        } else {
            Clock { minutes: minutes % DAY }
        }
    }

    /// The clock for `hours` hours and `minutes` minutes, either of which
    /// may be negative or larger than a day or an hour.
    pub fn new(hours: i32, minutes: i32) -> (c: Self)
        requires
            i32::MIN <= hours * 60 <= i32::MAX,
            i32::MIN <= hours * 60 + minutes <= i32::MAX,
        ensures
            c.wf(),
            c@ == wrap_minutes(hours * 60 + minutes),
    {
        Clock::from_minutes(hours * 60 + minutes)
    }

    /// The clock that shows this time moved by `minutes`.
    pub fn add_minutes(&self, minutes: i32) -> (c: Self)
        requires
            self.wf(),
            self@ + minutes <= i32::MAX,
        ensures
            c.wf(),
            c@ == wrap_minutes(self@ + minutes),
    {
        Clock::from_minutes(self.minutes + minutes)
    }

    /// The time as `HH:MM`.
    pub fn to_string(&self) -> (s: String)
        requires
            self.wf(),
        ensures
            s@ == clock_text(self@),
    {
        let hours: i32 = self.minutes / 60;
        let minutes: i32 = self.minutes % 60;
        let mut text: Vec<char> = Vec::new();
        text.push(digit((hours / 10) as u8));
        text.push(digit((hours % 10) as u8));
        text.push(':');
        text.push(digit((minutes / 10) as u8));
        text.push(digit((minutes % 10) as u8));
        assert(text@ =~= clock_text(self@));
        string_of_chars(&text)
    }
}

} // verus!

//! When old records are removed and when the databases are compacted.

use crate::engine::types::timestamp_of;
use crate::span::Span;
use crate::text::{
    chars_of, concat, concat3, contains_char, find_last, is_blank, is_whitespace, last_position,
    quoted, quoted_text, reading, remove_first, same_text, trim, trimmed, whitespace,
    without_first,
};
use vstd::prelude::*;

verus! {

/// What reading a text as a length of time gives: its nanoseconds, or what is
/// wrong with the text.
pub uninterp spec fn duration_of(text: Seq<char>) -> Result<u128, Seq<char>>;

/// What reading a text as a point in time gives: the seconds since the Unix
/// epoch and the nanoseconds since that second, or what is wrong with the text.
pub uninterp spec fn instant_of(text: Seq<char>) -> Result<(i64, u32), Seq<char>>;

/// A decimal digit of ASCII.
pub open spec fn is_digit(c: char) -> bool {
    48 <= c as u32 <= 57
}

/// A character that can stand in the name of a unit: a letter of ASCII, or the
/// micro sign.
pub open spec fn names_unit(c: char) -> bool {
    65 <= c as u32 <= 90 || 97 <= c as u32 <= 122 || c as u32 == 181
}

/// The nanoseconds of a second.
pub const SECOND: u128 = 1_000_000_000;

/// The nanoseconds of a minute.
pub const MINUTE: u128 = 60_000_000_000;

/// The nanoseconds of 2^64 seconds: one second more than can be counted.
pub const TOO_LONG: u128 = 18_446_744_073_709_551_616_000_000_000;

/// The nanoseconds of a unit; none where there is no unit of that name.
pub open spec fn unit_nanos(name: Seq<char>) -> u128 {
    if name == "nanos"@ || name == "nsec"@ || name == "ns"@ {
        1
    } else if name == "usec"@ || name == "us"@ || name == "\u{b5}s"@ {
        1_000
    } else if name == "millis"@ || name == "msec"@ || name == "ms"@ {
        1_000_000
    } else if name == "seconds"@ || name == "second"@ || name == "secs"@ || name == "sec"@ || name
        == "s"@ {
        SECOND
    } else if name == "minutes"@ || name == "minute"@ || name == "min"@ || name == "mins"@ || name
        == "m"@ {
        MINUTE
    } else if name == "hours"@ || name == "hour"@ || name == "hr"@ || name == "hrs"@ || name
        == "h"@ {
        3_600_000_000_000
    } else if name == "days"@ || name == "day"@ || name == "d"@ {
        86_400_000_000_000
    } else if name == "weeks"@ || name == "week"@ || name == "wk"@ || name == "wks"@ || name
        == "w"@ {
        604_800_000_000_000
    } else if name == "months"@ || name == "month"@ || name == "M"@ {
        2_630_016_000_000_000
    } else if name == "years"@ || name == "year"@ || name == "yr"@ || name == "yrs"@ || name
        == "y"@ {
        31_557_600_000_000_000
    } else {
        0
    }
}

/// Whether `name` is one of these.
fn is_one_of(name: &str, a: &str, b: &str, c: &str) -> (r: bool)
    ensures
        r == (name@ == a@ || name@ == b@ || name@ == c@),
{
    same_text(name, a) || same_text(name, b) || same_text(name, c)
}

/// The nanoseconds of the unit `name`; none where there is none of that name.
fn nanos_of_unit(name: &str) -> (r: u128)
    ensures
        r == unit_nanos(name@),
{
    if is_one_of(name, "nanos", "nsec", "ns") {
        1
    } else if is_one_of(name, "usec", "us", "\u{b5}s") {
        1_000
    } else if is_one_of(name, "millis", "msec", "ms") {
        1_000_000
    } else if is_one_of(name, "seconds", "second", "secs") || is_one_of(name, "sec", "s", "s") {
        SECOND
    } else if is_one_of(name, "minutes", "minute", "min") || is_one_of(name, "mins", "m", "m") {
        MINUTE
    } else if is_one_of(name, "hours", "hour", "hr") || is_one_of(name, "hrs", "h", "h") {
        3_600_000_000_000
    } else if is_one_of(name, "days", "day", "d") {
        86_400_000_000_000
    } else if is_one_of(name, "weeks", "week", "wk") || is_one_of(name, "wks", "w", "w") {
        604_800_000_000_000
    } else if is_one_of(name, "months", "month", "M") {
        2_630_016_000_000_000
    } else if is_one_of(name, "years", "year", "yr") || is_one_of(name, "yrs", "y", "y") {
        31_557_600_000_000_000
    } else {
        0
    }
}

/// What adding a length to others comes to.
pub enum Added {
    /// The nanoseconds of all of them.
    Total(u128),
    /// A number is too large, or not a whole number where it has to be. That is
    /// noticed, and the text is refused.
    Refused,
    /// The sum is too large, and that is not noticed: the fractions of seconds
    /// make up one whole second, and no second can be added to the others.
    Overrun,
}

/// What adding `number / parts` units to `total` comes to, where the units are
/// counted in nanoseconds (`fine`) or in seconds.
pub open spec fn plus(total: u128, number: int, parts: int, unit: u128, fine: bool) -> Added {
    let product = number * (if fine {
        unit as int
    } else {
        unit as int / SECOND as int
    });
    if product > u64::MAX || product % parts != 0 {
        Added::Refused
    } else {
        let amount = product / parts * (if fine {
            1
        } else {
            SECOND as int
        });
        let rest = total as int % SECOND as int;
        if fine && rest + amount > u64::MAX {
            Added::Refused
        } else if total + amount < TOO_LONG {
            Added::Total((total + amount) as u128)
        } else if fine && rest + amount == SECOND {
            Added::Overrun
        } else {
            Added::Refused
        }
    }
}

/// A length that is being read, after the sum of those before it.
#[verifier::ext_equal]
pub struct Tally {
    /// The nanoseconds of the lengths before it.
    pub total: u128,
    /// Whether its number has begun.
    pub begun: bool,
    /// The digits before the point.
    pub whole: int,
    /// The digits after the point.
    pub part: int,
    /// Ten to the power of their number; zero before there is a point.
    pub scale: int,
    pub unit: Seq<char>,
}

/// Nothing of a length has been read after others.
pub open spec fn fresh(total: u128) -> Tally {
    Tally { total, begun: false, whole: 0, part: 0, scale: 0, unit: Seq::empty() }
}

/// How far the reading of a text has come.
pub enum Progress {
    Reading(Tally),
    Refused,
    Overrun,
}

/// What adding a length that has been read comes to: first what stands before
/// the point, and then what stands after it.
pub open spec fn with_length(tally: Tally) -> Added {
    let unit = unit_nanos(tally.unit);
    if unit == 0 {
        Added::Refused
    } else {
        match plus(tally.total, tally.whole, 1, unit, unit < SECOND) {
            Added::Total(total) => if tally.scale == 0 {
                Added::Total(total)
            } else if unit == 1 {
                Added::Refused
            } else {
                plus(total, tally.part, tally.scale, unit, unit <= MINUTE)
            },
            other => other,
        }
    }
}

/// How far the reading has come where a length is over and another may follow,
/// of whose number `whole` has been read if it has begun.
pub open spec fn followed_by(added: Added, begun: bool, whole: int) -> Progress {
    match added {
        Added::Total(total) => Progress::Reading(Tally { begun, whole, ..fresh(total) }),
        Added::Refused => Progress::Refused,
        Added::Overrun => Progress::Overrun,
    }
}

/// How far the reading has come after one character more.
pub open spec fn read_on(tally: Tally, c: char) -> Progress {
    let digit = c as u32 - 48;
    if is_digit(c) {
        if tally.unit.len() > 0 {
            followed_by(with_length(tally), true, digit)
        } else if tally.scale > 0 {
            if tally.scale * 10 > u64::MAX || tally.part * 10 + digit > u64::MAX {
                Progress::Refused
            } else {
                Progress::Reading(
                    Tally { part: tally.part * 10 + digit, scale: tally.scale * 10, ..tally },
                )
            }
        } else if tally.whole * 10 + digit > u64::MAX {
            Progress::Refused
        } else {
            Progress::Reading(Tally { begun: true, whole: tally.whole * 10 + digit, ..tally })
        }
    } else if whitespace(c) {
        if tally.unit.len() > 0 {
            followed_by(with_length(tally), false, 0)
        } else {
            Progress::Reading(tally)
        }
    } else if names_unit(c) {
        if !tally.begun || tally.scale == 1 {
            Progress::Refused
        } else {
            Progress::Reading(Tally { unit: tally.unit.push(c), ..tally })
        }
    } else if c == '.' && tally.begun && tally.unit.len() == 0 && tally.scale == 0 {
        Progress::Reading(Tally { scale: 1, ..tally })
    } else {
        Progress::Refused
    }
}

/// How far the reading has come at the end of a text.
pub open spec fn progress(text: Seq<char>) -> Progress
    decreases text.len(),
{
    if text.len() == 0 {
        Progress::Reading(fresh(0))
    } else {
        match progress(text.drop_last()) {
            Progress::Reading(tally) => read_on(tally, text.last()),
            other => other,
        }
    }
}

/// Texts that can be read as a length of time, or refused: all but those whose
/// lengths come to 2^64 seconds exactly, the last second of which is made up of
/// fractions.
pub open spec fn is_summable(text: Seq<char>) -> bool {
    match progress(text) {
        Progress::Reading(tally) => tally.unit.len() == 0 || !(with_length(tally) is Overrun),
        Progress::Refused => true,
        Progress::Overrun => false,
    }
}

/// A length that is being read.
struct Reading {
    total: u128,
    begun: bool,
    whole: u64,
    part: u64,
    scale: u64,
    unit: String,
}

impl View for Reading {
    type V = Tally;

    closed spec fn view(&self) -> Tally {
        Tally {
            total: self.total,
            begun: self.begun,
            whole: self.whole as int,
            part: self.part as int,
            scale: self.scale as int,
            unit: self.unit@,
        }
    }
}

/// Adds `number / parts` units to `total`.
fn add_units(total: u128, number: u64, parts: u64, unit: u128, fine: bool) -> (r: Added)
    requires
        total < TOO_LONG,
        parts > 0,
        unit <= 31_557_600_000_000_000,
    ensures
        r == plus(total, number as int, parts as int, unit, fine),
        r matches Added::Total(sum) ==> sum < TOO_LONG,
{
    let factor: u128 = if fine {
        unit
    } else {
        unit / SECOND
    };
    proof {
        assert(number * factor <= u64::MAX * 31_557_600_000_000_000) by (nonlinear_arith)
            requires
                number <= u64::MAX,
                factor <= 31_557_600_000_000_000,
        ;
        assert(0 <= number * factor) by (nonlinear_arith);
    }
    let product: u128 = number as u128 * factor;
    if product > u64::MAX as u128 || product % parts as u128 != 0 {
        return Added::Refused;
    }
    let count: u128 = product / parts as u128;
    proof {
        assert(count <= product) by (nonlinear_arith)
            requires
                count == product / parts as u128,
                parts > 0,
        ;
    }
    let amount: u128 = if fine {
        count
    } else {
        count * SECOND
    };
    let rest: u128 = total % SECOND;
    if fine && rest + amount > u64::MAX as u128 {
        Added::Refused
    } else if total + amount < TOO_LONG {
        Added::Total(total + amount)
    } else if fine && rest + amount == SECOND {
        Added::Overrun
    } else {
        Added::Refused
    }
}

impl Reading {
    /// The lengths so far have a sum that can be counted.
    spec fn wf(self) -> bool {
        self.total < TOO_LONG
    }

    /// Adds the length that has been read.
    fn add_length(&self) -> (r: Added)
        requires
            self.wf(),
        ensures
            r == with_length(self@),
            r matches Added::Total(sum) ==> sum < TOO_LONG,
    {
        let unit = nanos_of_unit(self.unit.as_str());
        if unit == 0 {
            return Added::Refused;
        }
        match add_units(self.total, self.whole, 1, unit, unit < SECOND) {
            Added::Total(total) => if self.scale == 0 {
                Added::Total(total)
            } else if unit == 1 {
                Added::Refused
            } else {
                add_units(total, self.part, self.scale, unit, unit <= MINUTE)
            },
            other => other,
        }
    }

    /// Reads one character more. Where that ends the reading, says whether the
    /// sum ran over.
    fn read(self, c: char) -> (r: Result<Reading, bool>)
        requires
            self.wf(),
        ensures
            match (r, read_on(self@, c)) {
                (Ok(next), Progress::Reading(tally)) => next@ == tally && next.wf(),
                (Err(overrun), Progress::Overrun) => overrun,
                (Err(overrun), Progress::Refused) => !overrun,
                _ => false,
            },
    {
        let code: u32 = c as u32;
        let mut next = self;
        let has_unit = next.unit.as_str().unicode_len() > 0;
        if code >= 48 && code <= 57 {
            let digit: u64 = (code - 48) as u64;
            if has_unit {
                return match next.add_length() {
                    Added::Total(total) => Ok(
                        Reading {
                            total,
                            begun: true,
                            whole: digit,
                            part: 0,
                            scale: 0,
                            unit: String::new(),
                        },
                    ),
                    Added::Refused => Err(false),
                    Added::Overrun => Err(true),
                };
            }
            if next.scale > 0 {
                let scale: u128 = next.scale as u128 * 10;
                let part: u128 = next.part as u128 * 10 + digit as u128;
                if scale > u64::MAX as u128 || part > u64::MAX as u128 {
                    return Err(false);
                }
                next.scale = scale as u64;
                next.part = part as u64;
                return Ok(next);
            }
            let whole: u128 = next.whole as u128 * 10 + digit as u128;
            if whole > u64::MAX as u128 {
                return Err(false);
            }
            next.begun = true;
            next.whole = whole as u64;
            return Ok(next);
        }
        if is_whitespace(c) {
            if !has_unit {
                return Ok(next);
            }
            return match next.add_length() {
                Added::Total(total) => Ok(
                    Reading {
                        total,
                        begun: false,
                        whole: 0,
                        part: 0,
                        scale: 0,
                        unit: String::new(),
                    },
                ),
                Added::Refused => Err(false),
                Added::Overrun => Err(true),
            };
        }
        if (code >= 65 && code <= 90) || (code >= 97 && code <= 122) || code == 181 {
            if !next.begun || next.scale == 1 {
                return Err(false);
            }
            next.unit.push(c);
            return Ok(next);
        }
        if c == '.' && next.begun && !has_unit && next.scale == 0 {
            next.scale = 1;
            return Ok(next);
        }
        Err(false)
    }
}

/// Once the reading has ended, nothing more is read.
proof fn lemma_reading_ends(text: Seq<char>, n: int)
    requires
        0 <= n <= text.len(),
        !(progress(text.take(n)) is Reading),
    ensures
        progress(text) == progress(text.take(n)),
    decreases text.len(),
{
    if n == text.len() {
        assert(text.take(n) =~= text);
    } else {
        assert(text.drop_last().take(n) =~= text.take(n));
        lemma_reading_ends(text.drop_last(), n);
    }
}

/// Whether `text` can be handed to `parse_duration`.
pub fn can_be_summed(text: &str) -> (r: bool)
    ensures
        r == is_summable(text@),
{
    let chars = chars_of(text);
    let mut reading = Reading {
        total: 0,
        begun: false,
        whole: 0,
        part: 0,
        scale: 0,
        unit: String::new(),
    };
    let mut i: usize = 0;
    proof {
        assert(text@.take(0) =~= Seq::<char>::empty());
        assert(reading@ =~= fresh(0));
    }
    while i < chars.len()
        invariant
            i <= chars.len(),
            chars@ == text@,
            reading.wf(),
            progress(text@.take(i as int)) == Progress::Reading(reading@),
        decreases chars.len() - i,
    {
        proof {
            assert(text@.take(i + 1).drop_last() =~= text@.take(i as int));
            assert(text@.take(i + 1).last() == chars@[i as int]);
        }
        match reading.read(chars[i]) {
            Ok(next) => {
                reading = next;
            },
            Err(overrun) => {
                proof {
                    lemma_reading_ends(text@, i + 1);
                }
                return !overrun;
            },
        }
        i += 1;
    }
    proof {
        assert(text@.take(text@.len() as int) =~= text@);
    }
    if reading.unit.as_str().unicode_len() == 0 {
        return true;
    }
    match reading.add_length() {
        Added::Overrun => false,
        _ => true,
    }
}

/// `humantime::parse_duration`: the nanoseconds of the length that the text
/// spells, or the text of the error. The result depends on the text alone. What
/// the length of a text is, is not said here. Where the seconds of several
/// lengths add up to the greatest number there is, and the fractions to one
/// second more, the sum runs over, which is not caught; these are the texts that
/// are not summable.
#[verifier::external_body]
fn parse_duration(text: &str) -> (r: Result<u128, String>)
    requires
        is_summable(text@),
    ensures
        reading(r) == duration_of(text@),
{
    match humantime::parse_duration(text) {
        Ok(duration) => Ok(duration.as_nanos()),
        Err(error) => Err(error.to_string()),
    }
}

/// `DateTime::<FixedOffset>::from_str` of chrono: the point in time that the
/// text spells, as the seconds since the Unix epoch and the nanoseconds since
/// that second, or the text of the error. The result depends on the text alone.
/// What the grammar is, is not said here.
#[verifier::external_body]
fn parse_instant(text: &str) -> (r: Result<(i64, u32), String>)
    ensures
        reading(r) == instant_of(text@),
{
    match text.parse::<chrono::DateTime<chrono::FixedOffset>>() {
        Ok(when) => Ok((when.timestamp(), when.timestamp_subsec_nanos())),
        Err(error) => Err(error.to_string()),
    }
}

/// `chrono::Utc::now`: what the system clock shows, as the seconds since the
/// Unix epoch and the nanoseconds since that second. The reading is up to the
/// machine, so nothing is said of it; the clock must not stand before 1970.
#[verifier::external_body]
fn utc_now() -> (r: (i64, u32)) {
    let now = chrono::Utc::now();
    (now.timestamp(), now.timestamp_subsec_nanos())
}

/// What a setting gives that names a length of time.
pub open spec fn setting_of(
    label: Seq<char>,
    text: Seq<char>,
    length: Result<u128, Seq<char>>,
) -> Result<Span, Seq<char>> {
    match length {
        Ok(nanos) => Ok(Span { nanos }),
        Err(message) => Err("invalid "@ + label + " "@ + quoted_text(text) + ": "@ + message),
    }
}

/// What the setting `label` with the value `text` gives, after the text has been
/// read as a length of time.
pub fn read_setting(label: &str, text: &str, length: Result<u128, String>) -> (r: Result<
    Span,
    String,
>)
    ensures
        reading(r) == setting_of(label@, text@, reading(length)),
{
    match length {
        Ok(nanos) => Ok(Span { nanos }),
        Err(message) => {
            let head = concat3("invalid ", label, " ");
            let quoted_value = quoted(text);
            let named = concat3(head.as_str(), quoted_value.as_str(), ": ");
            Err(concat(named.as_str(), message.as_str()))
        },
    }
}

/// How often the databases are compacted, and at what time of the day.
#[derive(Debug, Clone)]
pub struct VacuumConfig {
    pub every: String,
    pub at: String,
}

/// A time of the day, in UTC. In a leap second the nanoseconds go on past the
/// second's end.
#[derive(Debug, Clone, Copy, PartialEq, Eq, Structural)]
pub struct TimeOfDay {
    pub secs: u32,
    pub nanos: u32,
}

/// The time of the day at a point in time.
pub open spec fn time_of_day_at(instant: (i64, u32)) -> TimeOfDay {
    TimeOfDay { secs: (instant.0 as int % 86_400) as u32, nanos: instant.1 }
}

impl TimeOfDay {
    /// Whether this time comes at or after `other`.
    pub open spec fn reaches(self, other: TimeOfDay) -> bool {
        self.secs > other.secs || (self.secs == other.secs && self.nanos >= other.nanos)
    }

    /// The time of the day at a point in time.
    pub fn at_instant(instant: (i64, u32)) -> (r: Self)
        ensures
            r == time_of_day_at(instant),
    {
        let secs: i128 = instant.0 as i128;
        let days: i128 = (secs + 106_751_991_167_301 * 86_400) % 86_400;
        proof {
            assert((secs + 106_751_991_167_301 * 86_400) % 86_400 == secs % 86_400);
        }
        TimeOfDay { secs: days as u32, nanos: instant.1 }
    }

    /// Whether this time comes at or after `other`.
    pub fn is_reached_by(self, other: TimeOfDay) -> (r: bool)
        ensures
            r == other.reaches(self),
    {
        other.secs > self.secs || (other.secs == self.secs && other.nanos >= self.nanos)
    }
}

/// The point in time whose time of the day a setting means: on the first day of
/// the epoch, and in UTC unless the setting names an offset.
pub open spec fn stamped(at: Seq<char>) -> Seq<char> {
    if at.contains('+') || last_position(at, '-') > 0 {
        "1970-01-01T"@ + without_first(trimmed(at), ' ') + ":00"@
    } else {
        "1970-01-01T"@ + trimmed(at) + ":00+00:00"@
    }
}

/// The time of the day that was read, or what was wrong with it.
pub open spec fn time_of(instant: Result<(i64, u32), Seq<char>>) -> Result<TimeOfDay, Seq<char>> {
    match instant {
        Ok(instant) => Ok(time_of_day_at(instant)),
        Err(message) => Err(message),
    }
}

/// Milliseconds from the Unix epoch to a point in time.
pub open spec fn millis_at(instant: (i64, u32)) -> int {
    instant.0 * 1_000 + instant.1 / 1_000_000
}

/// Whether compacting is due at `now`: the time of the day has come, and the
/// spacing has passed since the last run. What is wrong with the time of the day
/// is told first. A spacing is too large only where it is needed.
pub open spec fn due(
    last_run: Option<i64>,
    at: Result<TimeOfDay, Seq<char>>,
    every: Result<Span, Seq<char>>,
    now: (i64, u32),
) -> Result<bool, Seq<char>> {
    match (at, every) {
        (Err(message), _) => Err(message),
        (Ok(_), Err(message)) => Err(message),
        (Ok(at), Ok(every)) => {
            let millis = every.nanos / 1_000_000;
            let reached = time_of_day_at(now).reaches(at);
            match last_run {
                None => Ok(reached),
                Some(last) => if millis > i64::MAX {
                    Err("vacuum.every too large"@)
                } else {
                    Ok(
                        reached && (if last + millis > i64::MAX {
                            i64::MAX as int
                        } else {
                            last + millis
                        }) <= millis_at(now),
                    )
                },
            }
        },
    }
}

/// Whether compacting is due at `now`, for a time of the day and a spacing that
/// have been read.
pub fn is_due_at(
    last_run: Option<i64>,
    at: Result<TimeOfDay, String>,
    every: Result<Span, String>,
    now: (i64, u32),
) -> (r: Result<bool, String>)
    ensures
        reading(r) == due(last_run, reading(at), reading(every), now),
{
    let at = match at {
        Ok(at) => at,
        Err(message) => return Err(message),
    };
    let every = match every {
        Ok(every) => every,
        Err(message) => return Err(message),
    };
    let spaced = match last_run {
        None => true,
        Some(last) => {
            let millis = every.as_millis();
            if millis > i64::MAX as u128 {
                return Err("vacuum.every too large".to_owned());
            }
            let sum: i128 = last as i128 + millis as i128;
            let next: i128 = if sum > i64::MAX as i128 {
                i64::MAX as i128
            } else {
                sum
            };
            let now_millis: i128 = now.0 as i128 * 1_000 + (now.1 / 1_000_000) as i128;
            next <= now_millis
        },
    };
    Ok(spaced && at.is_reached_by(TimeOfDay::at_instant(now)))
}

impl VacuumConfig {
    /// The spacing between two runs.
    pub fn every(&self) -> (r: Result<Span, String>)
        requires
            is_summable(self.every@),
        ensures
            reading(r) == setting_of("vacuum.every"@, self.every@, duration_of(self.every@)),
    {
        let length = parse_duration(self.every.as_str());
        read_setting("vacuum.every", self.every.as_str(), length)
    }

    /// The text that is read for the time of the day.
    pub fn stamp(&self) -> (r: String)
        ensures
            r@ == stamped(self.at@),
    {
        let at = self.at.as_str();
        let chars = chars_of(at);
        let has_offset = contains_char(at, '+') || match find_last(&chars, '-') {
            Some(position) => position > 0,
            None => false,
        };
        let bare = trim(at);
        if has_offset {
            let normalized = remove_first(bare.as_str(), ' ');
            concat3("1970-01-01T", normalized.as_str(), ":00")
        } else {
            concat3("1970-01-01T", bare.as_str(), ":00+00:00")
        }
    }

    /// The time of the day from which a run may start.
    pub fn at(&self) -> (r: Result<TimeOfDay, String>)
        ensures
            reading(r) == time_of(instant_of(stamped(self.at@))),
    {
        let stamp = self.stamp();
        match parse_instant(stamp.as_str()) {
            Ok(instant) => Ok(TimeOfDay::at_instant(instant)),
            Err(message) => Err(message),
        }
    }

    /// A schedule that can be asked: the spacing can be read, or refused, or the
    /// time of the day is refused before it.
    pub open spec fn readable(self) -> bool {
        instant_of(stamped(self.at@)) is Err || is_summable(self.every@)
    }

    /// Whether `reply` says if compacting is due at `now`, after a last run at
    /// `last_run`.
    pub open spec fn says_due(
        self,
        last_run: Option<i64>,
        now: (i64, u32),
        reply: Result<bool, String>,
    ) -> bool {
        reading(reply) == due(
            last_run,
            time_of(instant_of(stamped(self.at@))),
            setting_of("vacuum.every"@, self.every@, duration_of(self.every@)),
            now,
        )
    }

    /// Whether compacting is due now, after a last run at `last_run`.
    pub fn is_due(&self, last_run: Option<i64>) -> (r: Result<bool, String>)
        requires
            self.readable(),
        ensures
            exists|now: (i64, u32)| #[trigger] self.says_due(last_run, now, r),
    {
        let now = utc_now();
        let at = self.at();
        let every = if at.is_err() {
            Ok(Span { nanos: 0 })
        } else {
            self.every()
        };
        let r = is_due_at(last_run, at, every, now);
        proof {
            assert(self.says_due(last_run, now, r));
        }
        r
    }

    /// Whether compacting is due now, after a last run at `last_run`, unless the
    /// schedule cannot be asked.
    pub fn is_due_if_readable(&self, last_run: Option<i64>) -> (r: Option<Result<bool, String>>)
        ensures
            match r {
                Some(reply) => self.readable() && exists|now: (i64, u32)| #[trigger]
                    self.says_due(last_run, now, reply),
                None => !self.readable(),
            },
    {
        if self.at().is_err() || can_be_summed(self.every.as_str()) {
            Some(self.is_due(last_run))
        } else {
            None
        }
    }
}

/// How often old records are removed, and how old they have to be.
#[derive(Debug, Clone)]
pub struct CleanupConfig {
    pub interval: String,
    pub retention: String,
    pub vacuum: Option<VacuumConfig>,
}

/// What is wrong with a clean-up, if anything: the first fault.
pub open spec fn cleanup_fault(
    interval_text: Seq<char>,
    retention_text: Seq<char>,
    interval: Result<Span, Seq<char>>,
    retention: Result<Span, Seq<char>>,
) -> Option<Seq<char>> {
    if trimmed(interval_text).len() == 0 {
        Some("cleanup.interval must be set"@)
    } else if trimmed(retention_text).len() == 0 {
        Some("cleanup.retention must be set"@)
    } else {
        match (interval, retention) {
            (Err(message), _) => Some(message),
            (Ok(_), Err(message)) => Some(message),
            (Ok(interval), Ok(retention)) => if interval.nanos == 0 {
                Some("cleanup.interval must be greater than zero"@)
            } else if retention.nanos == 0 {
                Some("cleanup.retention must be greater than zero"@)
            } else if retention.nanos / 1_000_000 > i64::MAX {
                Some("cleanup.retention is too large"@)
            } else {
                None
            },
        }
    }
}

/// What a check found: nothing, or the fault.
pub open spec fn fault_of(result: Result<(), String>) -> Option<Seq<char>> {
    match result {
        Ok(()) => None,
        Err(message) => Some(message@),
    }
}

/// Checks a clean-up whose lengths of time have been read.
pub fn judge_cleanup(
    interval_text: &str,
    retention_text: &str,
    interval: Result<Span, String>,
    retention: Result<Span, String>,
) -> (r: Result<(), String>)
    ensures
        fault_of(r) == cleanup_fault(
            interval_text@,
            retention_text@,
            reading(interval),
            reading(retention),
        ),
{
    if is_blank(interval_text) {
        return Err("cleanup.interval must be set".to_owned());
    }
    if is_blank(retention_text) {
        return Err("cleanup.retention must be set".to_owned());
    }
    let interval = match interval {
        Ok(interval) => interval,
        Err(message) => return Err(message),
    };
    let retention = match retention {
        Ok(retention) => retention,
        Err(message) => return Err(message),
    };
    if interval.is_zero() {
        return Err("cleanup.interval must be greater than zero".to_owned());
    }
    if retention.is_zero() {
        return Err("cleanup.retention must be greater than zero".to_owned());
    }
    if retention.as_millis() > i64::MAX as u128 {
        return Err("cleanup.retention is too large".to_owned());
    }
    Ok(())
}

impl CleanupConfig {
    /// Settings that can be checked: the lengths of time that have to be read for
    /// it can be, or are refused.
    pub open spec fn summable(self) -> bool {
        ||| trimmed(self.interval@).len() == 0
        ||| trimmed(self.retention@).len() == 0
        ||| is_summable(self.interval@) && (duration_of(self.interval@) is Err || is_summable(
            self.retention@,
        ))
    }

    /// Whether these settings can be checked.
    pub fn can_be_checked(&self) -> (r: bool)
        ensures
            r == self.summable(),
    {
        if is_blank(self.interval.as_str()) || is_blank(self.retention.as_str()) {
            return true;
        }
        if !can_be_summed(self.interval.as_str()) {
            return false;
        }
        self.interval().is_err() || can_be_summed(self.retention.as_str())
    }

    /// What is wrong with these settings, if anything.
    pub open spec fn fault(self) -> Option<Seq<char>> {
        cleanup_fault(
            self.interval@,
            self.retention@,
            setting_of("cleanup.interval"@, self.interval@, duration_of(self.interval@)),
            setting_of("cleanup.retention"@, self.retention@, duration_of(self.retention@)),
        )
    }

    /// How long to wait between two runs.
    pub fn interval(&self) -> (r: Result<Span, String>)
        requires
            is_summable(self.interval@),
        ensures
            reading(r) == setting_of(
                "cleanup.interval"@,
                self.interval@,
                duration_of(self.interval@),
            ),
    {
        let length = parse_duration(self.interval.as_str());
        read_setting("cleanup.interval", self.interval.as_str(), length)
    }

    /// How long a finished job is kept.
    pub fn retention(&self) -> (r: Result<Span, String>)
        requires
            is_summable(self.retention@),
        ensures
            reading(r) == setting_of(
                "cleanup.retention"@,
                self.retention@,
                duration_of(self.retention@),
            ),
    {
        let length = parse_duration(self.retention.as_str());
        read_setting("cleanup.retention", self.retention.as_str(), length)
    }

    /// When the databases are compacted, if they are.
    pub fn vacuum(&self) -> (r: Option<VacuumConfig>)
        ensures
            match (r, self.vacuum) {
                (Some(vacuum), Some(own)) => vacuum.every@ == own.every@ && vacuum.at@ == own.at@,
                (None, None) => true,
                _ => false,
            },
    {
        match &self.vacuum {
            Some(vacuum) => Some(
                VacuumConfig { every: vacuum.every.clone(), at: vacuum.at.clone() },
            ),
            None => None,
        }
    }
}

/// Checks a clean-up.
pub fn validate_cleanup_config(cleanup: &CleanupConfig) -> (r: Result<(), String>)
    requires
        cleanup.summable(),
    ensures
        fault_of(r) == cleanup.fault(),
{
    let unread = Span { nanos: 0 };
    if is_blank(cleanup.interval.as_str()) || is_blank(cleanup.retention.as_str()) {
        return judge_cleanup(
            cleanup.interval.as_str(),
            cleanup.retention.as_str(),
            Ok(unread),
            Ok(unread),
        );
    }
    let interval = cleanup.interval();
    let retention = if interval.is_err() {
        Ok(unread)
    } else {
        cleanup.retention()
    };
    judge_cleanup(cleanup.interval.as_str(), cleanup.retention.as_str(), interval, retention)
}

/// The time that lies `retention` before `now_millis`, or the epoch.
pub open spec fn cutoff_at(now_millis: int, retention: Span) -> int {
    let kept = retention.nanos as int / 1_000_000;
    if now_millis >= kept {
        now_millis - kept
    } else {
        0
    }
}

/// Up to when a record has to be finished to be removed at `now_millis`: the low
/// 64 bits of the time that lies `retention` before.
pub fn cleanup_cutoff(now_millis: u128, retention: Span) -> (r: i64)
    ensures
        r == cutoff_at(now_millis as int, retention) as i64,
        now_millis <= i64::MAX ==> r == cutoff_at(now_millis as int, retention),
{
    let kept = retention.as_millis();
    if now_millis >= kept {
        timestamp_of(now_millis - kept)
    } else {
        0
    }
}

/// The units of time and their names: each is so many of the one before it.
pub proof fn units_build_on_each_other()
    ensures
        unit_nanos("ns"@) == 1 && unit_nanos("nsec"@) == 1 && unit_nanos("nanos"@) == 1,
        unit_nanos("us"@) == 1_000 * unit_nanos("ns"@),
        unit_nanos("ms"@) == 1_000 * unit_nanos("us"@),
        unit_nanos("s"@) == 1_000 * unit_nanos("ms"@),
        unit_nanos("m"@) == 60 * unit_nanos("s"@),
        unit_nanos("h"@) == 60 * unit_nanos("m"@),
        unit_nanos("d"@) == 24 * unit_nanos("h"@),
        unit_nanos("w"@) == 7 * unit_nanos("d"@),
        unit_nanos("usec"@) == unit_nanos("us"@),
        unit_nanos("millis"@) == unit_nanos("ms"@) && unit_nanos("msec"@) == unit_nanos("ms"@),
        unit_nanos("seconds"@) == unit_nanos("s"@) && unit_nanos("second"@) == unit_nanos("s"@)
            && unit_nanos("secs"@) == unit_nanos("s"@) && unit_nanos("sec"@) == unit_nanos("s"@),
        unit_nanos("minutes"@) == unit_nanos("m"@) && unit_nanos("minute"@) == unit_nanos("m"@)
            && unit_nanos("mins"@) == unit_nanos("m"@) && unit_nanos("min"@) == unit_nanos("m"@),
        unit_nanos("hours"@) == unit_nanos("h"@) && unit_nanos("hour"@) == unit_nanos("h"@)
            && unit_nanos("hrs"@) == unit_nanos("h"@) && unit_nanos("hr"@) == unit_nanos("h"@),
        unit_nanos("days"@) == unit_nanos("d"@) && unit_nanos("day"@) == unit_nanos("d"@),
        unit_nanos("weeks"@) == unit_nanos("w"@) && unit_nanos("week"@) == unit_nanos("w"@),
{
    reveal_strlit("ns");
    reveal_strlit("nsec");
    reveal_strlit("nanos");
    reveal_strlit("us");
    reveal_strlit("usec");
    reveal_strlit("\u{b5}s");
    reveal_strlit("ms");
    reveal_strlit("msec");
    reveal_strlit("millis");
    reveal_strlit("s");
    reveal_strlit("sec");
    reveal_strlit("secs");
    reveal_strlit("second");
    reveal_strlit("seconds");
    reveal_strlit("m");
    reveal_strlit("min");
    reveal_strlit("mins");
    reveal_strlit("minute");
    reveal_strlit("minutes");
    reveal_strlit("h");
    reveal_strlit("hr");
    reveal_strlit("hrs");
    reveal_strlit("hour");
    reveal_strlit("hours");
    reveal_strlit("d");
    reveal_strlit("day");
    reveal_strlit("days");
    reveal_strlit("w");
    reveal_strlit("week");
    reveal_strlit("weeks");
    assert("ns"@.len() == 2 && "ns"@[0] == 'n' && "ns"@.last() == 's');
    assert("nsec"@.len() == 4 && "nsec"@[0] == 'n' && "nsec"@.last() == 'c');
    assert("nanos"@.len() == 5 && "nanos"@[0] == 'n' && "nanos"@.last() == 's');
    assert("us"@.len() == 2 && "us"@[0] == 'u' && "us"@.last() == 's');
    assert("usec"@.len() == 4 && "usec"@[0] == 'u' && "usec"@.last() == 'c');
    assert("ms"@.len() == 2 && "ms"@[0] == 'm' && "ms"@.last() == 's');
    assert("msec"@.len() == 4 && "msec"@[0] == 'm' && "msec"@.last() == 'c');
    assert("millis"@.len() == 6 && "millis"@[0] == 'm' && "millis"@.last() == 's');
    assert("s"@.len() == 1 && "s"@[0] == 's' && "s"@.last() == 's');
    assert("sec"@.len() == 3 && "sec"@[0] == 's' && "sec"@.last() == 'c');
    assert("secs"@.len() == 4 && "secs"@[0] == 's' && "secs"@.last() == 's');
    assert("second"@.len() == 6 && "second"@[0] == 's' && "second"@.last() == 'd');
    assert("seconds"@.len() == 7 && "seconds"@[0] == 's' && "seconds"@.last() == 's');
    assert("m"@.len() == 1 && "m"@[0] == 'm' && "m"@.last() == 'm');
    assert("min"@.len() == 3 && "min"@[0] == 'm' && "min"@.last() == 'n');
    assert("mins"@.len() == 4 && "mins"@[0] == 'm' && "mins"@.last() == 's');
    assert("minute"@.len() == 6 && "minute"@[0] == 'm' && "minute"@.last() == 'e');
    assert("minutes"@.len() == 7 && "minutes"@[0] == 'm' && "minutes"@.last() == 's');
    assert("h"@.len() == 1 && "h"@[0] == 'h' && "h"@.last() == 'h');
    assert("hr"@.len() == 2 && "hr"@[0] == 'h' && "hr"@.last() == 'r');
    assert("hrs"@.len() == 3 && "hrs"@[0] == 'h' && "hrs"@.last() == 's');
    assert("hour"@.len() == 4 && "hour"@[0] == 'h' && "hour"@.last() == 'r');
    assert("hours"@.len() == 5 && "hours"@[0] == 'h' && "hours"@.last() == 's');
    assert("d"@.len() == 1 && "d"@[0] == 'd' && "d"@.last() == 'd');
    assert("day"@.len() == 3 && "day"@[0] == 'd' && "day"@.last() == 'y');
    assert("days"@.len() == 4 && "days"@[0] == 'd' && "days"@.last() == 's');
    assert("w"@.len() == 1 && "w"@[0] == 'w' && "w"@.last() == 'w');
    assert("week"@.len() == 4 && "week"@[0] == 'w' && "week"@.last() == 'k');
    assert("weeks"@.len() == 5 && "weeks"@[0] == 'w' && "weeks"@.last() == 's');
    assert("\u{b5}s"@.len() == 2 && "\u{b5}s"@[0] == '\u{b5}');
}

/// The time of the day counts the seconds since the last midnight.
pub proof fn days_begin_at_midnight(instant: (i64, u32))
    ensures
        time_of_day_at(instant).secs < 86_400,
        (instant.0 - time_of_day_at(instant).secs) % 86_400 == 0,
        time_of_day_at(instant).nanos == instant.1,
        millis_at(instant) == instant.0 * 1_000 + instant.1 / 1_000_000,
{
    assert(instant.0 as int == 86_400 * (instant.0 as int / 86_400) + instant.0 as int % 86_400);
    assert((86_400 * (instant.0 as int / 86_400)) % 86_400 == 0) by (nonlinear_arith);
}

/// Without a run before, compacting is due from the time of the day on that was
/// set. After a run it is due again once that time has come and the spacing has
/// passed since the run, and not before.
pub proof fn compacting_is_due_in_time_and_spacing(
    last: i64,
    at: TimeOfDay,
    every: Span,
    now: (i64, u32),
)
    requires
        at.secs < 86_400,
        every.nanos / 1_000_000 <= i64::MAX,
        last + every.nanos / 1_000_000 <= i64::MAX,
    ensures
        ({
            let secs = now.0 as int % 86_400;
            let reached = secs > at.secs || secs == at.secs && now.1 >= at.nanos;
            let passed = last + every.nanos / 1_000_000 <= now.0 * 1_000 + now.1 / 1_000_000;
            &&& due(None, Ok(at), Ok(every), now) == Ok::<bool, Seq<char>>(reached)
            &&& due(Some(last), Ok(at), Ok(every), now) == Ok::<bool, Seq<char>>(
                reached && passed,
            )
        }),
{
    assert(0 <= now.0 as int % 86_400 < 86_400);
}

/// What is wrong with the time of the day is told first, then what is wrong
/// with the spacing.
pub proof fn faulty_schedules_are_never_due(
    last_run: Option<i64>,
    at: Result<TimeOfDay, Seq<char>>,
    every: Result<Span, Seq<char>>,
    now: (i64, u32),
)
    ensures
        at is Err ==> due(last_run, at, every, now) == Err::<bool, Seq<char>>(at->Err_0),
        at is Ok && every is Err ==> due(last_run, at, every, now) == Err::<bool, Seq<char>>(
            every->Err_0,
        ),
        at is Ok && every is Ok && last_run is Some && every->Ok_0.nanos / 1_000_000 > i64::MAX
            ==> due(last_run, at, every, now) == Err::<bool, Seq<char>>("vacuum.every too large"@),
{
}

/// Records are kept for the retention: the cutoff lies exactly that far before
/// the present, and not before the epoch.
pub proof fn retention_reaches_back(now_millis: int, retention: Span)
    requires
        now_millis >= 0,
    ensures
        now_millis >= retention.nanos / 1_000_000 ==> cutoff_at(now_millis, retention)
            + retention.nanos / 1_000_000 == now_millis,
        now_millis < retention.nanos / 1_000_000 ==> cutoff_at(now_millis, retention) == 0,
{
}

/// A clean-up is accepted exactly if both of its settings are there and can be
/// read, and say lengths of time that are not zero and can be counted.
pub proof fn accepted_cleanups_can_be_run(
    interval_text: Seq<char>,
    retention_text: Seq<char>,
    interval: Result<Span, Seq<char>>,
    retention: Result<Span, Seq<char>>,
)
    ensures
        cleanup_fault(interval_text, retention_text, interval, retention) is None <==> {
            &&& trimmed(interval_text).len() > 0
            &&& trimmed(retention_text).len() > 0
            &&& interval is Ok
            &&& retention is Ok
            &&& interval->Ok_0.nanos > 0
            &&& retention->Ok_0.nanos > 0
            &&& retention->Ok_0.nanos / 1_000_000 <= i64::MAX
        },
{
}

/// A setting that can be read is the length that was read, and one that cannot
/// be is named in the error together with its value.
pub proof fn settings_are_named_in_errors(
    label: Seq<char>,
    text: Seq<char>,
    nanos: u128,
    why: Seq<char>,
)
    ensures
        setting_of(label, text, Ok(nanos)) == Ok::<Span, Seq<char>>(Span { nanos }),
        setting_of(label, text, Err(why)) == Err::<Span, Seq<char>>(
            "invalid "@ + label + " "@ + quoted_text(text) + ": "@ + why,
        ),
        time_of(Err(why)) == Err::<TimeOfDay, Seq<char>>(why),
{
}

/// A time of the day is in UTC unless it names an offset: a plus sign, or a
/// minus sign past its first character.
pub proof fn times_are_in_utc_by_default(at: Seq<char>)
    ensures
        !at.contains('+') && (forall|k: int| 0 < k < at.len() ==> at[k] != '-') ==> stamped(at)
            == "1970-01-01T"@ + trimmed(at) + ":00+00:00"@,
        at.contains('+') || (exists|k: int| 0 < k < at.len() && at[k] == '-') ==> stamped(at)
            == "1970-01-01T"@ + without_first(trimmed(at), ' ') + ":00"@,
{
    crate::text::lemma_last_position(at, '-');
    let p = last_position(at, '-');
    if p > 0 {
        assert(at[p] == '-');
    }
}

/// Whole units add up: a number of them adds the number times the length of the
/// unit.
pub proof fn whole_units_add_up(total: u128, number: int, unit: u128)
    requires
        number >= 0,
    ensures
        plus(total, number, 1, unit, true) matches Added::Total(sum) ==> sum == total + number
            * unit,
        plus(total, number, 1, unit, false) matches Added::Total(sum) ==> sum == total + number * (
        unit as int / 1_000_000_000) * 1_000_000_000,
{
    assert(number * unit >= 0) by (nonlinear_arith)
        requires
            number >= 0,
    ;
    assert(number * (unit as int / 1_000_000_000) >= 0) by (nonlinear_arith)
        requires
            number >= 0,
            unit as int / 1_000_000_000 >= 0,
    ;
}

} // verus!

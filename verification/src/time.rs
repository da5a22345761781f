//! Local wall-clock time: instants with a fixed UTC offset, calendar days,
//! times of day, and the few conversions that need `chrono`.

use vstd::prelude::*;

verus! {

pub const SECONDS_PER_DAY: i64 = 86400;

/// First calendar day that `chrono::NaiveDate` represents, in days from 1970-01-01.
pub const MIN_EPOCH_DAY: i64 = -96_465_293;

/// Last calendar day that `chrono::NaiveDate` represents, in days from 1970-01-01.
pub const MAX_EPOCH_DAY: i64 = 95_026_236;

/// A calendar day, counted in days from 1970-01-01.
#[derive(Clone, Copy, Debug, PartialEq, Eq, Structural)]
pub struct LocalDate {
    pub days: i32,
}

/// Day of the week.
#[derive(Clone, Copy, Debug, PartialEq, Eq, Structural)]
pub enum Weekday {
    Mon,
    Tue,
    Wed,
    Thu,
    Fri,
    Sat,
    Sun,
}

impl Weekday {
    /// Position in the week, Monday first.
    pub open spec fn index(self) -> int {
        match self {
            Weekday::Mon => 0,
            Weekday::Tue => 1,
            Weekday::Wed => 2,
            Weekday::Thu => 3,
            Weekday::Fri => 4,
            Weekday::Sat => 5,
            Weekday::Sun => 6,
        }
    }
}

impl LocalDate {
    /// The day lies within the range of `chrono::NaiveDate`.
    pub open spec fn in_range(self) -> bool {
        MIN_EPOCH_DAY <= self.days <= MAX_EPOCH_DAY
    }

    /// Day of the week: 1970-01-01 was a Thursday.
    pub open spec fn weekday_index(self) -> int {
        (self.days + 3) % 7
    }

    /// Day of the week.
    pub open spec fn weekday_spec(self) -> Weekday {
        let i = self.weekday_index();
        if i == 0 {
            Weekday::Mon
        } else if i == 1 {
            Weekday::Tue
        } else if i == 2 {
            Weekday::Wed
        } else if i == 3 {
            Weekday::Thu
        } else if i == 4 {
            Weekday::Fri
        } else if i == 5 {
            Weekday::Sat
        } else {
            Weekday::Sun
        }
    }

    pub fn weekday(self) -> (w: Weekday)
        ensures
            w == self.weekday_spec(),
            w.index() == self.weekday_index(),
    {
        let r = (self.days as i64 + 3).checked_rem_euclid(7).unwrap();
        if r == 0 {
            Weekday::Mon
        } else if r == 1 {
            Weekday::Tue
        } else if r == 2 {
            Weekday::Wed
        } else if r == 3 {
            Weekday::Thu
        } else if r == 4 {
            Weekday::Fri
        } else if r == 5 {
            Weekday::Sat
        } else {
            Weekday::Sun
        }
    }

    /// The next day, or `None` past the last day `chrono` represents
    /// (`NaiveDate::succ_opt`).
    pub fn succ(self) -> (r: Option<LocalDate>)
        ensures
            self.days < MAX_EPOCH_DAY ==> r == Some(LocalDate { days: (self.days + 1) as i32 }),
            self.days >= MAX_EPOCH_DAY ==> r is None,
    {
        if (self.days as i64) < MAX_EPOCH_DAY {
            Some(LocalDate { days: self.days + 1 })
        } else {
            None
        }
    }
}

/// A wall-clock time of day, to the second.
#[derive(Clone, Copy, Debug, PartialEq, Eq, Structural)]
pub struct TimeOfDay {
    pub hour: u32,
    pub minute: u32,
    pub second: u32,
}

impl TimeOfDay {
    pub open spec fn wf(self) -> bool {
        self.hour < 24 && self.minute < 60 && self.second < 60
    }

    /// Seconds since midnight.
    pub open spec fn seconds(self) -> int {
        self.hour * 3600 + self.minute * 60 + self.second
    }

    /// A valid time of day, or `None` (`NaiveTime::from_hms_opt`).
    pub fn from_hms(hour: u32, minute: u32, second: u32) -> (r: Option<TimeOfDay>)
        ensures
            r is Some <==> (hour < 24 && minute < 60 && second < 60),
            r matches Some(t) ==> t.wf() && t.hour == hour && t.minute == minute && t.second
                == second,
    {
        if hour < 24 && minute < 60 && second < 60 {
            Some(TimeOfDay { hour, minute, second })
        } else {
            None
        }
    }
}

/// An instant, in seconds since 1970-01-01T00:00:00Z, seen at a fixed UTC
/// offset in seconds east.
#[derive(Clone, Copy, Debug, PartialEq, Eq, Structural)]
pub struct Timestamp {
    pub secs: i64,
    pub offset: i32,
}

/// Calendar day of a count of seconds from 1970-01-01T00:00:00.
pub open spec fn day_of(secs: int) -> int {
    secs / (SECONDS_PER_DAY as int)
}

impl Timestamp {
    /// Seconds from 1970-01-01T00:00:00 on the local wall clock.
    pub open spec fn local_secs(self) -> int {
        self.secs + self.offset
    }

    /// Local calendar day.
    pub open spec fn local_day(self) -> int {
        day_of(self.local_secs())
    }

    /// Local hour of the day.
    pub open spec fn local_hour(self) -> int {
        (self.local_secs() % (SECONDS_PER_DAY as int)) / 3600
    }

    /// The offset is less than a day, and both the UTC and the local day lie
    /// within the range of `chrono::NaiveDate`.
    pub open spec fn wf(self) -> bool {
        &&& -86400 < self.offset < 86400
        &&& MIN_EPOCH_DAY <= day_of(self.secs as int) <= MAX_EPOCH_DAY
        &&& MIN_EPOCH_DAY <= self.local_day() <= MAX_EPOCH_DAY
    }

    /// Local hour (`Timelike::hour`).
    pub fn hour(&self) -> (h: u32)
        ensures
            h == self.local_hour(),
            h < 24,
    {
        let local = self.secs as i128 + self.offset as i128;
        let in_day = local.checked_rem_euclid(86400).unwrap();
        (in_day / 3600) as u32
    }

    /// Local calendar day (`DateTime::date_naive`).
    pub fn date_naive(&self) -> (d: LocalDate)
        requires
            self.wf(),
        ensures
            d.days == self.local_day(),
            d.in_range(),
    {
        let local = self.secs as i128 + self.offset as i128;
        let day = local.checked_div_euclid(86400).unwrap();
        LocalDate { days: day as i32 }
    }

    /// The instant `seconds` later, at the same offset.
    pub fn plus_seconds(&self, seconds: i64) -> (r: Timestamp)
        requires
            i64::MIN <= self.secs + seconds <= i64::MAX,
        ensures
            r.secs == self.secs + seconds,
            r.offset == self.offset,
    {
        Timestamp { secs: self.secs + seconds, offset: self.offset }
    }
}

/// Text of a calendar day as `chrono::NaiveDate` displays it (`2026-04-19`).
pub uninterp spec fn date_text(epoch_days: int) -> Seq<char>;

/// Text of an instant at a fixed offset as `chrono::DateTime<FixedOffset>`
/// displays it (`2026-04-19 09:35:00 -04:00`).
pub uninterp spec fn datetime_text(secs: int, offset: int) -> Seq<char>;

/// What `chrono::NaiveTime::parse_from_str` yields for an input and a
/// format: hour, minute and second, or `None` when the input does not match.
pub uninterp spec fn parsed_time(input: Seq<char>, format: Seq<char>) -> Option<(u32, u32, u32)>;

/// Formats a day with `chrono::NaiveDate`'s `Display`, which is a function of
/// the day alone; the text is named by `date_text`. The day is built with
/// `NaiveDate::from_epoch_days`, which succeeds on the whole range required.
#[verifier::external_body]
pub(crate) fn format_date(date: LocalDate) -> (r: String)
    requires
        date.in_range(),
    ensures
        r@ == date_text(date.days as int),
{
    chrono::NaiveDate::from_epoch_days(date.days).unwrap().to_string()
}

/// Formats an instant with `chrono::DateTime<FixedOffset>`'s `Display`, a
/// function of the instant and the offset; the text is named by
/// `datetime_text`. `DateTime::from_timestamp` and `FixedOffset::east_opt`
/// succeed on every well-formed timestamp.
#[verifier::external_body]
pub(crate) fn format_datetime(at: Timestamp) -> (r: String)
    requires
        at.wf(),
    ensures
        r@ == datetime_text(at.secs as int, at.offset as int),
{
    let offset = chrono::FixedOffset::east_opt(at.offset).unwrap();
    chrono::DateTime::from_timestamp(at.secs, 0).unwrap().with_timezone(&offset).to_string()
}

/// Calls `chrono::NaiveTime::parse_from_str`; the outcome is named by
/// `parsed_time`. chrono's `NaiveTime` keeps a leap second in its fraction,
/// so the second it reports is below 60, and its hour and minute are always
/// valid.
#[verifier::external_body]
pub(crate) fn parse_time(input: &str, format: &str) -> (r: Option<TimeOfDay>)
    ensures
        r is Some <==> parsed_time(input@, format@) is Some,
        r matches Some(t) ==> t.wf() && parsed_time(input@, format@) == Some(
            (t.hour, t.minute, t.second),
        ),
{
    match chrono::NaiveTime::parse_from_str(input, format) {
        Ok(t) => Some(TimeOfDay {
            hour: chrono::Timelike::hour(&t),
            minute: chrono::Timelike::minute(&t),
            second: chrono::Timelike::second(&t),
        }),
        Err(_) => None,
    }
}

/// Resolves a local wall-clock time on a day in the machine's time zone with
/// `chrono::Local` (`TimeZone::from_local_datetime`), taking the earlier
/// instant when the time occurs twice. The answer depends on the time zone
/// database, so only what holds in every zone is stated: the instant, seen
/// at its offset, shows that wall-clock time, and the offset is less than a
/// day. `None` when the day is outside chrono's range, when the time is not
/// valid, or when the time does not occur that day in the zone.
#[verifier::external_body]
pub(crate) fn local_datetime_at_time(date: LocalDate, time: TimeOfDay) -> (r: Option<Timestamp>)
    ensures
        r matches Some(ts) ==> ts.local_secs() == date.days * SECONDS_PER_DAY + time.seconds()
            && -86400 < ts.offset < 86400,
{
    let day = chrono::NaiveDate::from_epoch_days(date.days)?;
    let naive = day.and_hms_opt(time.hour, time.minute, time.second)?;
    let dt = chrono::TimeZone::from_local_datetime(&chrono::Local, &naive).earliest()?;
    Some(Timestamp { secs: dt.timestamp(), offset: chrono::Offset::fix(dt.offset()).local_minus_utc() })
}

} // verus!

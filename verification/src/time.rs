//! Points in time, and their texts.
//!
//! A civil date and time is what a calendar and a clock on the wall show. Together with an offset
//! from UTC it stands for a point in time.

use std::str::FromStr;

use jiff::civil::date;
use jiff::fmt::temporal::{DateTimePrinter, Pieces, PiecesOffset, TimeZoneAnnotationKind};
use jiff::tz::{Offset, TimeZone};

use vstd::prelude::*;

verus! {

/// Why a time was refused.
#[verifier::external_type_specification]
#[verifier::external_body]
pub struct ExJiffError(jiff::Error);

/// A point in time, as nanoseconds since the start of 1970 in UTC.
#[derive(Debug, Clone, Copy, PartialEq, Eq, Structural)]
pub struct Timestamp {
    /// The nanoseconds, negative before 1970.
    pub nanosecond: i128,
}

/// The least and the greatest whole second that a timestamp can have.
pub const MIN_SECOND: i64 = -377_705_023_201;

pub const MAX_SECOND: i64 = 253_402_207_200;

/// Seconds and nanoseconds, which may differ in sign, make up a timestamp.
pub open spec fn is_timestamp(second: int, nanosecond: int) -> bool {
    &&& MIN_SECOND <= second <= MAX_SECOND
    &&& -999_999_999 <= nanosecond <= 999_999_999
    &&& !(second == MIN_SECOND && nanosecond < 0)
}

/// The point in time that seconds and nanoseconds make up, if it is one.
pub open spec fn timestamp_model(second: int, nanosecond: int) -> Option<Timestamp> {
    if is_timestamp(second, nanosecond) {
        Some(Timestamp { nanosecond: (second * 1_000_000_000 + nanosecond) as i128 })
    } else {
        None
    }
}

/// `jiff::Timestamp::new`: takes seconds and nanoseconds, each in its range, and refuses what lies
/// before the least timestamp.
#[verifier::external_body]
fn new_timestamp(second: i64, nanosecond: i32) -> (r: Result<i128, jiff::Error>)
    ensures
        r is Ok <==> is_timestamp(second as int, nanosecond as int),
        r matches Ok(n) ==> n == second * 1_000_000_000 + nanosecond,
{
    jiff::Timestamp::new(second, nanosecond).map(|t| t.as_nanosecond())
}

impl Timestamp {
    /// The point in time that seconds and nanoseconds make up, if it is one.
    pub fn new(second: i64, nanosecond: i32) -> (r: Option<Timestamp>)
        ensures
            r == timestamp_model(second as int, nanosecond as int),
    {
        match new_timestamp(second, nanosecond) {
            Ok(n) => Some(Timestamp { nanosecond: n }),
            Err(_) => None,
        }
    }
}

impl Timestamp {
    /// The point lies in the range of timestamps.
    pub open spec fn in_range(self) -> bool {
        MIN_SECOND * 1_000_000_000 <= self.nanosecond <= MAX_SECOND * 1_000_000_000 + 999_999_999
    }
}

/// Seconds and nanoseconds make up the point in time that lies so many nanoseconds behind the start
/// of 1970, wherever that is not before the second -377705023201 or behind the second 253402207200.
pub proof fn law_seconds_and_nanoseconds_add_up(second: int, nanosecond: int)
    requires
        -999_999_999 <= nanosecond <= 999_999_999,
    ensures
        timestamp_model(second, nanosecond) is Some <==> second <= 253_402_207_200 && second
            >= -377_705_023_201 && second * 1_000_000_000 + nanosecond
            >= -377_705_023_201_000_000_000,
        timestamp_model(second, nanosecond) matches Some(t) ==> t.nanosecond == second
            * 1_000_000_000 + nanosecond,
{
}

/// The greatest distance from UTC, in seconds.
pub const MAX_OFFSET: i32 = 93_599;

/// A number of seconds can be an offset from UTC.
pub open spec fn is_utc_offset(seconds: int) -> bool {
    -MAX_OFFSET <= seconds <= MAX_OFFSET
}

/// A date of the Gregorian calendar.
#[derive(Debug, Clone, Copy, PartialEq, Eq, Structural)]
pub struct CivilDate {
    /// The year.
    pub year: i16,
    /// The month, from 1 on.
    pub month: i8,
    /// The day of the month, from 1 on.
    pub day: i8,
}

/// The year has a 29th of February.
pub open spec fn is_leap_year(year: int) -> bool {
    year % 4 == 0 && (year % 100 != 0 || year % 400 == 0)
}

/// The number of days of a month.
pub open spec fn days_in_month(year: int, month: int) -> int {
    if month == 2 {
        if is_leap_year(year) {
            29
        } else {
            28
        }
    } else if month == 4 || month == 6 || month == 9 || month == 11 {
        30
    } else {
        31
    }
}

impl CivilDate {
    /// The calendar has the day, and it lies in one of the years from -9999 to 9999.
    pub open spec fn valid(self) -> bool {
        &&& -9999 <= self.year <= 9999
        &&& 1 <= self.month <= 12
        &&& 1 <= self.day <= days_in_month(self.year as int, self.month as int)
    }

    /// The number of days since the start of 1970. Years are counted from March, so that a leap
    /// day ends one.
    pub open spec fn epoch_day(self) -> int {
        let (year, month) = if self.month <= 2 {
            (self.year - 1, self.month + 9)
        } else {
            (self.year + 0, self.month - 3)
        };
        365 * year + year / 4 - year / 100 + year / 400 + (153 * month + 2) / 5 + self.day
            - 719_469
    }
}

/// A time of day.
#[derive(Debug, Clone, Copy, PartialEq, Eq, Structural)]
pub struct CivilTime {
    /// The hour.
    pub hour: i8,
    /// The minute.
    pub minute: i8,
    /// The second.
    pub second: i8,
    /// The fraction of the second, in nanoseconds.
    pub nanosecond: i32,
}

impl CivilTime {
    /// The start of the day.
    pub open spec fn midnight() -> CivilTime {
        CivilTime { hour: 0, minute: 0, second: 0, nanosecond: 0 }
    }

    /// A clock shows the time.
    pub open spec fn valid(self) -> bool {
        &&& 0 <= self.hour < 24
        &&& 0 <= self.minute < 60
        &&& 0 <= self.second < 60
        &&& 0 <= self.nanosecond < 1_000_000_000
    }

    /// The whole seconds since the start of the day.
    pub open spec fn second_of_day(self) -> int {
        self.hour * 3600 + self.minute * 60 + self.second
    }

    /// The start of the day.
    pub fn min() -> (r: CivilTime)
        ensures
            r == CivilTime::midnight(),
            r.valid(),
    {
        CivilTime { hour: 0, minute: 0, second: 0, nanosecond: 0 }
    }
}

/// The whole seconds since the start of 1970 at which it is `date` and `time`, `offset` seconds
/// ahead of UTC.
pub open spec fn instant_second(date: CivilDate, time: CivilTime, offset: int) -> int {
    date.epoch_day() * 86400 + time.second_of_day() - offset
}

/// The nanoseconds since the start of 1970 at which it is `date` and `time`, `offset` seconds
/// ahead of UTC.
pub open spec fn instant(date: CivilDate, time: CivilTime, offset: int) -> int {
    instant_second(date, time, offset) * 1_000_000_000 + time.nanosecond
}

/// The number of days of a month: 30 in April, June, September and November, 28 in February or 29 in
/// years that 4 divides, unless 100 does and 400 does not, and 31 in the others.
pub proof fn law_months_have_their_days(year: int, month: int)
    requires
        1 <= month <= 12,
    ensures
        days_in_month(year, month) == 31 <==> month == 1 || month == 3 || month == 5 || month == 7
            || month == 8 || month == 10 || month == 12,
        days_in_month(year, month) == 30 <==> month == 4 || month == 6 || month == 9 || month == 11,
        month == 2 && year % 400 == 0 ==> days_in_month(year, month) == 29,
        month == 2 && year % 100 == 0 && year % 400 != 0 ==> days_in_month(year, month) == 28,
        month == 2 && year % 4 == 0 && year % 100 != 0 ==> days_in_month(year, month) == 29,
        month == 2 && year % 4 != 0 ==> days_in_month(year, month) == 28,
{
}

/// `next` is the day behind `date`: in the same month, or the first of the next month, or the first of
/// the next year.
pub open spec fn is_next_day(date: CivilDate, next: CivilDate) -> bool {
    ||| next.year == date.year && next.month == date.month && next.day == date.day + 1
    ||| next.year == date.year && next.month == date.month + 1 && next.day == 1 && date.day
        == days_in_month(date.year as int, date.month as int)
    ||| next.year == date.year + 1 && next.month == 1 && next.day == 1 && date.month == 12
        && date.day == 31
}

/// Days are counted one by one from the first of January 1970: the day behind each day of the
/// calendar, be it in the same month, the next month or the next year, counts one more.
pub proof fn law_days_follow_each_other(date: CivilDate, next: CivilDate)
    requires
        date.valid(),
        next.valid(),
        is_next_day(date, next),
    ensures
        next.epoch_day() == date.epoch_day() + 1,
        (CivilDate { year: 1970, month: 1, day: 1 }).epoch_day() == 0,
{
}

/// Of two times of one day the later one is later by as many hours, minutes, seconds and nanoseconds
/// as the clock shows more, less by how much its offset is greater. A day has 86400 seconds.
pub proof fn law_clock_and_offset_move_the_instant(
    date: CivilDate,
    other: CivilDate,
    t: CivilTime,
    u: CivilTime,
    offset: int,
    less: int,
)
    ensures
        instant(date, t, offset) - instant(date, u, less) == ((t.hour - u.hour) * 3600 + (t.minute
            - u.minute) * 60 + (t.second - u.second) - (offset - less)) * 1_000_000_000 + (
        t.nanosecond - u.nanosecond),
        instant(other, t, offset) - instant(date, t, offset) == (other.epoch_day()
            - date.epoch_day()) * 86_400_000_000_000,
        instant(
            (CivilDate { year: 1970, month: 1, day: 1 }),
            (CivilTime { hour: 0, minute: 0, second: 0, nanosecond: 0 }),
            0,
        ) == 0,
{
}

proof fn lemma_calendar_repeats(year: int)
    ensures
        (year + 10_000) / 4 == year / 4 + 2_500,
        (year + 10_000) / 100 == year / 100 + 100,
        (year + 10_000) / 400 == year / 400 + 25,
{
}

/// Computes [`instant_second`].
pub fn civil_second(date: CivilDate, time: CivilTime, offset: i32) -> (r: i64)
    requires
        date.valid(),
        time.valid(),
        is_utc_offset(offset as int),
    ensures
        r == instant_second(date, time, offset as int),
{
    // Ten thousand years on, all years are positive, and the calendar repeats.
    let (year, month): (i64, i64) = if date.month <= 2 {
        (date.year as i64 - 1 + 10_000, date.month as i64 + 9)
    } else {
        (date.year as i64 + 10_000, date.month as i64 - 3)
    };
    let day: i64 = 365 * year + year / 4 - year / 100 + year / 400 + (153 * month + 2) / 5
        + date.day as i64 - 719_469 - 3_652_425;
    proof {
        lemma_calendar_repeats(year - 10_000);
    }
    day * 86400 + time.hour as i64 * 3600 + time.minute as i64 * 60 + time.second as i64
        - offset as i64
}

/// The point in time is one, to the whole second.
pub open spec fn instant_in_range(date: CivilDate, time: CivilTime, offset: int) -> bool {
    MIN_SECOND <= instant_second(date, time, offset) <= MAX_SECOND
}

/// The point in time is one whatever the offset from UTC.
pub open spec fn surely_in_range(date: CivilDate, time: CivilTime) -> bool {
    instant_in_range(date, time, MAX_OFFSET as int) && instant_in_range(date, time, -MAX_OFFSET)
}

/// The point in time is less than a second before the least timestamp.
pub open spec fn just_too_early(date: CivilDate, time: CivilTime, offset: int) -> bool {
    instant_second(date, time, offset) == MIN_SECOND - 1 && time.nanosecond != 0
}

/// It is so early, and not a whole second, that in some zone the point in time is less than a second
/// before the least timestamp.
pub open spec fn maybe_too_early(date: CivilDate, time: CivilTime) -> bool {
    instant_second(date, time, MAX_OFFSET as int) < MIN_SECOND && time.nanosecond != 0
}

/// A point in time in a time zone.
#[derive(Debug)]
pub struct ZonedTime {
    /// The point in time.
    pub timestamp: Timestamp,
    /// How many seconds the zone is ahead of UTC then.
    pub offset: i32,
    /// The name of the zone, unless it is just a fixed offset.
    pub zone_name: Option<String>,
}

impl ZonedTime {
    /// The point in time is one, and the offset is one.
    pub open spec fn valid(&self) -> bool {
        self.timestamp.in_range() && is_utc_offset(self.offset as int)
    }

    /// The zone is just the offset `offset` from UTC. Without any offset it is called UTC.
    pub open spec fn is_fixed(&self, offset: i32) -> bool {
        &&& self.offset == offset
        &&& self.zone_name is Some <==> offset == 0
        &&& self.zone_name matches Some(name) ==> name@ == "UTC"@
    }

    /// The zone goes by the name `name`, up to the case of letters. The unknown zone goes by none.
    pub open spec fn is_named(&self, name: Seq<char>) -> bool {
        match self.zone_name {
            Some(own) => lower_case(own@) == lower_case(name),
            None => lower_case(name) == "etc/unknown"@,
        }
    }

    /// It is a point in time at which it can be `date` and `time` in the zone that goes by the name
    /// `name`. The zone UTC, and the unknown one, is at no offset.
    pub open spec fn shows_in(&self, name: Seq<char>, date: CivilDate, time: CivilTime) -> bool {
        &&& self.is_named(name)
        &&& self.shows(date, time)
        &&& lower_case(name) == "utc"@ ==> self.is_fixed(0) && self.timestamp.nanosecond == instant(
            date,
            time,
            0,
        )
        &&& lower_case(name) == "etc/unknown"@ ==> self.offset == 0 && self.timestamp.nanosecond
            == instant(date, time, 0)
    }

    /// It is the point in time at which it is `date` and `time` at some offset from UTC.
    pub open spec fn shows(&self, date: CivilDate, time: CivilTime) -> bool {
        exists|offset: int|
            is_utc_offset(offset) && self.timestamp.nanosecond == #[trigger] instant(
                date,
                time,
                offset,
            )
    }
}

/// A text with small letters in place of the capital letters of ASCII.
pub open spec fn lower_case(text: Seq<char>) -> Seq<char> {
    text.map_values(
        |c: char|
            if 'A' <= c <= 'Z' {
                ((c as u32) + 32) as char
            } else {
                c
            },
    )
}

/// What the text of a date and time says.
#[derive(Debug)]
pub struct DateTimePieces {
    /// The date.
    pub date: CivilDate,
    /// The time of day, if there is one.
    pub time: Option<CivilTime>,
    /// The offset from UTC, if there is one.
    pub offset: Option<i32>,
    /// The offset is written as `Z`, which leaves the offset of the place open.
    pub zulu: bool,
    /// The time zone in brackets, if there is one.
    pub annotation: Option<Annotation>,
}

/// A time zone in brackets.
#[derive(Debug)]
pub enum Annotation {
    /// The name of a zone.
    Named(String),
    /// An offset from UTC in place of a name.
    Offset(i32),
}

/// A time zone in brackets.
pub enum AnnotationModel {
    Named(Seq<char>),
    Offset(i32),
}

impl View for Annotation {
    type V = AnnotationModel;

    open spec fn view(&self) -> AnnotationModel {
        match *self {
            Annotation::Named(name) => AnnotationModel::Named(name@),
            Annotation::Offset(offset) => AnnotationModel::Offset(offset),
        }
    }
}

/// What the text of a date and time says.
pub struct PiecesModel {
    pub date: CivilDate,
    pub time: Option<CivilTime>,
    pub offset: Option<i32>,
    pub zulu: bool,
    pub annotation: Option<AnnotationModel>,
}

impl View for DateTimePieces {
    type V = PiecesModel;

    open spec fn view(&self) -> PiecesModel {
        PiecesModel {
            date: self.date,
            time: self.time,
            offset: self.offset,
            zulu: self.zulu,
            annotation: match self.annotation {
                Some(zone) => Some(zone@),
                None => None,
            },
        }
    }
}

impl PiecesModel {
    /// The text has a time zone in brackets.
    pub open spec fn annotated(self) -> bool {
        self.annotation is Some
    }

    /// Date, time and offsets are what they stand for.
    pub open spec fn valid(self) -> bool {
        &&& self.date.valid()
        &&& self.time matches Some(time) ==> time.valid()
        &&& self.offset matches Some(offset) ==> is_utc_offset(offset as int)
        &&& self.zulu ==> self.offset == Some(0i32)
        &&& self.annotation matches Some(AnnotationModel::Offset(offset)) ==> is_utc_offset(
            offset as int,
        )
    }

    /// The time of day, or midnight.
    pub open spec fn time_or_midnight(self) -> CivilTime {
        match self.time {
            Some(time) => time,
            None => CivilTime::midnight(),
        }
    }

    /// The offset from UTC at which a text with the offset `bracketed` in brackets is read as a
    /// whole, unless the two offsets contradict each other. Only a `Z` has a say in the point in
    /// time beside an offset in brackets.
    pub open spec fn whole_offset(self, bracketed: i32) -> Option<i32> {
        if self.zulu {
            Some(0)
        } else if self.offset is None || self.offset == Some(bracketed) {
            Some(bracketed)
        } else {
            None
        }
    }

    /// A text with the offset `bracketed` in brackets can be read as a whole.
    pub open spec fn is_whole(self, bracketed: i32) -> bool {
        self.whole_offset(bracketed) matches Some(offset) && instant_in_range(
            self.date,
            self.time_or_midnight(),
            offset as int,
        )
    }

    /// The text has the name of a zone in brackets, and the point in time that it says as a whole is
    /// one whatever the rules of the zone. Reading it as a whole fails only where there is no such
    /// zone, and then there is no other way to read it.
    pub open spec fn is_whole_or_nothing(self) -> bool {
        &&& self.annotation matches Some(AnnotationModel::Named(_))
        &&& if self.zulu {
            instant_in_range(self.date, self.time_or_midnight(), 0)
        } else {
            self.offset is None && surely_in_range(self.date, self.time_or_midnight())
        }
    }

    /// The point in time that a text with a time zone in brackets says as a whole may be less than
    /// a second before the least timestamp.
    pub open spec fn is_on_the_edge(self) -> bool {
        let time = self.time_or_midnight();
        match self.annotation {
            Some(AnnotationModel::Offset(bracketed)) => self.whole_offset(bracketed) matches Some(
                offset,
            ) && just_too_early(self.date, time, offset as int),
            Some(AnnotationModel::Named(_)) => if self.zulu {
                just_too_early(self.date, time, 0)
            } else {
                maybe_too_early(self.date, time)
            },
            None => false,
        }
    }
}

/// What reading a text as a whole gives, which takes a time zone in brackets. For a fixed offset
/// there the text alone decides. For a name the rules of that zone decide, and whether there is such
/// a zone.
pub open spec fn is_whole_time(full: Option<ZonedTime>, pieces: PiecesModel) -> bool {
    let (date, time) = (pieces.date, pieces.time_or_midnight());
    match pieces.annotation {
        None => full is None,
        Some(AnnotationModel::Offset(bracketed)) => {
            &&& full is Some <==> pieces.is_whole(bracketed)
            &&& full matches Some(z) ==> {
                &&& z.timestamp.nanosecond == instant(
                    date,
                    time,
                    pieces.whole_offset(bracketed)->0 as int,
                )
                &&& z.is_fixed(bracketed)
                &&& z.valid()
            }
        },
        Some(AnnotationModel::Named(name)) => full matches Some(z) ==> {
            &&& z.shows_in(name, date, time)
            &&& pieces.zulu ==> z.timestamp.nanosecond == instant(date, time, 0)
            &&& z.valid()
        },
    }
}

/// What the text of a date and time says, if it is one.
pub uninterp spec fn datetime_pieces(text: Seq<char>) -> Option<PiecesModel>;

/// The text of a point in time, given in nanoseconds, at an offset from UTC, given in seconds.
pub uninterp spec fn offset_text(nanosecond: int, offset: int) -> Seq<char>;

/// The text that a point in time, given in nanoseconds, is shown as at an offset from UTC, given
/// in seconds.
pub uninterp spec fn display_text(nanosecond: int, offset: int) -> Seq<char>;

/// The text says `nanosecond` at `offset`, and names no time zone.
pub open spec fn says(text: Seq<char>, nanosecond: int, offset: int) -> bool {
    datetime_pieces(text) matches Some(p) && p.valid() && !p.annotated() && (p.time matches Some(
        time,
    ) && instant(p.date, time, offset) == nanosecond) && p.offset == Some(offset as i32)
}

/// Year, month and day; hour, minute, second and nanosecond; the offset, and whether it is written
/// as `Z`; and the time zone in brackets.
pub type PieceValues = (
    (i16, i8, i8),
    Option<(i8, i8, i8, i32)>,
    Option<(i32, bool)>,
    Option<Annotation>,
);

/// What plain values say of a date and time.
pub open spec fn values_model(p: PieceValues) -> PiecesModel {
    PiecesModel {
        date: CivilDate { year: p.0.0, month: p.0.1, day: p.0.2 },
        time: match p.1 {
            Some(t) => Some(
                CivilTime { hour: t.0, minute: t.1, second: t.2, nanosecond: t.3 },
            ),
            None => None,
        },
        offset: match p.2 {
            Some(o) => Some(o.0),
            None => None,
        },
        zulu: p.2 matches Some(o) && o.1,
        annotation: match p.3 {
            Some(zone) => Some(zone@),
            None => None,
        },
    }
}

/// `jiff::fmt::temporal::Pieces::parse`, with its parts as plain values. What it gives depends on
/// the text alone. Dates, times and offsets are in their ranges, and `Z` is an offset of 0.
#[verifier::external_body]
fn piece_values(text: &str) -> (r: Result<PieceValues, jiff::Error>)
    ensures
        r is Ok <==> datetime_pieces(text@) is Some,
        r matches Ok(p) ==> datetime_pieces(text@) == Some(values_model(p)) && values_model(
            p,
        ).valid(),
{
    let p = Pieces::parse(text)?;
    let d = p.date();
    Ok((
        (d.year(), d.month(), d.day()),
        p.time().map(|t| (t.hour(), t.minute(), t.second(), t.subsec_nanosecond())),
        p.offset().map(|o| (o.to_numeric_offset().seconds(), matches!(o, PiecesOffset::Zulu))),
        p.time_zone_annotation().and_then(|a| match a.kind() {
            TimeZoneAnnotationKind::Named(n) => Some(Annotation::Named(n.as_str().to_string())),
            TimeZoneAnnotationKind::Offset(o) => Some(Annotation::Offset(o.seconds())),
            _ => None,
        }),
    ))
}

/// What the text of a date and time says, if it is one.
pub(crate) fn parse_pieces(text: &str) -> (r: Result<DateTimePieces, jiff::Error>)
    ensures
        r is Ok <==> datetime_pieces(text@) is Some,
        r matches Ok(p) ==> datetime_pieces(text@) == Some(p@) && p@.valid(),
{
    let (date, time, offset, annotation): PieceValues = match piece_values(text) {
        Ok(values) => values,
        Err(e) => {
            return Err(e);
        },
    };
    let (year, month, day): (i16, i8, i8) = date;
    Ok(
        DateTimePieces {
            date: CivilDate { year, month, day },
            time: match time {
                Some((hour, minute, second, nanosecond)) => Some(
                    CivilTime { hour, minute, second, nanosecond },
                ),
                None => None,
            },
            offset: match offset {
                Some((seconds, _)) => Some(seconds),
                None => None,
            },
            zulu: match offset {
                Some((_, zulu)) => zulu,
                None => false,
            },
            annotation,
        },
    )
}

/// `jiff::Zoned::from_str`, with the parts of the result as plain values. It takes only texts with
/// a time zone in brackets, and a text without a time of day means midnight. A fixed offset in
/// brackets decides the offset, and the point in time too unless the text says `Z`; another offset
/// beside it is refused, and so is what is out of range. A name is looked up without regard to
/// case in the time zone database of the machine; UTC, where it is found, is always at no offset.
/// Which offset another zone has, and whether a zone is found, is left unsaid.
#[verifier::external_body]
pub(crate) fn zoned_from_str(text: &str) -> (r: Result<ZonedTime, jiff::Error>)
    requires
        datetime_pieces(text@) matches Some(p) ==> !p.is_on_the_edge(),
    ensures
        match datetime_pieces(text@) {
            Some(p) => is_whole_time(
                match r {
                    Ok(z) => Some(z),
                    Err(_) => None,
                },
                p,
            ),
            None => r is Err,
        },
{
    let z = jiff::Zoned::from_str(text)?;
    Ok(ZonedTime {
        timestamp: Timestamp { nanosecond: z.timestamp().as_nanosecond() },
        offset: z.offset().seconds(),
        zone_name: z.time_zone().iana_name().map(|n| n.to_string()),
    })
}

/// `jiff::civil::DateTime::to_zoned` with `TimeZone::fixed`: the point in time at which it is
/// `date` and `time`, `offset` seconds ahead of UTC. It is refused exactly if it is out of range.
#[verifier::external_body]
pub(crate) fn civil_at_offset(d: CivilDate, time: CivilTime, offset: i32) -> (r: Result<
    i128,
    jiff::Error,
>)
    requires
        d.valid(),
        time.valid(),
        is_utc_offset(offset as int),
        !just_too_early(d, time, offset as int),
    ensures
        r is Ok <==> instant_in_range(d, time, offset as int),
        r matches Ok(n) ==> n == instant(d, time, offset as int),
{
    let dt = date(d.year, d.month, d.day).at(time.hour, time.minute, time.second, time.nanosecond);
    let zone = TimeZone::fixed(Offset::from_seconds(offset)?);
    Ok(dt.to_zoned(zone)?.timestamp().as_nanosecond())
}

/// `jiff::civil::DateTime::in_tz`, with the parts of the result as plain values. The name is looked
/// up without regard to case in the time zone database of the machine; UTC, where it is found, is
/// always at no offset. The point in time is the one at which it is `d` and `time` at an offset that
/// the zone has around then. Which offset another zone has, and whether a zone is found, is left
/// unsaid: on a machine without any time zone database not even UTC is.
#[verifier::external_body]
pub(crate) fn civil_in_zone(d: CivilDate, time: CivilTime, name: &str) -> (r: Result<
    ZonedTime,
    jiff::Error,
>)
    requires
        d.valid(),
        time.valid(),
        !maybe_too_early(d, time),
    ensures
        r matches Ok(z) ==> z.valid() && z.shows_in(name@, d, time),
{
    let dt = date(d.year, d.month, d.day).at(time.hour, time.minute, time.second, time.nanosecond);
    let z = dt.in_tz(name)?;
    Ok(ZonedTime {
        timestamp: Timestamp { nanosecond: z.timestamp().as_nanosecond() },
        offset: z.offset().seconds(),
        zone_name: z.time_zone().iana_name().map(|n| n.to_string()),
    })
}

/// `jiff::civil::DateTime::to_zoned` with `TimeZone::system`, with the parts of the result as plain
/// values. There is always such a zone, and a time is refused only where it is out of range at the
/// offset that the zone has around then. Which offset that is, is left unsaid.
#[verifier::external_body]
pub(crate) fn civil_in_system_zone(d: CivilDate, time: CivilTime) -> (r: Result<
    ZonedTime,
    jiff::Error,
>)
    requires
        d.valid(),
        time.valid(),
        !maybe_too_early(d, time),
    ensures
        surely_in_range(d, time) ==> r is Ok,
        r matches Ok(z) ==> z.valid() && z.shows(d, time),
{
    let dt = date(d.year, d.month, d.day).at(time.hour, time.minute, time.second, time.nanosecond);
    let z = dt.to_zoned(TimeZone::system())?;
    Ok(ZonedTime {
        timestamp: Timestamp { nanosecond: z.timestamp().as_nanosecond() },
        offset: z.offset().seconds(),
        zone_name: z.time_zone().iana_name().map(|n| n.to_string()),
    })
}

/// The zone of the machine, asked when it is `d` and `time` there, can give `given`.
pub closed spec fn machine_gives(
    d: CivilDate,
    time: CivilTime,
    given: Result<ZonedTime, jiff::Error>,
) -> bool {
    call_ensures(civil_in_system_zone, (d, time), given)
}

/// The zone of that name, asked when it is `d` and `time` there, can give `given`.
pub closed spec fn zone_gives(
    d: CivilDate,
    time: CivilTime,
    name: Seq<char>,
    given: Result<ZonedTime, jiff::Error>,
) -> bool {
    exists|text: &str| text@ == name && #[trigger] call_ensures(civil_in_zone, (d, time, text), given)
}

/// Reading the text as a whole can give `given`.
pub closed spec fn whole_gives(text: Seq<char>, given: Result<ZonedTime, jiff::Error>) -> bool {
    exists|s: &str| s@ == text && #[trigger] call_ensures(zoned_from_str, (s,), given)
}

/// The zone of the machine can be `offset` seconds ahead of UTC then.
pub closed spec fn machine_is_ahead(timestamp: Timestamp, offset: i32) -> bool {
    call_ensures(system_offset, (timestamp,), offset)
}

/// Asks the zone of the machine when it is `d` and `time` there.
pub(crate) fn ask_machine(d: CivilDate, time: CivilTime) -> (r: Result<ZonedTime, jiff::Error>)
    requires
        d.valid(),
        time.valid(),
        !maybe_too_early(d, time),
    ensures
        machine_gives(d, time, r),
        surely_in_range(d, time) ==> r is Ok,
        r matches Ok(z) ==> z.valid() && z.shows(d, time),
{
    let ask = civil_in_system_zone;
    ask(d, time)
}

/// Asks the zone of that name when it is `d` and `time` there.
pub(crate) fn ask_zone(d: CivilDate, time: CivilTime, name: &str) -> (r: Result<
    ZonedTime,
    jiff::Error,
>)
    requires
        d.valid(),
        time.valid(),
        !maybe_too_early(d, time),
    ensures
        zone_gives(d, time, name@, r),
        r matches Ok(z) ==> z.valid() && z.shows_in(name@, d, time),
{
    let ask = civil_in_zone;
    ask(d, time, name)
}

/// `DateTimePrinter::timestamp_with_offset_to_string`. The text depends on the point in time and
/// the offset alone. It shows the date and time at that offset, and the offset to the minute, so
/// for a whole number of minutes it says just what it was made of.
#[verifier::external_body]
pub(crate) fn print_with_offset(timestamp: Timestamp, offset: i32) -> (r: String)
    requires
        timestamp.in_range(),
        is_utc_offset(offset as int),
    ensures
        r@ == offset_text(timestamp.nanosecond as int, offset as int),
        offset as int % 60 == 0 ==> says(r@, timestamp.nanosecond as int, offset as int),
{
    let t = jiff::Timestamp::from_nanosecond(timestamp.nanosecond).unwrap();
    let o = Offset::from_seconds(offset).unwrap();
    DateTimePrinter::new().timestamp_with_offset_to_string(&t, o)
}

/// `jiff::Timestamp::display_with_offset`. The text depends on the point in time and the offset
/// alone. It shows the date and time at that offset, and the offset to the minute, so for a whole
/// number of minutes it says just what it was made of.
#[verifier::external_body]
pub(crate) fn display_with_offset(timestamp: Timestamp, offset: i32) -> (r: String)
    requires
        timestamp.in_range(),
        is_utc_offset(offset as int),
    ensures
        r@ == display_text(timestamp.nanosecond as int, offset as int),
        offset as int % 60 == 0 ==> says(r@, timestamp.nanosecond as int, offset as int),
{
    let t = jiff::Timestamp::from_nanosecond(timestamp.nanosecond).unwrap();
    let o = Offset::from_seconds(offset).unwrap();
    t.display_with_offset(o).to_string()
}

/// `jiff::Timestamp::from_str`. It takes a date and time with an offset, wherever the point in time
/// is in range, and heeds no time zone beside them.
#[verifier::external_body]
pub(crate) fn timestamp_from_str(text: &str) -> (r: Result<i128, jiff::Error>)
    requires
        datetime_pieces(text@) matches Some(p) ==> (p.time matches Some(time) ==> (
        p.offset matches Some(offset) ==> !just_too_early(p.date, time, offset as int))),
    ensures
        r is Ok <==> (datetime_pieces(text@) matches Some(p) && (p.time matches Some(time) && (
        p.offset matches Some(offset) && instant_in_range(p.date, time, offset as int)))),
        r matches Ok(n) ==> (datetime_pieces(text@) matches Some(p) && (p.time matches Some(time)
            && (p.offset matches Some(offset) && n == instant(p.date, time, offset as int)))),
{
    jiff::Timestamp::from_str(text).map(|t| t.as_nanosecond())
}

/// `TimeZone::to_offset` of `TimeZone::system`: how many seconds the time zone of the machine is
/// ahead of UTC then. It depends on the machine, and only its range is stated.
#[verifier::external_body]
pub(crate) fn system_offset(timestamp: Timestamp) -> (r: i32)
    requires
        timestamp.in_range(),
    ensures
        is_utc_offset(r as int),
{
    let t = jiff::Timestamp::from_nanosecond(timestamp.nanosecond).unwrap();
    TimeZone::system().to_offset(t).seconds()
}

/// Reads a text as a whole.
pub(crate) fn read_whole(text: &str) -> (r: Result<ZonedTime, jiff::Error>)
    requires
        datetime_pieces(text@) matches Some(p) ==> !p.is_on_the_edge(),
    ensures
        whole_gives(text@, r),
        match datetime_pieces(text@) {
            Some(p) => is_whole_time(
                match r {
                    Ok(z) => Some(z),
                    Err(_) => None,
                },
                p,
            ),
            None => r is Err,
        },
{
    let read = zoned_from_str;
    read(text)
}

/// How many seconds the zone of the machine is ahead of UTC then.
pub(crate) fn machine_offset(timestamp: Timestamp) -> (r: i32)
    requires
        timestamp.in_range(),
    ensures
        machine_is_ahead(timestamp, r),
        is_utc_offset(r as int),
{
    let ask = system_offset;
    ask(timestamp)
}

/// The models of what a text says hold what the values hold.
pub proof fn law_pieces_models_are_the_pieces(p: DateTimePieces, values: PieceValues)
    ensures
        p@.date == p.date && p@.time == p.time && p@.offset == p.offset && p@.zulu == p.zulu,
        match p.annotation {
            None => p@.annotation is None,
            Some(Annotation::Named(name)) => p@.annotation == Some(AnnotationModel::Named(name@)),
            Some(Annotation::Offset(offset)) => p@.annotation == Some(
                AnnotationModel::Offset(offset),
            ),
        },
        ({
            let ((year, month, day), time, offset, annotation) = values;
            let model = values_model(values);
            &&& model.date.year == year && model.date.month == month && model.date.day == day
            &&& match time {
                Some((hour, minute, second, nanosecond)) => model.time matches Some(t) && t.hour
                    == hour && t.minute == minute && t.second == second && t.nanosecond
                    == nanosecond,
                None => model.time is None,
            }
            &&& match offset {
                Some((seconds, zulu)) => model.offset == Some(seconds) && model.zulu == zulu,
                None => model.offset is None && !model.zulu,
            }
            &&& match annotation {
                Some(zone) => model.annotation == Some(zone@),
                None => model.annotation is None,
            }
        }),
{
}

} // verus!

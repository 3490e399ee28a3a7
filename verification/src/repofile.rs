//! Files of a repository, and the texts of times in them.

use vstd::prelude::*;

use crate::node::Id;
use crate::time::{
    ask_machine, ask_zone, civil_at_offset, civil_second, datetime_pieces, display_text,
    display_with_offset, instant, instant_in_range, instant_second, is_utc_offset, is_whole_time,
    just_too_early, lower_case, machine_gives, machine_is_ahead, machine_offset, maybe_too_early,
    offset_text, parse_pieces, print_with_offset, read_whole, says, surely_in_range,
    timestamp_from_str, whole_gives, zone_gives, Annotation, AnnotationModel, CivilDate, CivilTime,
    DateTimePieces, PiecesModel, Timestamp, ZonedTime, MAX_OFFSET, MAX_SECOND, MIN_SECOND,
};

verus! {

/// What kind of file a repository file is.
#[derive(Debug, Clone, Copy, PartialEq, Eq, Structural)]
pub enum FileType {
    /// The configuration.
    Config,
    /// An index of packs.
    Index,
    /// A key.
    Key,
    /// A snapshot.
    Snapshot,
    /// A pack of stored objects.
    Pack,
}

/// A file of a repository.
pub trait RepoFile: Sized + Send + Sync + 'static {
    /// The kind of file.
    const TYPE: FileType;

    /// The file is stored encrypted.
    const ENCRYPTED: bool = true;

    /// The identifier of such a file.
    type Id: RepoId;
}

/// An identifier of a file of a repository.
pub trait RepoId: std::ops::Deref<Target = Id> + From<Id> + Sized + Copy + Send + Sync + 'static {
    /// The kind of file that it identifies.
    const TYPE: FileType;
}

/// Why a text is no time.
#[derive(Debug)]
pub enum TimeError {
    /// The text, or the time that it says, was refused.
    Refused(jiff::Error),
    /// The point in time is less than a second before the least one.
    OutOfRange,
}

/// A time zone.
#[derive(Debug)]
pub enum Zone {
    /// A fixed number of seconds ahead of UTC.
    Fixed(i32),
    /// The zone of this name.
    Named(String),
    /// The zone of the machine.
    System,
}

/// A time zone.
pub enum ZoneModel {
    Fixed(i32),
    Named(Seq<char>),
    System,
}

impl View for Zone {
    type V = ZoneModel;

    open spec fn view(&self) -> ZoneModel {
        match *self {
            Zone::Fixed(offset) => ZoneModel::Fixed(offset),
            Zone::Named(name) => ZoneModel::Named(name@),
            Zone::System => ZoneModel::System,
        }
    }
}

impl ZoneModel {
    /// A fixed offset is one.
    pub open spec fn valid(self) -> bool {
        self matches ZoneModel::Fixed(offset) ==> is_utc_offset(offset as int)
    }
}

/// The zone that a text means: the one it names or, where it names none, its offset from UTC or,
/// where it has none, the default.
pub open spec fn meant_zone(pieces: PiecesModel, default_zone: ZoneModel) -> ZoneModel {
    match (pieces.annotation, pieces.offset) {
        (Some(AnnotationModel::Named(name)), _) => ZoneModel::Named(name),
        (Some(AnnotationModel::Offset(offset)), _) => ZoneModel::Fixed(offset),
        (None, Some(offset)) => ZoneModel::Fixed(offset),
        (None, None) => default_zone,
    }
}

/// The time of day that a text means: the one it says, or the default.
pub open spec fn meant_time(pieces: PiecesModel, default_time: CivilTime) -> CivilTime {
    match pieces.time {
        Some(time) => time,
        None => default_time,
    }
}

/// The result is the point in time at which it is `date` and `time` at a fixed offset, if that is
/// in range.
pub open spec fn is_at_offset(
    r: Result<ZonedTime, TimeError>,
    date: CivilDate,
    time: CivilTime,
    offset: i32,
) -> bool {
    &&& r is Ok <==> instant_in_range(date, time, offset as int)
    &&& r matches Ok(z) ==> {
        &&& z.timestamp.nanosecond == instant(date, time, offset as int)
        &&& z.is_fixed(offset)
        &&& z.valid()
    }
    &&& r == Err::<ZonedTime, TimeError>(TimeError::OutOfRange) <==> just_too_early(
        date,
        time,
        offset as int,
    )
}

/// What a zone gave, with a fraction of a second more, or its refusal.
pub open spec fn is_handed_on(
    r: Result<ZonedTime, TimeError>,
    given: Result<ZonedTime, jiff::Error>,
    fraction: int,
) -> bool {
    match given {
        Ok(z) => r matches Ok(later) && {
            &&& later.timestamp.nanosecond == z.timestamp.nanosecond + fraction
            &&& later.offset == z.offset
            &&& later.zone_name == z.zone_name
        },
        Err(e) => r == Err::<ZonedTime, TimeError>(TimeError::Refused(e)),
    }
}

/// What a zone is asked for when it is `date` and `time` there, and how many nanoseconds are left over:
/// the time itself, or its whole second where the point in time may be on the edge of the range.
pub open spec fn asked_of_zones(date: CivilDate, time: CivilTime) -> (CivilTime, int) {
    if maybe_too_early(date, time) {
        ((CivilTime { nanosecond: 0, ..time }), time.nanosecond as int)
    } else {
        (time, 0)
    }
}

/// The result is what the zone gave when it was asked, with what was left over.
pub open spec fn is_given_by_zone(
    r: Result<ZonedTime, TimeError>,
    date: CivilDate,
    time: CivilTime,
    zone: ZoneModel,
) -> bool {
    let (asked, left) = asked_of_zones(date, time);
    exists|given: Result<ZonedTime, jiff::Error>|
        #![trigger is_handed_on(r, given, left)]
        is_handed_on(r, given, left) && match zone {
            ZoneModel::System => machine_gives(date, asked, given),
            ZoneModel::Named(name) => zone_gives(date, asked, name, given),
            ZoneModel::Fixed(_) => false,
        }
}

/// The result comes from the rules of a zone that is not a fixed offset: it is the point in time at
/// which it is `date` and `time` at an offset that these rules give. It is refused only where it is
/// out of range at that offset, or where there is no zone of that name.
pub open spec fn is_in_zone(
    r: Result<ZonedTime, TimeError>,
    date: CivilDate,
    time: CivilTime,
    zone: ZoneModel,
) -> bool {
    &&& is_given_by_zone(r, date, time, zone)
    &&& match r {
        Ok(z) => {
            &&& z.valid()
            &&& z.shows(date, time)
            &&& zone matches ZoneModel::Named(name) ==> z.shows_in(name, date, time)
        },
        Err(e) => e is Refused && (zone is System ==> !surely_in_range(date, time)),
    }
}

/// The zone that a text means.
pub fn zone_of(pieces: &DateTimePieces, default_zone: Zone) -> (r: Zone)
    ensures
        r@ == meant_zone(pieces@, default_zone@),
{
    match (&pieces.annotation, pieces.offset) {
        (Some(Annotation::Named(name)), _) => Zone::Named(name.clone()),
        (Some(Annotation::Offset(offset)), _) => Zone::Fixed(*offset),
        (None, Some(offset)) => Zone::Fixed(offset),
        (None, None) => default_zone,
    }
}

/// The time of day that a text means.
pub fn time_of(pieces: &DateTimePieces, default_time: CivilTime) -> (r: CivilTime)
    ensures
        r == meant_time(pieces@, default_time),
{
    match pieces.time {
        Some(time) => time,
        None => default_time,
    }
}

fn may_be_too_early(date: CivilDate, time: CivilTime) -> (r: bool)
    requires
        date.valid(),
        time.valid(),
    ensures
        r == maybe_too_early(date, time),
{
    civil_second(date, time, MAX_OFFSET) < MIN_SECOND && time.nanosecond != 0
}

/// The whole second of a time of day.
fn whole_second(time: CivilTime) -> (r: CivilTime)
    ensures
        r == (CivilTime { nanosecond: 0, ..time }),
{
    CivilTime { hour: time.hour, minute: time.minute, second: time.second, nanosecond: 0 }
}

/// A fraction of a second more stays in range behind a whole second.
proof fn lemma_fraction_stays_in_range(nanosecond: int, second: int, fraction: int)
    requires
        nanosecond == second * 1_000_000_000,
        MIN_SECOND * 1_000_000_000 <= nanosecond <= MAX_SECOND * 1_000_000_000 + 999_999_999,
        0 <= fraction < 1_000_000_000,
    ensures
        MIN_SECOND * 1_000_000_000 <= nanosecond + fraction <= MAX_SECOND * 1_000_000_000
            + 999_999_999,
{
}

proof fn lemma_fraction_comes_on_top(date: CivilDate, time: CivilTime, offset: int)
    ensures
        instant(date, (CivilTime { nanosecond: 0, ..time }), offset) == instant_second(
            date,
            time,
            offset,
        ) * 1_000_000_000,
        instant(date, time, offset) == instant_second(date, time, offset) * 1_000_000_000
            + time.nanosecond,
{
}

/// A fraction of a second more turns what shows a whole second into what shows the time itself.
proof fn lemma_fraction_is_shown(z: ZonedTime, later: ZonedTime, date: CivilDate, time: CivilTime)
    requires
        time.valid(),
        z.valid(),
        z.shows(date, (CivilTime { nanosecond: 0, ..time })),
        later.timestamp.nanosecond == z.timestamp.nanosecond + time.nanosecond,
        later.offset == z.offset,
        later.zone_name == z.zone_name,
    ensures
        later.valid(),
        later.shows(date, time),
        forall|name: Seq<char>|
            z.shows_in(name, date, (CivilTime { nanosecond: 0, ..time }))
                ==> #[trigger] later.shows_in(name, date, time),
{
    let whole = CivilTime { nanosecond: 0, ..time };
    let offset = choose|offset: int|
        is_utc_offset(offset) && z.timestamp.nanosecond == #[trigger] instant(date, whole, offset);
    lemma_fraction_comes_on_top(date, time, offset);
    lemma_fraction_comes_on_top(date, time, 0);
    lemma_fraction_stays_in_range(
        z.timestamp.nanosecond as int,
        instant_second(date, time, offset),
        time.nanosecond as int,
    );
    assert(later.timestamp.nanosecond == instant(date, time, offset));
}

/// Hands on what a zone gave: the offset and the name of the zone as they are, and the point in time
/// `fraction` nanoseconds later.
pub fn handed_on(given: Result<ZonedTime, jiff::Error>, fraction: i32) -> (r: Result<
    ZonedTime,
    TimeError,
>)
    requires
        given matches Ok(z) ==> i128::MIN <= z.timestamp.nanosecond + fraction <= i128::MAX,
    ensures
        is_handed_on(r, given, fraction as int),
{
    match given {
        Ok(z) => Ok(
            ZonedTime {
                timestamp: Timestamp { nanosecond: z.timestamp.nanosecond + fraction as i128 },
                offset: z.offset,
                zone_name: z.zone_name,
            },
        ),
        Err(e) => Err(TimeError::Refused(e)),
    }
}

/// The point in time at which it is `date` and `time` in `zone`.
pub fn to_zoned(date: CivilDate, time: CivilTime, zone: &Zone) -> (r: Result<ZonedTime, TimeError>)
    requires
        date.valid(),
        time.valid(),
        zone@.valid(),
    ensures
        match zone@ {
            ZoneModel::Fixed(offset) => is_at_offset(r, date, time, offset),
            _ => is_in_zone(r, date, time, zone@),
        },
{
    match zone {
        Zone::Fixed(offset) => {
            let second: i64 = civil_second(date, time, *offset);
            if second == MIN_SECOND - 1 && time.nanosecond != 0 {
                return Err(TimeError::OutOfRange);
            }
            match civil_at_offset(date, time, *offset) {
                Ok(nanosecond) => {
                    let zone_name: Option<String> = if *offset == 0 {
                        Some("UTC".to_owned())
                    } else {
                        None
                    };
                    Ok(ZonedTime { timestamp: Timestamp { nanosecond }, offset: *offset, zone_name })
                },
                Err(e) => Err(TimeError::Refused(e)),
            }
        },
        Zone::Named(name) => in_zone(date, time, Some(name.as_str())),
        Zone::System => in_zone(date, time, None),
    }
}

/// The point in time at which it is `date` and `time` in the zone of that name, or in the zone of the
/// machine. Where the point in time may be on the edge of the range, the zone is asked for the whole
/// second.
fn in_zone(date: CivilDate, time: CivilTime, name: Option<&str>) -> (r: Result<
    ZonedTime,
    TimeError,
>)
    requires
        date.valid(),
        time.valid(),
    ensures
        is_in_zone(
            r,
            date,
            time,
            match name {
                Some(name) => ZoneModel::Named(name@),
                None => ZoneModel::System,
            },
        ),
{
    let (asked, fraction): (CivilTime, i32) = if may_be_too_early(date, time) {
        (whole_second(time), time.nanosecond)
    } else {
        (time, 0)
    };
    let given: Result<ZonedTime, jiff::Error> = match name {
        Some(name) => ask_zone(date, asked, name),
        None => ask_machine(date, asked),
    };
    let ghost before = given;
    let r: Result<ZonedTime, TimeError> = handed_on(given, fraction);
    proof {
        if before is Ok && fraction != 0 {
            lemma_fraction_is_shown(before->Ok_0, r->Ok_0, date, time);
        }
        assert(is_handed_on(r, before, asked_of_zones(date, time).1));
    }
    r
}

/// What comes back when a text is read piece by piece: the point in time of its date and time of day
/// in the zone that it means.
pub open spec fn is_from_pieces(
    r: Result<ZonedTime, TimeError>,
    pieces: PiecesModel,
    default_time: CivilTime,
    default_zone: ZoneModel,
) -> bool {
    let time = meant_time(pieces, default_time);
    match meant_zone(pieces, default_zone) {
        ZoneModel::Fixed(offset) => is_at_offset(r, pieces.date, time, offset),
        zone => is_in_zone(r, pieces.date, time, zone),
    }
}

/// What comes back when a text is read that says `pieces`: what reading it as a whole gives or, where
/// that fails, what reading it piece by piece gives. The text alone decides which of the two it is,
/// unless it has an offset in figures beside the name of a zone, or is at an end of the range.
pub open spec fn is_read_time(
    r: Result<ZonedTime, TimeError>,
    pieces: PiecesModel,
    default_time: CivilTime,
    default_zone: ZoneModel,
) -> bool {
    match pieces.annotation {
        None => is_from_pieces(r, pieces, default_time, default_zone),
        Some(AnnotationModel::Offset(bracketed)) => if pieces.is_whole(bracketed) {
            r matches Ok(z) && is_whole_time(Some(z), pieces)
        } else {
            is_from_pieces(r, pieces, default_time, default_zone)
        },
        Some(AnnotationModel::Named(_)) => if pieces.is_whole_or_nothing() {
            match r {
                Ok(z) => is_whole_time(Some(z), pieces),
                Err(e) => e is Refused,
            }
        } else if pieces.zulu {
            is_from_pieces(r, pieces, default_time, default_zone)
        } else {
            ||| r matches Ok(z) && is_whole_time(Some(z), pieces)
            ||| is_from_pieces(r, pieces, default_time, default_zone)
        },
    }
}

/// What comes back when a text is read that has a zone in brackets is settled by reading it as a whole:
/// the time that this gave, handed on as it is, or, where it gave none, what the pieces say. A text with
/// the name of a zone that can only be read as a whole is refused then. A text whose point in time may
/// be on the edge of the range is read piece by piece.
pub open spec fn is_settled(
    r: Result<ZonedTime, TimeError>,
    text: Seq<char>,
    pieces: PiecesModel,
    default_time: CivilTime,
    default_zone: ZoneModel,
) -> bool {
    if pieces.is_on_the_edge() {
        is_from_pieces(r, pieces, default_time, default_zone)
    } else {
        exists|given: Result<ZonedTime, jiff::Error>|
            {
                &&& #[trigger] whole_gives(text, given)
                &&& match given {
                    Ok(_) => is_handed_on(r, given, 0),
                    Err(_) => if pieces.is_whole_or_nothing() {
                        is_handed_on(r, given, 0)
                    } else {
                        is_from_pieces(r, pieces, default_time, default_zone)
                    },
                }
            }
    }
}

/// The time that a text means: what reading it as a whole gave, if that gave anything, or else what
/// its pieces say.
pub fn settled(
    full: Option<ZonedTime>,
    pieces: &DateTimePieces,
    default_time: CivilTime,
    default_zone: Zone,
) -> (r: Result<ZonedTime, TimeError>)
    requires
        pieces@.valid(),
        default_time.valid(),
        default_zone@.valid(),
    ensures
        full matches Some(z) ==> r == Ok::<ZonedTime, TimeError>(z),
        full is None ==> is_from_pieces(r, pieces@, default_time, default_zone@),
{
    if let Some(zoned) = full {
        return Ok(zoned);
    }
    let time: CivilTime = time_of(pieces, default_time);
    let zone: Zone = zone_of(pieces, default_zone);
    to_zoned(pieces.date, time, &zone)
}

/// Tells whether a text with the name of a zone can only be read as a whole.
fn is_whole_or_nothing(pieces: &DateTimePieces) -> (r: bool)
    requires
        pieces@.valid(),
    ensures
        r == pieces@.is_whole_or_nothing(),
{
    if let Some(Annotation::Named(_)) = &pieces.annotation {
        let time: CivilTime = time_of(pieces, CivilTime::min());
        if pieces.zulu {
            let second: i64 = civil_second(pieces.date, time, 0);
            MIN_SECOND <= second && second <= MAX_SECOND
        } else if pieces.offset.is_none() {
            let first: i64 = civil_second(pieces.date, time, MAX_OFFSET);
            let last: i64 = civil_second(pieces.date, time, -MAX_OFFSET);
            MIN_SECOND <= first && last <= MAX_SECOND
        } else {
            false
        }
    } else {
        false
    }
}

/// Tells whether reading a text as a whole may come to a point in time that is less than a second
/// before the least one.
fn is_on_the_edge(pieces: &DateTimePieces) -> (r: bool)
    requires
        pieces@.valid(),
    ensures
        r == pieces@.is_on_the_edge(),
{
    let time: CivilTime = time_of(pieces, CivilTime::min());
    let whole_offset: Option<i32> = match &pieces.annotation {
        None => None,
        Some(Annotation::Named(_)) => if pieces.zulu {
            Some(0)
        } else {
            return may_be_too_early(pieces.date, time);
        },
        Some(Annotation::Offset(bracketed)) => if pieces.zulu {
            Some(0)
        } else {
            match pieces.offset {
                None => Some(*bracketed),
                Some(offset) => if offset == *bracketed {
                    Some(offset)
                } else {
                    None
                },
            }
        },
    };
    match whole_offset {
        Some(offset) => civil_second(pieces.date, time, offset) == MIN_SECOND - 1
            && time.nanosecond != 0,
        None => false,
    }
}

/// What came back when a point in time was read from a text that says `pieces`: the point in time
/// of the date, the time of day and the offset, where there are all three and it is in range.
pub open spec fn is_read_timestamp(
    r: Result<Timestamp, TimeError>,
    pieces: Option<PiecesModel>,
) -> bool {
    match pieces {
        Some(PiecesModel { date, time: Some(time), offset: Some(offset), .. }) => {
            &&& r is Ok <==> instant_in_range(date, time, offset as int)
            &&& r matches Ok(t) ==> t.nanosecond == instant(date, time, offset as int)
            &&& r == Err::<Timestamp, TimeError>(TimeError::OutOfRange) <==> just_too_early(
                date,
                time,
                offset as int,
            )
        },
        _ => r matches Err(TimeError::Refused(_)),
    }
}

/// How the repository writes times.
#[derive(Debug, Clone, Copy)]
pub struct RusticTime;

impl RusticTime {
    /// Reads a time from a text as best it can. A text without a time of day means
    /// `default_time`, and one without offset and zone means `default_zone`.
    ///
    /// A text with a time zone in brackets is first read as a whole, which fails where another
    /// offset contradicts the zone. The rules of zones by name are those of the machine.
    pub fn parse(s: &str, default_time: CivilTime, default_zone: Zone) -> (r: Result<
        ZonedTime,
        TimeError,
    >)
        requires
            default_time.valid(),
            default_zone@.valid(),
        ensures
            match datetime_pieces(s@) {
                None => r matches Err(TimeError::Refused(_)),
                Some(p) => is_read_time(r, p, default_time, default_zone@) && is_settled(
                    r,
                    s@,
                    p,
                    default_time,
                    default_zone@,
                ),
            },
    {
        let pieces: DateTimePieces = match parse_pieces(s) {
            Ok(pieces) => pieces,
            Err(e) => {
                return Err(TimeError::Refused(e));
            },
        };
        if is_whole_or_nothing(&pieces) {
            let whole: Result<ZonedTime, jiff::Error> = read_whole(s);
            let ghost given = whole;
            let r: Result<ZonedTime, TimeError> = handed_on(whole, 0);
            assert(whole_gives(s@, given));
            return r;
        }
        // A text on the edge is read piece by piece, with the fraction of the second apart.
        let full: Option<ZonedTime> = if is_on_the_edge(&pieces) {
            None
        } else {
            let whole: Result<ZonedTime, jiff::Error> = read_whole(s);
            assert(whole_gives(s@, whole));
            match whole {
                Ok(zoned) => Some(zoned),
                Err(_) => None,
            }
        };
        settled(full, &pieces, default_time, default_zone)
    }

    /// Reads a time from a text as best it can. A text without a time of day means midnight, and
    /// one without offset and zone means the zone of the machine.
    pub fn parse_system(s: &str) -> (r: Result<ZonedTime, TimeError>)
        ensures
            match datetime_pieces(s@) {
                None => r matches Err(TimeError::Refused(_)),
                Some(p) => is_read_time(r, p, CivilTime::midnight(), ZoneModel::System)
                    && is_settled(r, s@, p, CivilTime::midnight(), ZoneModel::System),
            },
    {
        Self::parse(s, CivilTime::min(), Zone::System)
    }

    /// Reads a time from a text as best it can. A text without a time of day means midnight, and
    /// one without offset and zone means UTC.
    pub fn parse_utc(s: &str) -> (r: Result<ZonedTime, TimeError>)
        ensures
            match datetime_pieces(s@) {
                None => r matches Err(TimeError::Refused(_)),
                Some(p) => is_read_time(r, p, CivilTime::midnight(), ZoneModel::Fixed(0))
                    && is_settled(r, s@, p, CivilTime::midnight(), ZoneModel::Fixed(0)),
            },
    {
        Self::parse(s, CivilTime::min(), Zone::Fixed(0))
    }

    /// The text of a time in a zone: with the offset from UTC, but without the name of the zone.
    pub fn to_string(source: &ZonedTime) -> (r: String)
        requires
            source.valid(),
        ensures
            r@ == offset_text(source.timestamp.nanosecond as int, source.offset as int),
            source.offset as int % 60 == 0 ==> says(
                r@,
                source.timestamp.nanosecond as int,
                source.offset as int,
            ),
    {
        print_with_offset(source.timestamp, source.offset)
    }

    /// The text of a point in time at the given offset from UTC.
    pub fn timestamp_text(source: Timestamp, offset: i32) -> (r: String)
        requires
            source.in_range(),
            is_utc_offset(offset as int),
        ensures
            r@ == display_text(source.nanosecond as int, offset as int),
            offset as int % 60 == 0 ==> says(r@, source.nanosecond as int, offset as int),
    {
        display_with_offset(source, offset)
    }

    /// The text of a point in time at the offset that the zone of the machine has then.
    pub fn timestamp_to_string(source: Timestamp) -> (r: String)
        requires
            source.in_range(),
        ensures
            exists|offset: i32|
                {
                    &&& machine_is_ahead(source, offset)
                    &&& is_utc_offset(offset as int)
                    &&& r@ == #[trigger] display_text(source.nanosecond as int, offset as int)
                    &&& offset as int % 60 == 0 ==> says(
                        r@,
                        source.nanosecond as int,
                        offset as int,
                    )
                },
    {
        let offset: i32 = machine_offset(source);
        Self::timestamp_text(source, offset)
    }

    /// Reads a point in time from a text, which must say the time of day and the offset from UTC.
    pub fn timestamp_from_string(s: &str) -> (r: Result<Timestamp, TimeError>)
        ensures
            is_read_timestamp(r, datetime_pieces(s@)),
    {
        if let Ok(pieces) = parse_pieces(s) {
            if let (Some(time), Some(offset)) = (pieces.time, pieces.offset) {
                let second: i64 = civil_second(pieces.date, time, offset);
                if second == MIN_SECOND - 1 && time.nanosecond != 0 {
                    return Err(TimeError::OutOfRange);
                }
            }
        }
        match timestamp_from_str(s) {
            Ok(nanosecond) => Ok(Timestamp { nanosecond }),
            Err(e) => Err(TimeError::Refused(e)),
        }
    }
}

/// What a zone gave is handed on as it is, with the name and the offset of the zone, the point in time
/// later by the fraction and by nothing else. A refusal stays that refusal.
pub proof fn law_what_a_zone_gave_is_handed_on(
    r: Result<ZonedTime, TimeError>,
    given: Result<ZonedTime, jiff::Error>,
    fraction: int,
)
    requires
        is_handed_on(r, given, fraction),
    ensures
        r is Ok <==> given is Ok,
        given matches Ok(z) ==> {
            &&& (r->Ok_0).timestamp.nanosecond - z.timestamp.nanosecond == fraction
            &&& (r->Ok_0).offset == z.offset
            &&& (r->Ok_0).zone_name == z.zone_name
        },
        given matches Err(e) ==> (r matches Err(TimeError::Refused(own)) && own == e),
{
}

/// The result is the point in time at which it is that date and time at that offset, with that offset
/// and no other name than UTC for none, if the whole second is in range, and an error if not.
pub open spec fn is_read_at(
    r: Result<ZonedTime, TimeError>,
    date: CivilDate,
    time: CivilTime,
    offset: i32,
) -> bool {
    let second = date.epoch_day() * 86_400 + time.hour * 3600 + time.minute * 60 + time.second
        - offset;
    match r {
        Ok(z) => {
            &&& -377_705_023_201 <= second <= 253_402_207_200
            &&& z.timestamp.nanosecond == second * 1_000_000_000 + time.nanosecond
            &&& z.offset == offset
            &&& if offset == 0 {
                z.zone_name matches Some(name) && name@ == "UTC"@
            } else {
                z.zone_name is None
            }
        },
        Err(_) => !(-377_705_023_201 <= second <= 253_402_207_200),
    }
}

/// A text with neither an offset nor a zone is read in the default zone, whether or not it has a time
/// of day. Its own time of day counts if it has one, and the default one if not.
pub proof fn law_text_without_zone_means_the_default_zone(
    r: Result<ZonedTime, TimeError>,
    pieces: PiecesModel,
    default_time: CivilTime,
    offset: i32,
)
    requires
        pieces.annotation is None,
        pieces.offset is None,
        is_read_time(r, pieces, default_time, ZoneModel::Fixed(offset)),
    ensures
        pieces.time matches Some(time) ==> is_read_at(r, pieces.date, time, offset),
        pieces.time is None ==> is_read_at(r, pieces.date, default_time, offset),
{
}

/// Where the default zone is that of the machine, a text with neither an offset nor a zone is read as
/// that zone gives it, and a time that is in range at every offset is not refused. Whatever the zone
/// gives for that date and time is handed on.
pub proof fn law_default_zone_of_the_machine_decides(
    r: Result<ZonedTime, TimeError>,
    pieces: PiecesModel,
    default_time: CivilTime,
    time: CivilTime,
)
    requires
        pieces.annotation is None,
        pieces.offset is None,
        pieces.date.valid(),
        time.valid(),
        pieces.time == Some(time) || (pieces.time is None && time == default_time),
        -9998 <= pieces.date.year <= 9998,
        is_read_time(r, pieces, default_time, ZoneModel::System),
    ensures
        r matches Ok(z) && z.shows(pieces.date, time) && exists|given: ZonedTime|
            {
                &&& #[trigger] machine_gives(pieces.date, time, Ok(given))
                &&& z.timestamp.nanosecond == given.timestamp.nanosecond
                &&& z.offset == given.offset
                &&& z.zone_name == given.zone_name
            },
{
    assert(surely_in_range(pieces.date, time));
    let given = choose|given: Result<ZonedTime, jiff::Error>|
        #![trigger is_handed_on(r, given, 0)]
        is_handed_on(r, given, 0) && machine_gives(pieces.date, time, given);
    assert(machine_gives(pieces.date, time, Ok(given->Ok_0)));
}

/// A text with an offset and no zone is read at that offset, whatever the default zone.
pub proof fn law_offset_in_the_text_decides(
    r: Result<ZonedTime, TimeError>,
    pieces: PiecesModel,
    default_time: CivilTime,
    default_zone: ZoneModel,
    offset: i32,
)
    requires
        pieces.annotation is None,
        pieces.offset == Some(offset),
        is_read_time(r, pieces, default_time, default_zone),
    ensures
        pieces.time matches Some(time) ==> is_read_at(r, pieces.date, time, offset),
        pieces.time is None ==> is_read_at(r, pieces.date, default_time, offset),
{
}

/// A text with an offset in brackets is read at that offset, whatever other offset stands beside it.
/// Only `Z` says instead what time it is in UTC, as long as that is in range.
pub proof fn law_offset_in_brackets_decides(
    r: Result<ZonedTime, TimeError>,
    pieces: PiecesModel,
    default_time: CivilTime,
    default_zone: ZoneModel,
    time: CivilTime,
    bracketed: i32,
)
    requires
        pieces.annotation == Some(AnnotationModel::Offset(bracketed)),
        pieces.time == Some(time),
        pieces.valid(),
        is_read_time(r, pieces, default_time, default_zone),
    ensures
        r matches Ok(z) ==> z.offset == bracketed,
        !pieces.zulu ==> is_read_at(r, pieces.date, time, bracketed),
        pieces.zulu && instant_in_range(pieces.date, time, 0) ==> (r matches Ok(z)
            && z.timestamp.nanosecond == instant(pieces.date, time, 0)),
        pieces.zulu && !instant_in_range(pieces.date, time, 0) ==> is_read_at(
            r,
            pieces.date,
            time,
            bracketed,
        ),
{
}

/// A text with the name of a zone is read in the zone of that name, whatever the defaults, at the
/// date and time of day that it says. `Z` beside the name says what time it is in UTC, as long as
/// that is in range.
pub proof fn law_name_in_brackets_decides(
    z: ZonedTime,
    pieces: PiecesModel,
    default_time: CivilTime,
    default_zone: ZoneModel,
    time: CivilTime,
    name: Seq<char>,
)
    requires
        pieces.annotation == Some(AnnotationModel::Named(name)),
        pieces.time == Some(time),
        is_read_time(Ok(z), pieces, default_time, default_zone),
    ensures
        z.zone_name matches Some(own) ==> lower_case(own@) == lower_case(name),
        exists|offset: int|
            is_utc_offset(offset) && z.timestamp.nanosecond == #[trigger] instant(
                pieces.date,
                time,
                offset,
            ),
        pieces.zulu && instant_in_range(pieces.date, time, 0) ==> z.timestamp.nanosecond == instant(
            pieces.date,
            time,
            0,
        ),
{
}

/// A text with a zone in brackets and no time of day means the start of the day there, whatever the
/// default time, as long as that is in range.
pub proof fn law_day_in_a_zone_starts_at_midnight(
    r: Result<ZonedTime, TimeError>,
    pieces: PiecesModel,
    default_time: CivilTime,
    default_zone: ZoneModel,
    midnight: CivilTime,
)
    requires
        pieces.time is None,
        pieces.offset is None,
        pieces.valid(),
        midnight == (CivilTime { hour: 0, minute: 0, second: 0, nanosecond: 0 }),
        is_read_time(r, pieces, default_time, default_zone),
    ensures
        pieces.annotation matches Some(AnnotationModel::Offset(bracketed)) ==> (instant_in_range(
            pieces.date,
            midnight,
            bracketed as int,
        ) ==> is_read_at(r, pieces.date, midnight, bracketed)),
        pieces.annotation matches Some(AnnotationModel::Named(name)) ==> (-9998 <= pieces.date.year
            <= 9998 ==> match r {
            Ok(z) => z.is_named(name) && z.shows(pieces.date, midnight),
            Err(e) => e is Refused,
        }),
{
    if pieces.annotation is Some && -9998 <= pieces.date.year <= 9998 {
        assert(surely_in_range(pieces.date, midnight));
    }
}

/// Where the default zone goes by a name, a text with neither an offset nor a zone is read in the
/// zone of that name.
pub proof fn law_default_zone_by_name_is_heeded(
    z: ZonedTime,
    pieces: PiecesModel,
    default_time: CivilTime,
    name: Seq<char>,
)
    requires
        pieces.annotation is None,
        pieces.offset is None,
        is_read_time(Ok(z), pieces, default_time, ZoneModel::Named(name)),
    ensures
        z.zone_name matches Some(own) ==> lower_case(own@) == lower_case(name),
        z.zone_name is None ==> lower_case(name) == "etc/unknown"@,
        pieces.time matches Some(time) ==> z.shows(pieces.date, time),
        pieces.time is None ==> z.shows(pieces.date, default_time),
{
}

/// The default time has no say in a text with a time of day, and the default zone none in a text
/// with an offset or a zone.
pub proof fn law_defaults_fill_only_gaps(
    r: Result<ZonedTime, TimeError>,
    pieces: PiecesModel,
    times: (CivilTime, CivilTime),
    zones: (ZoneModel, ZoneModel),
)
    ensures
        pieces.time is Some ==> is_read_time(r, pieces, times.0, zones.0) == is_read_time(
            r,
            pieces,
            times.1,
            zones.0,
        ),
        pieces.offset is Some || pieces.annotation is Some ==> is_read_time(
            r,
            pieces,
            times.0,
            zones.0,
        ) == is_read_time(r, pieces, times.0, zones.1),
{
}

/// A point in time is read from a text exactly if it has a date, a time of day and an offset, and the
/// whole second is in range. A zone in brackets has no say.
pub proof fn law_timestamps_need_time_and_offset(
    r: Result<Timestamp, TimeError>,
    pieces: PiecesModel,
)
    requires
        is_read_timestamp(r, Some(pieces)),
    ensures
        match (pieces.time, pieces.offset) {
            (Some(time), Some(offset)) => {
                let second = pieces.date.epoch_day() * 86_400 + time.hour * 3600 + time.minute * 60
                    + time.second - offset;
                &&& r is Ok <==> -377_705_023_201 <= second <= 253_402_207_200
                &&& r matches Ok(t) ==> t.nanosecond == second * 1_000_000_000 + time.nanosecond
            },
            _ => r is Err,
        },
{
}

/// A text that says a time in range at an offset is read back as that very time at that offset,
/// whatever the defaults.
pub proof fn law_written_times_are_read_back(
    text: Seq<char>,
    nanosecond: int,
    offset: i32,
    default_time: CivilTime,
    default_zone: ZoneModel,
    r: Result<ZonedTime, TimeError>,
)
    requires
        says(text, nanosecond, offset as int),
        MIN_SECOND * 1_000_000_000 <= nanosecond <= MAX_SECOND * 1_000_000_000
            + 999_999_999,
        datetime_pieces(text) matches Some(p) && is_read_time(r, p, default_time, default_zone),
    ensures
        r matches Ok(z) && z.timestamp.nanosecond == nanosecond && z.offset == offset,
{
}

/// A point in time that is written at a whole number of minutes from UTC is read back as that very
/// point in time, so writing it again at the same offset gives the same text.
pub proof fn law_timestamp_text_is_stable(
    source: Timestamp,
    offset: i32,
    text: Seq<char>,
    r: Result<Timestamp, TimeError>,
)
    requires
        source.in_range(),
        text == display_text(source.nanosecond as int, offset as int),
        says(text, source.nanosecond as int, offset as int),
        is_read_timestamp(r, datetime_pieces(text)),
    ensures
        r == Ok::<Timestamp, TimeError>(source),
        r matches Ok(back) ==> display_text(back.nanosecond as int, offset as int) == text,
{
}

} // verus!

//! Datagrams of the electricity meter's serial port.
//!
//! The meter sends its readings as lines of ASCII text. A datagram is a line
//! with the time of the reading, followed by one line for each of the four
//! energy counters:
//!
//! ```text
//! 0-0:1.0.0(241025191816S)
//! 1-0:1.8.1(002654.919*kWh)
//! 1-0:1.8.2(002420.293*kWh)
//! 1-0:2.8.1(006254.732*kWh)
//! 1-0:2.8.2(002457.202*kWh)
//! ```
//!
//! The library finds these lines and the text of each quantity. Turning that
//! text into a quantity is left to a function that the caller supplies.

use chrono::{FixedOffset, TimeZone};
use crate::text::{
    all_digits, lemma_two_digits, parse_i64, parse_usize, signed_number, unsigned_number,
    unsigned_part,
};
use vstd::prelude::*;
use vstd::string::*;

verus! {

/// A complete datagram of the electricity meter: the time at which it was
/// taken, in seconds since the Unix epoch, and the four energy counters.
#[derive(Debug, PartialEq)]
pub struct CompleteP1Measurement<Q> {
    pub timestamp: i64,
    pub peak_hour_consumption: Q,
    pub off_hour_consumption: Q,
    pub peak_hour_injection: Q,
    pub off_hour_injection: Q,
}

/// The lines of a datagram that were read so far. The lines come in a fixed
/// order, so a field is present only if those before it are.
#[derive(Debug, PartialEq)]
pub struct PartialP1Measurement<Q> {
    pub timestamp: Option<i64>,
    pub peak_hour_consumption: Option<Q>,
    pub off_hour_consumption: Option<Q>,
    pub peak_hour_injection: Option<Q>,
    pub off_hour_injection: Option<Q>,
}

/// Why a line that is shaped like a time stamp gives no time.
#[derive(Debug, PartialEq, Eq, Clone, Copy)]
pub enum DateError {
    /// One of the six fields is not a number.
    Number,
    /// The fields do not name a moment: there is no such day or time.
    Date,
}

/// Why a line of a datagram was refused.
#[derive(Debug, PartialEq)]
pub enum P1Error<E> {
    /// The line is shaped like a time stamp and gives no time.
    Date(DateError),
    /// The line is the counter that was awaited, and the caller's function
    /// refused the text of its quantity.
    Quantity(E),
}

/// The number of bytes between the brackets of a time stamp: twelve digits
/// and the letter of the season.
pub const DATA_LEN: usize = 13;

/// The letter that marks daylight saving time, `S`.
pub const SUMMER: u8 = 83;

/// The letter that marks standard time, `W`.
pub const WINTER: u8 = 87;

/// What a time stamp's line begins with.
pub open spec fn date_prefix() -> Seq<u8> {
    "0-0:1.0.0(".spec_bytes()
}

/// What a time stamp's line ends with.
pub open spec fn date_suffix() -> Seq<u8> {
    ")".spec_bytes()
}

/// What a counter's line ends with.
pub open spec fn kwh_suffix() -> Seq<u8> {
    "*kWh)".spec_bytes()
}

/// `line` is `prefix`, some text and `suffix`, in this order and without
/// overlap.
pub open spec fn framed(line: Seq<u8>, prefix: Seq<u8>, suffix: Seq<u8>) -> bool {
    &&& prefix.len() + suffix.len() <= line.len()
    &&& line.take(prefix.len() as int) == prefix
    &&& line.skip(line.len() - suffix.len()) == suffix
}

/// The text of `line` between `prefix` and `suffix`.
pub open spec fn framed_text(line: Seq<u8>, prefix: Seq<u8>, suffix: Seq<u8>) -> Seq<u8> {
    line.subrange(prefix.len() as int, line.len() - suffix.len())
}

fn starts_with(line: &[u8], prefix: &[u8]) -> (r: bool)
    ensures
        r == (prefix@.len() <= line@.len() && line@.take(prefix@.len() as int) == prefix@),
{
    if prefix.len() > line.len() {
        return false;
    }
    let mut i: usize = 0;
    while i < prefix.len()
        invariant
            i <= prefix@.len() <= line@.len(),
            forall|k: int| 0 <= k < i ==> line@[k] == prefix@[k],
        decreases prefix.len() - i,
    {
        if line[i] != prefix[i] {
            assert(line@.take(prefix@.len() as int)[i as int] != prefix@[i as int]);
            return false;
        }
        i += 1;
    }
    assert(line@.take(prefix@.len() as int) =~= prefix@);
    true
}

fn ends_with(line: &[u8], suffix: &[u8]) -> (r: bool)
    ensures
        r == (suffix@.len() <= line@.len() && line@.skip(line@.len() - suffix@.len()) == suffix@),
{
    if suffix.len() > line.len() {
        return false;
    }
    let length = line.len();
    let offset = length - suffix.len();
    let mut i: usize = 0;
    while i < suffix.len()
        invariant
            i <= suffix@.len() <= line@.len(),
            length == line@.len(),
            offset == line@.len() - suffix@.len(),
            forall|k: int| 0 <= k < i ==> line@[offset + k] == suffix@[k],
        decreases suffix.len() - i,
    {
        if line[offset + i] != suffix[i] {
            assert(line@.skip(offset as int)[i as int] != suffix@[i as int]);
            return false;
        }
        i += 1;
    }
    assert(line@.skip(offset as int) =~= suffix@);
    true
}

/// The text of `line` between `prefix` and `suffix`, where the line begins
/// with the one and ends with the other.
pub fn strip_prefix_and_suffix<'a>(line: &'a [u8], prefix: &[u8], suffix: &[u8]) -> (text: Option<
    &'a [u8],
>)
    ensures
        framed(line@, prefix@, suffix@) ==> text is Some && text.unwrap()@ == framed_text(
            line@,
            prefix@,
            suffix@,
        ),
        !framed(line@, prefix@, suffix@) ==> text is None,
{
    if starts_with(line, prefix) && ends_with(line, suffix) && prefix.len() <= line.len()
        - suffix.len() {
        Some(&line[prefix.len()..line.len() - suffix.len()])
    } else {
        None
    }
}

/// The number that a field of a time stamp writes. The year may have
/// either sign; the other fields may have a plus sign.
pub open spec fn field_number(text: Seq<u8>, signed: bool) -> Option<int> {
    if signed {
        signed_number(text, i32::MIN as int, i32::MAX as int)
    } else {
        unsigned_number(text, u32::MAX as int)
    }
}

/// Reads a field of two bytes as a number.
fn read_field(text: &[u8], signed: bool) -> (r: Option<i32>)
    requires
        text@.len() == 2,
    ensures
        r is Some == field_number(text@, signed) is Some,
        r matches Some(v) ==> Some(v as int) == field_number(text@, signed) && -9 <= v <= 99 && (
        !signed ==> v >= 0),
{
    proof {
        if all_digits(unsigned_part(text@, signed)) {
            lemma_two_digits(unsigned_part(text@, signed));
        }
    }
    if signed {
        match parse_i64(text) {
            Some(number) => Some(number as i32),
            None => None,
        }
    } else {
        match parse_usize(text) {
            Some(number) => Some(number as i32),
            None => None,
        }
    }
}

/// Every byte of `text` is an ASCII character.
pub open spec fn all_ascii(text: Seq<u8>) -> bool {
    forall|k: int| 0 <= k < text.len() ==> text[k] < 128
}

fn is_all_ascii(text: &[u8]) -> (r: bool)
    ensures
        r == all_ascii(text@),
{
    let mut i: usize = 0;
    while i < text.len()
        invariant
            i <= text@.len(),
            forall|k: int| 0 <= k < i ==> text@[k] < 128,
        decreases text.len() - i,
    {
        if text[i] >= 128 {
            return false;
        }
        i += 1;
    }
    true
}

/// The moment, in seconds since the Unix epoch, at which clocks that run
/// `offset_secs` seconds ahead of UTC show the given date and time of day,
/// as chrono computes it; `None` where chrono makes no moment of them
/// because the offset is a day or more, or because there is no such date or
/// time of day among the years that it supports.
pub uninterp spec fn local_timestamp(
    offset_secs: i32,
    year: i32,
    month: u32,
    day: u32,
    hour: u32,
    min: u32,
    sec: u32,
) -> Option<i64>;

/// Asks chrono for the moment of a local date and time: `FixedOffset::east_opt`
/// makes the time zone, `TimeZone::with_ymd_and_hms` and
/// `MappedLocalTime::single` the moment, and `DateTime::timestamp` its
/// seconds since the epoch. The result depends on the arguments alone and is
/// known to the library only by its name.
#[verifier::external_body]
fn local_to_timestamp(
    offset_secs: i32,
    year: i32,
    month: u32,
    day: u32,
    hour: u32,
    min: u32,
    sec: u32,
) -> (found: Option<i64>)
    ensures
        found == local_timestamp(offset_secs, year, month, day, hour, min, sec),
{
    match FixedOffset::east_opt(offset_secs) {
        Some(zone) => match zone.with_ymd_and_hms(year, month, day, hour, min, sec).single() {
            Some(moment) => Some(moment.timestamp()),
            None => None,
        },
        None => None,
    }
}

/// What a time stamp gives once its moment was looked up: the moment, or an
/// error where there is none.
pub fn date_time_from(found: Option<i64>) -> (r: Result<Option<i64>, DateError>)
    ensures
        r == (match found {
            Some(moment) => Ok::<Option<i64>, DateError>(Some(moment)),
            None => Err(DateError::Date),
        }),
{
    match found {
        Some(moment) => Ok(Some(moment)),
        None => Err(DateError::Date),
    }
}

/// Whether `line` is shaped like a time stamp: thirteen ASCII characters
/// between the brackets, the last of which names the season.
pub open spec fn is_date_line(line: Seq<u8>) -> bool {
    let data = framed_text(line, date_prefix(), date_suffix());
    &&& framed(line, date_prefix(), date_suffix())
    &&& data.len() == DATA_LEN
    &&& all_ascii(data)
    &&& (data[12] == SUMMER || data[12] == WINTER)
}

/// The time that `line` gives: nothing where it is not shaped like a time
/// stamp, an error where a field is no number or the fields name no moment,
/// else the moment. Years count from 2000; the clock is two hours ahead of
/// UTC in summer and one hour in winter.
pub open spec fn date_time_of(line: Seq<u8>) -> Result<Option<i64>, DateError> {
    let data = framed_text(line, date_prefix(), date_suffix());
    if is_date_line(line) {
        let yy = field_number(data.subrange(0, 2), true);
        let mm = field_number(data.subrange(2, 4), false);
        let dd = field_number(data.subrange(4, 6), false);
        let hours = field_number(data.subrange(6, 8), false);
        let mins = field_number(data.subrange(8, 10), false);
        let secs = field_number(data.subrange(10, 12), false);
        if yy is None || mm is None || dd is None || hours is None || mins is None
            || secs is None {
            Err(DateError::Number)
        } else {
            match local_timestamp(
                if data[12] == SUMMER {
                    7200i32
                } else {
                    3600i32
                },
                (2000 + yy.unwrap()) as i32,
                mm.unwrap() as u32,
                dd.unwrap() as u32,
                hours.unwrap() as u32,
                mins.unwrap() as u32,
                secs.unwrap() as u32,
            ) {
                Some(moment) => Ok(Some(moment)),
                None => Err(DateError::Date),
            }
        }
    } else {
        Ok(None)
    }
}

/// Reads the time of a datagram from its first line.
pub fn parse_date_time(line: &[u8]) -> (r: Result<Option<i64>, DateError>)
    ensures
        r == date_time_of(line@),
{
    match strip_prefix_and_suffix(line, "0-0:1.0.0(".as_bytes(), ")".as_bytes()) {
        Some(data) => {
            if data.len() == DATA_LEN && is_all_ascii(data) && (data[12] == SUMMER || data[12]
                == WINTER) {
                let yy = match read_field(&data[0..2], true) {
                    Some(v) => 2000 + v,
                    None => { return Err(DateError::Number) },
                };
                let mm = match read_field(&data[2..4], false) {
                    Some(v) => v as u32,
                    None => { return Err(DateError::Number) },
                };
                let dd = match read_field(&data[4..6], false) {
                    Some(v) => v as u32,
                    None => { return Err(DateError::Number) },
                };
                let hours = match read_field(&data[6..8], false) {
                    Some(v) => v as u32,
                    None => { return Err(DateError::Number) },
                };
                let mins = match read_field(&data[8..10], false) {
                    Some(v) => v as u32,
                    None => { return Err(DateError::Number) },
                };
                let secs = match read_field(&data[10..12], false) {
                    Some(v) => v as u32,
                    None => { return Err(DateError::Number) },
                };
                let hours_east: i32 = if data[12] == SUMMER {
                    2
                } else {
                    1
                };
                date_time_from(local_to_timestamp(hours_east * 3600, yy, mm, dd, hours, mins, secs))
            } else {
                Ok(None)
            }
        },
        None => Ok(None),
    }
}

/// What reading a counter from a line may give: nothing where the line is
/// not `prefix`, some text and the unit; else whatever `parse` makes of that
/// text.
pub open spec fn kwh_read<Q, E, F: Fn(&[u8]) -> Result<Q, E>>(
    line: Seq<u8>,
    prefix: Seq<u8>,
    parse: &F,
    read: Result<Option<Q>, E>,
) -> bool {
    if framed(line, prefix, kwh_suffix()) {
        exists|text: &[u8], quantity: Result<Q, E>|
            {
                &&& text@ == framed_text(line, prefix, kwh_suffix())
                &&& #[trigger] parse.ensures((text,), quantity)
                &&& read == match quantity {
                    Ok(kwh) => Ok::<Option<Q>, E>(Some(kwh)),
                    Err(e) => Err(e),
                }
            }
    } else {
        read == Ok::<Option<Q>, E>(None)
    }
}

/// Reads the quantity of the counter that `prefix` names from `line`.
/// `parse` turns the text between the bracket and the unit into a quantity.
pub fn parse_kwh<Q, E, F: Fn(&[u8]) -> Result<Q, E>>(line: &[u8], prefix: &[u8], parse: &F) -> (read:
    Result<Option<Q>, E>)
    requires
        forall|text: &[u8]| parse.requires((text,)),
    ensures
        kwh_read(line@, prefix@, parse, read),
{
    match strip_prefix_and_suffix(line, prefix, "*kWh)".as_bytes()) {
        Some(kwh) => match parse(kwh) {
            Ok(quantity) => Ok(Some(quantity)),
            Err(e) => Err(e),
        },
        None => Ok(None),
    }
}

/// The datagram that `partial` holds where no line is missing, else
/// `partial` itself.
pub open spec fn completed<Q>(partial: PartialP1Measurement<Q>) -> Result<
    CompleteP1Measurement<Q>,
    PartialP1Measurement<Q>,
> {
    if partial.timestamp is Some && partial.peak_hour_consumption is Some
        && partial.off_hour_consumption is Some && partial.peak_hour_injection is Some
        && partial.off_hour_injection is Some {
        Ok(
            CompleteP1Measurement {
                timestamp: partial.timestamp.unwrap(),
                peak_hour_consumption: partial.peak_hour_consumption.unwrap(),
                off_hour_consumption: partial.off_hour_consumption.unwrap(),
                peak_hour_injection: partial.peak_hour_injection.unwrap(),
                off_hour_injection: partial.off_hour_injection.unwrap(),
            },
        )
    } else {
        Err(partial)
    }
}

/// Turns a datagram of which every line was read into a measurement, and
/// hands any other back.
pub fn complete_p1_measurement<Q>(partial: PartialP1Measurement<Q>) -> (r: Result<
    CompleteP1Measurement<Q>,
    PartialP1Measurement<Q>,
>)
    ensures
        r == completed(partial),
{
    match partial {
        PartialP1Measurement {
            timestamp: Some(timestamp),
            peak_hour_consumption: Some(peak_hour_consumption),
            off_hour_consumption: Some(off_hour_consumption),
            peak_hour_injection: Some(peak_hour_injection),
            off_hour_injection: Some(off_hour_injection),
        } => Ok(
            CompleteP1Measurement {
                timestamp,
                peak_hour_consumption,
                off_hour_consumption,
                peak_hour_injection,
                off_hour_injection,
            },
        ),
        _ => Err(partial),
    }
}

/// The line that a datagram awaits next.
pub enum Awaited {
    Date,
    PeakConsumption,
    OffConsumption,
    PeakInjection,
    OffInjection,
    Nothing,
}

/// The line that `partial` awaits: the first whose field is absent.
pub open spec fn awaited<Q>(partial: PartialP1Measurement<Q>) -> Awaited {
    if partial.timestamp is None {
        Awaited::Date
    } else if partial.peak_hour_consumption is None {
        Awaited::PeakConsumption
    } else if partial.off_hour_consumption is None {
        Awaited::OffConsumption
    } else if partial.peak_hour_injection is None {
        Awaited::PeakInjection
    } else if partial.off_hour_injection is None {
        Awaited::OffInjection
    } else {
        Awaited::Nothing
    }
}

/// What the line of a counter begins with.
pub open spec fn counter_prefix(counter: Awaited) -> Seq<u8> {
    match counter {
        Awaited::PeakConsumption => "1-0:1.8.1(".spec_bytes(),
        Awaited::OffConsumption => "1-0:1.8.2(".spec_bytes(),
        Awaited::PeakInjection => "1-0:2.8.1(".spec_bytes(),
        Awaited::OffInjection => "1-0:2.8.2(".spec_bytes(),
        _ => Seq::empty(),
    }
}

/// A datagram of which only the time was read.
pub open spec fn begun<Q>(timestamp: i64) -> PartialP1Measurement<Q> {
    PartialP1Measurement {
        timestamp: Some(timestamp),
        peak_hour_consumption: None,
        off_hour_consumption: None,
        peak_hour_injection: None,
        off_hour_injection: None,
    }
}

/// The datagram `partial` once the quantity `kwh` of the awaited counter
/// was read: the fields before that counter stay, those after it are absent.
pub open spec fn with_counter<Q>(
    partial: PartialP1Measurement<Q>,
    counter: Awaited,
    kwh: Q,
) -> PartialP1Measurement<Q> {
    match counter {
        Awaited::PeakConsumption => PartialP1Measurement {
            timestamp: partial.timestamp,
            peak_hour_consumption: Some(kwh),
            off_hour_consumption: None,
            peak_hour_injection: None,
            off_hour_injection: None,
        },
        Awaited::OffConsumption => PartialP1Measurement {
            timestamp: partial.timestamp,
            peak_hour_consumption: partial.peak_hour_consumption,
            off_hour_consumption: Some(kwh),
            peak_hour_injection: None,
            off_hour_injection: None,
        },
        Awaited::PeakInjection => PartialP1Measurement {
            timestamp: partial.timestamp,
            peak_hour_consumption: partial.peak_hour_consumption,
            off_hour_consumption: partial.off_hour_consumption,
            peak_hour_injection: Some(kwh),
            off_hour_injection: None,
        },
        Awaited::OffInjection => PartialP1Measurement {
            timestamp: partial.timestamp,
            peak_hour_consumption: partial.peak_hour_consumption,
            off_hour_consumption: partial.off_hour_consumption,
            peak_hour_injection: partial.peak_hour_injection,
            off_hour_injection: Some(kwh),
        },
        _ => partial,
    }
}

/// What a datagram may become through a line. A datagram without a time
/// takes the time of a time stamp and ignores every other line. A datagram
/// with a time takes the quantity of the counter that it awaits and ignores
/// every other line, time stamps too. A line that is refused ends the
/// reading.
pub open spec fn stepped<Q, E, F: Fn(&[u8]) -> Result<Q, E>>(
    partial: PartialP1Measurement<Q>,
    line: Seq<u8>,
    parse: &F,
    next: Result<PartialP1Measurement<Q>, P1Error<E>>,
) -> bool {
    match awaited(partial) {
        Awaited::Date => next == match date_time_of(line) {
            Ok(Some(timestamp)) => Ok::<PartialP1Measurement<Q>, P1Error<E>>(begun(timestamp)),
            Ok(None) => Ok(partial),
            Err(e) => Err(P1Error::Date(e)),
        },
        Awaited::Nothing => next == Ok::<PartialP1Measurement<Q>, P1Error<E>>(partial),
        counter => exists|read: Result<Option<Q>, E>|
            {
                &&& #[trigger] kwh_read(line, counter_prefix(counter), parse, read)
                &&& next == match read {
                    Ok(Some(kwh)) => Ok::<PartialP1Measurement<Q>, P1Error<E>>(
                        with_counter(partial, counter, kwh),
                    ),
                    Ok(None) => Ok(partial),
                    Err(e) => Err(P1Error::Quantity(e)),
                }
            },
    }
}

/// What a datagram becomes once its first line was read: a datagram with the
/// time that the line gives, the same datagram where the line gives none,
/// and an error where the line is refused.
pub fn take_date<Q, E>(partial: PartialP1Measurement<Q>, date: Result<Option<i64>, DateError>) -> (next:
    Result<PartialP1Measurement<Q>, P1Error<E>>)
    ensures
        next == (match date {
            Ok(Some(timestamp)) => Ok::<PartialP1Measurement<Q>, P1Error<E>>(begun(timestamp)),
            Ok(None) => Ok(partial),
            Err(e) => Err(P1Error::Date(e)),
        }),
{
    match date {
        Ok(Some(timestamp)) => Ok(
            PartialP1Measurement {
                timestamp: Some(timestamp),
                peak_hour_consumption: None,
                off_hour_consumption: None,
                peak_hour_injection: None,
                off_hour_injection: None,
            },
        ),
        Ok(None) => Ok(partial),
        Err(e) => Err(P1Error::Date(e)),
    }
}

/// What a datagram becomes once the line of the counter that it awaits was
/// read: the datagram with the quantity that the line gives, the same
/// datagram where the line gives none, and an error where the quantity is
/// refused.
pub fn take_quantity<Q, E>(partial: PartialP1Measurement<Q>, read: Result<Option<Q>, E>) -> (next:
    Result<PartialP1Measurement<Q>, P1Error<E>>)
    ensures
        next == (match read {
            Ok(Some(kwh)) => Ok::<PartialP1Measurement<Q>, P1Error<E>>(
                with_counter(partial, awaited(partial), kwh),
            ),
            Ok(None) => Ok(partial),
            Err(e) => Err(P1Error::Quantity(e)),
        }),
{
    let kwh = match read {
        Ok(Some(kwh)) => kwh,
        Ok(None) => { return Ok(partial) },
        Err(e) => { return Err(P1Error::Quantity(e)) },
    };
    if partial.timestamp.is_none() {
        Ok(partial)
    } else if partial.peak_hour_consumption.is_none() {
        Ok(
            PartialP1Measurement {
                timestamp: partial.timestamp,
                peak_hour_consumption: Some(kwh),
                off_hour_consumption: None,
                peak_hour_injection: None,
                off_hour_injection: None,
            },
        )
    } else if partial.off_hour_consumption.is_none() {
        Ok(
            PartialP1Measurement {
                timestamp: partial.timestamp,
                peak_hour_consumption: partial.peak_hour_consumption,
                off_hour_consumption: Some(kwh),
                peak_hour_injection: None,
                off_hour_injection: None,
            },
        )
    } else if partial.peak_hour_injection.is_none() {
        Ok(
            PartialP1Measurement {
                timestamp: partial.timestamp,
                peak_hour_consumption: partial.peak_hour_consumption,
                off_hour_consumption: partial.off_hour_consumption,
                peak_hour_injection: Some(kwh),
                off_hour_injection: None,
            },
        )
    } else if partial.off_hour_injection.is_none() {
        Ok(
            PartialP1Measurement {
                timestamp: partial.timestamp,
                peak_hour_consumption: partial.peak_hour_consumption,
                off_hour_consumption: partial.off_hour_consumption,
                peak_hour_injection: partial.peak_hour_injection,
                off_hour_injection: Some(kwh),
            },
        )
    } else {
        Ok(partial)
    }
}

/// What the line of the counter that `partial` awaits begins with, if it
/// awaits a counter.
fn awaited_prefix<Q>(partial: &PartialP1Measurement<Q>) -> (prefix: Option<&'static [u8]>)
    ensures
        prefix is Some == (awaited(*partial) != Awaited::Date && awaited(*partial)
            != Awaited::Nothing),
        prefix matches Some(text) ==> text@ == counter_prefix(awaited(*partial)),
{
    if partial.timestamp.is_none() {
        None
    } else if partial.peak_hour_consumption.is_none() {
        Some("1-0:1.8.1(".as_bytes())
    } else if partial.off_hour_consumption.is_none() {
        Some("1-0:1.8.2(".as_bytes())
    } else if partial.peak_hour_injection.is_none() {
        Some("1-0:2.8.1(".as_bytes())
    } else if partial.off_hour_injection.is_none() {
        Some("1-0:2.8.2(".as_bytes())
    } else {
        None
    }
}

/// Takes one line into a datagram.
pub fn step_partial_p1_measurement<Q, E, F: Fn(&[u8]) -> Result<Q, E>>(
    partial: PartialP1Measurement<Q>,
    line: &[u8],
    parse: &F,
) -> (next: Result<PartialP1Measurement<Q>, P1Error<E>>)
    requires
        forall|text: &[u8]| parse.requires((text,)),
    ensures
        stepped(partial, line@, parse, next),
{
    if partial.timestamp.is_none() {
        take_date(partial, parse_date_time(line))
    } else {
        match awaited_prefix(&partial) {
            Some(prefix) => {
                let read = parse_kwh(line, prefix, parse);
                assert(kwh_read(line@, counter_prefix(awaited(partial)), parse, read));
                take_quantity(partial, read)
            },
            None => Ok(partial),
        }
    }
}

/// A datagram of which no line was read.
pub open spec fn blank<Q>() -> PartialP1Measurement<Q> {
    PartialP1Measurement {
        timestamp: None,
        peak_hour_consumption: None,
        off_hour_consumption: None,
        peak_hour_injection: None,
        off_hour_injection: None,
    }
}

/// What reading the lines from index `at` on into `partial` may give: the
/// lines are taken one by one; the first line that is refused ends the
/// reading with its error, the first line that completes the datagram ends
/// it with the measurement, and where the lines run out there is none.
pub open spec fn read_from<Q, E, F: Fn(&[u8]) -> Result<Q, E>>(
    lines: Seq<&[u8]>,
    at: int,
    partial: PartialP1Measurement<Q>,
    parse: &F,
    result: Result<Option<CompleteP1Measurement<Q>>, P1Error<E>>,
) -> bool
    decreases lines.len() - at,
{
    if at < 0 || at >= lines.len() {
        result == Ok::<Option<CompleteP1Measurement<Q>>, P1Error<E>>(None)
    } else {
        exists|next: Result<PartialP1Measurement<Q>, P1Error<E>>|
            {
                &&& #[trigger] stepped(partial, lines[at]@, parse, next)
                &&& match next {
                    Err(e) => result == Err::<Option<CompleteP1Measurement<Q>>, P1Error<E>>(e),
                    Ok(taken) => match completed(taken) {
                        Ok(complete) => result == Ok::<
                            Option<CompleteP1Measurement<Q>>,
                            P1Error<E>,
                        >(Some(complete)),
                        Err(rest) => read_from(lines, at + 1, rest, parse, result),
                    },
                }
            }
    }
}

/// Reads the first complete datagram from `lines`. Lines before the first
/// time stamp, and lines that are not the one awaited, are skipped.
pub fn parse_lines<Q, E, F: Fn(&[u8]) -> Result<Q, E>>(lines: &[&[u8]], parse: &F) -> (result:
    Result<Option<CompleteP1Measurement<Q>>, P1Error<E>>)
    requires
        forall|text: &[u8]| parse.requires((text,)),
    ensures
        read_from(lines@, 0, blank(), parse, result),
{
    let mut partial = PartialP1Measurement {
        timestamp: None,
        peak_hour_consumption: None,
        off_hour_consumption: None,
        peak_hour_injection: None,
        off_hour_injection: None,
    };
    let mut at: usize = 0;
    while at < lines.len()
        invariant
            at <= lines@.len(),
            forall|text: &[u8]| parse.requires((text,)),
            forall|r: Result<Option<CompleteP1Measurement<Q>>, P1Error<E>>|
                read_from(lines@, at as int, partial, parse, r) ==> read_from(
                    lines@,
                    0,
                    blank(),
                    parse,
                    r,
                ),
        decreases lines.len() - at,
    {
        let ghost before = partial;
        let next = step_partial_p1_measurement(partial, lines[at], parse);
        match next {
            Err(e) => {
                assert(read_from(lines@, at as int, before, parse, Err(e)));
                return Err(e);
            },
            Ok(taken) => match complete_p1_measurement(taken) {
                Ok(complete) => {
                    assert(read_from(lines@, at as int, before, parse, Ok(Some(complete))));
                    return Ok(Some(complete));
                },
                Err(new_partial) => {
                    assert forall|r: Result<Option<CompleteP1Measurement<Q>>, P1Error<E>>|
                        read_from(lines@, at + 1, new_partial, parse, r) implies read_from(
                        lines@,
                        0,
                        blank(),
                        parse,
                        r,
                    ) by {
                        assert(read_from(lines@, at as int, before, parse, r));
                    }
                    partial = new_partial;
                },
            },
        }
        at += 1;
    }
    assert(read_from(lines@, at as int, partial, parse, Ok(None)));
    Ok(None)
}

} // verus!

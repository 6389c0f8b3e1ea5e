//! Points in time, held as plain integers, and their textual forms.

use chrono::format::ParseError;
use chrono::DateTime;
use chrono::FixedOffset;
use chrono::Local;
use vstd::prelude::*;

verus! {

/// The error that chrono reports for a timestamp it cannot read.
#[verifier::external_type_specification]
#[verifier::external_body]
pub struct ExParseError(ParseError);

/// The first second that a calendar date can hold: midnight, 1 January of the year -262143.
pub const MIN_SECONDS: i64 = -8_334_601_228_800;

/// The last second that a calendar date can hold: 23:59:59, 31 December of the year 262142.
pub const MAX_SECONDS: i64 = 8_210_266_876_799;

pub const NANOS_PER_SECOND: u32 = 1_000_000_000;

/// Whether `secs` seconds and `nanos` nanoseconds after the Unix epoch name an instant
/// that a calendar date and time of day can hold. A nanosecond count of a second or more
/// stands for a leap second, which can only follow the 59th second of a minute.
pub open spec fn valid_instant(secs: i64, nanos: u32) -> bool {
    &&& MIN_SECONDS <= secs <= MAX_SECONDS
    &&& (nanos < NANOS_PER_SECOND || (nanos < 2 * NANOS_PER_SECOND && secs % 60 == 59))
}

/// The RFC 3339 text of the instant `secs`, `nanos`, in UTC.
pub uninterp spec fn rfc3339_text(secs: i64, nanos: u32) -> Seq<char>;

/// The instant that an RFC 3339 text stands for, if it is one.
pub uninterp spec fn rfc3339_value(text: Seq<char>) -> Option<(i64, u32)>;

/// Calls `chrono::DateTime::parse_from_rfc3339` and hands the result out as seconds and
/// nanoseconds since the Unix epoch, UTC. Trusted: the outcome is `rfc3339_value` of the
/// text, and the instant of a text that chrono accepts is one that
/// `chrono::DateTime::from_timestamp` accepts.
#[verifier::external_body]
fn parse_rfc3339(text: &str) -> (r: Result<(i64, u32), ParseError>)
    ensures
        match r {
            Ok(instant) => rfc3339_value(text@) == Some(instant) && valid_instant(
                instant.0,
                instant.1,
            ),
            Err(_) => rfc3339_value(text@) is None,
        },
{
    match DateTime::parse_from_rfc3339(text) {
        Ok(parsed) => {
            let utc = parsed.to_utc();
            Ok((utc.timestamp(), utc.timestamp_subsec_nanos()))
        },
        Err(e) => Err(e),
    }
}

/// Calls `chrono::DateTime::to_rfc3339` on the instant. Trusted: the text is
/// `rfc3339_text` of the instant.
#[verifier::external_body]
fn format_rfc3339(secs: i64, nanos: u32) -> (text: String)
    requires
        valid_instant(secs, nanos),
    ensures
        text@ == rfc3339_text(secs, nanos),
{
    DateTime::from_timestamp(secs, nanos).expect("instant in range").to_rfc3339()
}

/// Whether `offset` seconds east of UTC is an offset that a time zone can have:
/// less than a day either way.
pub open spec fn valid_offset(offset: i32) -> bool {
    -86_400 < offset < 86_400
}

/// The instant `secs`, `nanos` as a clock `offset` seconds east of UTC shows it,
/// as month/day/year hour:minute:second.
pub uninterp spec fn display_text(secs: i64, nanos: u32, offset: i32) -> Seq<char>;

/// Whether `text` shows the instant in some time zone: as a clock at some
/// valid offset from UTC shows it, as month/day/year hour:minute:second.
pub open spec fn is_local_text(instant: (i64, u32), text: Seq<char>) -> bool {
    exists|offset: i32|
        valid_offset(offset) && text == #[trigger] display_text(instant.0, instant.1, offset)
}

/// Calls `chrono::DateTime::with_timezone` with the machine's time zone and
/// `chrono::FixedOffset::local_minus_utc` on the offset that the zone has at
/// the instant. The offset depends on the machine. Trusted: it is one that
/// `chrono::FixedOffset::east_opt` accepts, as every offset that chrono holds is.
#[verifier::external_body]
fn local_offset(secs: i64, nanos: u32) -> (offset: i32)
    requires
        valid_instant(secs, nanos),
    ensures
        valid_offset(offset),
{
    DateTime::from_timestamp(secs, nanos).expect("instant in range").with_timezone(
        &Local,
    ).offset().local_minus_utc()
}

/// Calls `chrono::DateTime::with_timezone` with the zone of `chrono::FixedOffset::east_opt`
/// and `chrono::DateTime::format` with the pattern month/day/year hour:minute:second.
/// Trusted: the text is `display_text` of the instant and the offset.
#[verifier::external_body]
fn format_at_offset(secs: i64, nanos: u32, offset: i32) -> (text: String)
    requires
        valid_instant(secs, nanos),
        valid_offset(offset),
    ensures
        text@ == display_text(secs, nanos, offset),
{
    let zone = FixedOffset::east_opt(offset).expect("offset within a day");
    DateTime::from_timestamp(secs, nanos).expect("instant in range").with_timezone(&zone).format(
        "%m/%d/%Y %H:%M:%S",
    ).to_string()
}

/// A point in time: seconds and nanoseconds since the Unix epoch, in UTC.
#[derive(Clone, Copy, Debug, PartialEq, Eq)]
pub struct Deadline {
    secs: i64,
    nanos: u32,
}

impl View for Deadline {
    type V = (i64, u32);

    /// Whole seconds since the Unix epoch, and nanoseconds since the last whole second.
    closed spec fn view(&self) -> (i64, u32) {
        (self.secs, self.nanos)
    }
}

/// Whether the instant `a` comes strictly before the instant `b`.
pub open spec fn earlier(a: (i64, u32), b: (i64, u32)) -> bool {
    a.0 < b.0 || (a.0 == b.0 && a.1 < b.1)
}

impl Deadline {
    #[verifier::type_invariant]
    spec fn in_range(self) -> bool {
        valid_instant(self.secs, self.nanos)
    }

    /// Whole seconds since the Unix epoch.
    pub open spec fn secs(self) -> i64 {
        self@.0
    }

    /// Nanoseconds since the last whole second.
    pub open spec fn nanos(self) -> u32 {
        self@.1
    }

    /// Whether the value names an instant that a calendar date can hold.
    /// Every `Deadline` that executable code holds does.
    pub open spec fn valid(self) -> bool {
        valid_instant(self.secs(), self.nanos())
    }

    /// The instant as RFC 3339 text.
    pub open spec fn text(self) -> Seq<char> {
        rfc3339_text(self.secs(), self.nanos())
    }

    /// The deadline `secs` seconds and `nanos` nanoseconds after the Unix epoch,
    /// if a calendar date can hold that instant.
    pub fn from_timestamp(secs: i64, nanos: u32) -> (r: Option<Deadline>)
        ensures
            r is Some <==> valid_instant(secs, nanos),
            r matches Some(d) ==> d@ == (secs, nanos),
    {
        if secs < MIN_SECONDS || secs > MAX_SECONDS {
            return None;
        }
        if nanos < NANOS_PER_SECOND {
            return Some(Deadline { secs, nanos });
        }
        if nanos >= 2 * NANOS_PER_SECOND {
            return None;
        }
        match secs.checked_rem_euclid(60) {
            Some(second) => if second == 59 {
                Some(Deadline { secs, nanos })
            } else {
                None
            },
            None => None,
        }
    }

    /// Reads an RFC 3339 timestamp.
    pub fn parse_from_rfc3339(text: &str) -> (r: Result<Deadline, ParseError>)
        ensures
            r is Ok <==> rfc3339_value(text@) is Some,
            r matches Ok(d) ==> rfc3339_value(text@) == Some(d@) && d.valid(),
    {
        match parse_rfc3339(text) {
            Ok(instant) => Ok(Deadline { secs: instant.0, nanos: instant.1 }),
            Err(e) => Err(e),
        }
    }

    /// Whole seconds since the Unix epoch.
    pub fn timestamp(&self) -> (secs: i64)
        ensures
            secs == self.secs(),
            self.valid(),
    {
        proof {
            use_type_invariant(self);
        }
        self.secs
    }

    /// Nanoseconds since the last whole second; a second or more in a leap second.
    pub fn timestamp_subsec_nanos(&self) -> (nanos: u32)
        ensures
            nanos == self.nanos(),
            self.valid(),
    {
        proof {
            use_type_invariant(self);
        }
        self.nanos
    }

    /// The instant as RFC 3339 text, in UTC.
    pub fn to_rfc3339(&self) -> (text: String)
        ensures
            text@ == self.text(),
    {
        proof {
            use_type_invariant(self);
        }
        format_rfc3339(self.secs, self.nanos)
    }

    /// The instant as a clock `offset` seconds east of UTC shows it, as
    /// month/day/year hour:minute:second, if a time zone can have that offset.
    pub fn to_text_at(&self, offset: i32) -> (text: Option<String>)
        ensures
            text is Some <==> valid_offset(offset),
            text matches Some(shown) ==> shown@ == display_text(self@.0, self@.1, offset),
    {
        proof {
            use_type_invariant(self);
        }
        if -86_400 < offset && offset < 86_400 {
            Some(format_at_offset(self.secs, self.nanos, offset))
        } else {
            None
        }
    }

    /// The instant in the machine's time zone, as month/day/year hour:minute:second:
    /// as a clock shows it at the offset from UTC that the zone has at the instant.
    pub fn to_local_text(&self) -> (text: String)
        ensures
            is_local_text(self@, text@),
    {
        proof {
            use_type_invariant(self);
        }
        let offset = local_offset(self.secs, self.nanos);
        let text = format_at_offset(self.secs, self.nanos, offset);
        assert(valid_offset(offset) && text@ == display_text(self@.0, self@.1, offset));
        text
    }

    /// Whether `self` comes strictly before `other`.
    pub fn is_before(&self, other: &Deadline) -> (b: bool)
        ensures
            b == earlier(self@, other@),
    {
        self.secs < other.secs || (self.secs == other.secs && self.nanos < other.nanos)
    }
}

} // verus!

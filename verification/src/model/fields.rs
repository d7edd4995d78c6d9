//! Reading the columns of a stored row: timestamps, JSON metadata and ids,
//! each failing with the message of the first column that does not read.

use vstd::prelude::*;

use crate::primitives::id::spec_decode;
use crate::primitives::Id;

verus! {

/// An instant, as seconds and nanoseconds since the Unix epoch in UTC.
#[derive(Clone, Copy, Debug, PartialEq, Eq, Structural)]
pub struct Timestamp {
    pub secs: i64,
    pub nanos: u32,
}

/// What chrono reads from an RFC 3339 timestamp: the instant it denotes (in
/// seconds and nanoseconds since the Unix epoch), or the message of the
/// error it reports.
pub uninterp spec fn rfc3339_instant(s: Seq<char>) -> Result<(i64, u32), Seq<char>>;

/// Parses an RFC 3339 timestamp with chrono's
/// `DateTime::parse_from_rfc3339`, taken in UTC, as seconds and nanoseconds
/// since the epoch; on failure, the error's message. Claimed: the outcome is
/// the one `rfc3339_instant` names for the text.
#[verifier::external_body]
fn parse_rfc3339(s: &str) -> (r: Result<(i64, u32), String>)
    ensures
        match r {
            Ok(t) => rfc3339_instant(s@) == Ok::<(i64, u32), Seq<char>>(t),
            Err(e) => rfc3339_instant(s@) == Err::<(i64, u32), Seq<char>>(e@),
        },
{
    match chrono::DateTime::parse_from_rfc3339(s) {
        Ok(dt) => {
            let utc = dt.with_timezone(&chrono::Utc);
            Ok((utc.timestamp(), utc.timestamp_subsec_nanos()))
        },
        Err(e) => Err(e.to_string()),
    }
}

/// The message serde_json reports for a text that is not JSON; none for one
/// that is.
pub uninterp spec fn json_error(s: Seq<char>) -> Option<Seq<char>>;

/// Parses JSON text with `serde_json::from_str` into a `serde_json::Value`,
/// keeping only whether it parsed; on failure, the error's message.
/// Claimed: it fails exactly when `json_error` names a message for the text,
/// with that message.
#[verifier::external_body]
pub(crate) fn check_json(s: &str) -> (r: Result<(), String>)
    ensures
        r is Ok <==> json_error(s@) is None,
        r matches Err(e) ==> json_error(s@) == Some(e@),
{
    match serde_json::from_str::<serde_json::Value>(s) {
        Ok(_) => Ok(()),
        Err(e) => Err(e.to_string()),
    }
}

/// Why a timestamp column does not read, if it does not.
pub open spec fn instant_error(s: Seq<char>) -> Option<Seq<char>> {
    match rfc3339_instant(s) {
        Ok(_) => None,
        Err(e) => Some(e),
    }
}

/// Why an optional timestamp column does not read, if it does not.
pub open spec fn opt_instant_error(s: Option<String>) -> Option<Seq<char>> {
    match s {
        Some(t) => instant_error(t@),
        None => None,
    }
}

/// The instant a timestamp column reads as (meaningful when it reads).
pub open spec fn instant_of(s: Seq<char>) -> Timestamp {
    match rfc3339_instant(s) {
        Ok((secs, nanos)) => Timestamp { secs, nanos },
        Err(_) => Timestamp { secs: 0, nanos: 0 },
    }
}

/// The instant an optional timestamp column reads as.
pub open spec fn opt_instant_of(s: Option<String>) -> Option<Timestamp> {
    match s {
        Some(t) => Some(instant_of(t@)),
        None => None,
    }
}

/// Why an id column does not read, if it does not.
pub open spec fn id_error(s: Seq<char>) -> Option<Seq<char>> {
    match spec_decode(vstd::utf8::encode_utf8(s)) {
        Ok(_) => None,
        Err(e) => Some(e),
    }
}

/// Why an optional id column does not read, if it does not.
pub open spec fn opt_id_error(s: Option<String>) -> Option<Seq<char>> {
    match s {
        Some(t) => id_error(t@),
        None => None,
    }
}

/// Whether `id` is what an optional id column reads as.
pub open spec fn reads_as_opt_id(s: Option<String>, id: Option<Id>) -> bool {
    match s {
        Some(t) => id matches Some(i) && reads_as_id(t@, i),
        None => id is None,
    }
}

/// Why an optional JSON column does not read, if it does not.
pub open spec fn opt_json_error(s: Option<String>) -> Option<Seq<char>> {
    match s {
        Some(t) => json_error(t@),
        None => None,
    }
}

/// Whether `id` is the id an id column reads as.
pub open spec fn reads_as_id(s: Seq<char>, id: Id) -> bool {
    spec_decode(vstd::utf8::encode_utf8(s)) == Ok::<Seq<u8>, Seq<char>>(id@)
}

/// The first of the column errors, in column order.
pub open spec fn first_error(errs: Seq<Option<Seq<char>>>) -> Option<Seq<char>>
    decreases errs.len(),
{
    if errs.len() == 0 {
        None
    } else {
        match errs[0] {
            Some(e) => Some(e),
            None => first_error(errs.drop_first()),
        }
    }
}

/// Reads a timestamp column.
pub(crate) fn read_instant(s: &str) -> (r: Result<Timestamp, String>)
    ensures
        match r {
            Ok(t) => instant_error(s@) is None && t == instant_of(s@),
            Err(e) => instant_error(s@) == Some(e@),
        },
{
    match parse_rfc3339(s) {
        Ok((secs, nanos)) => Ok(Timestamp { secs, nanos }),
        Err(e) => Err(e),
    }
}

/// Reads an optional timestamp column.
pub(crate) fn read_opt_instant(s: &Option<String>) -> (r: Result<Option<Timestamp>, String>)
    ensures
        match r {
            Ok(t) => opt_instant_error(*s) is None && t == opt_instant_of(*s),
            Err(e) => opt_instant_error(*s) == Some(e@),
        },
{
    match s {
        Some(t) => match read_instant(t.as_str()) {
            Ok(v) => Ok(Some(v)),
            Err(e) => Err(e),
        },
        None => Ok(None),
    }
}

/// Reads an optional id column.
pub(crate) fn read_opt_id(s: &Option<String>) -> (r: Result<Option<Id>, String>)
    ensures
        match r {
            Ok(id) => opt_id_error(*s) is None && reads_as_opt_id(*s, id),
            Err(e) => opt_id_error(*s) == Some(e@),
        },
{
    match s {
        Some(t) => match Id::parse_str(t.as_str()) {
            Ok(id) => Ok(Some(id)),
            Err(e) => Err(e),
        },
        None => Ok(None),
    }
}

/// Checks that an optional JSON column holds JSON when present.
pub(crate) fn check_opt_json(s: &Option<String>) -> (r: Result<(), String>)
    ensures
        r is Ok <==> opt_json_error(*s) is None,
        r matches Err(e) ==> opt_json_error(*s) == Some(e@),
{
    match s {
        Some(t) => check_json(t.as_str()),
        None => Ok(()),
    }
}

} // verus!

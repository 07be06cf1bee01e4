use iso8601_timestamp::Timestamp;
use vstd::prelude::*;
use crate::error::TailError;

verus! {

/// Where in each partition a read starts.
#[derive(Clone, Copy, Debug, PartialEq, Eq, Structural)]
pub enum ReadMode {
    /// Every partition is read from its low watermark.
    FromBeginning,
    /// Each partition, on its own, yields at most this many of its newest messages.
    LastN(u64),
    /// Each partition is read from the first message written at or after this
    /// instant, given in milliseconds since the Unix epoch.
    Since(i64),
}

/// The mode that a request for at most `limit` messages per partition, or for
/// the messages since an instant, asks for. The two cannot be combined.
pub open spec fn requested_mode(limit: Option<u64>, since: Option<i64>) -> Result<
    ReadMode,
    TailError,
> {
    match (limit, since) {
        (Some(_), Some(_)) => Err(TailError::Config),
        (Some(count), None) => Ok(ReadMode::LastN(count)),
        (None, Some(millis)) => Ok(ReadMode::Since(millis)),
        (None, None) => Ok(ReadMode::FromBeginning),
    }
}

/// Validates a request before any planning takes place.
pub fn select_mode(limit: Option<u64>, since: Option<i64>) -> (mode: Result<ReadMode, TailError>)
    ensures
        mode == requested_mode(limit, since),
{
    match (limit, since) {
        (Some(_), Some(_)) => Err(TailError::Config),
        (Some(count), None) => Ok(ReadMode::LastN(count)),
        (None, Some(millis)) => Ok(ReadMode::Since(millis)),
        (None, None) => Ok(ReadMode::FromBeginning),
    }
}

/// The instant that `Timestamp::parse` reads from an ISO 8601 text, as the
/// whole milliseconds between it and the Unix epoch, which
/// `Timestamp::duration_since` and `Duration::whole_milliseconds` give; `None`
/// for a text that the parser refuses.
pub uninterp spec fn iso8601_millis(text: Seq<char>) -> Option<i128>;

/// `Timestamp::parse`, with the instant handed out in milliseconds since the
/// Unix epoch. The same text always names the same instant.
#[verifier::external_body]
fn parse_millis(text: &str) -> (millis: Option<i128>)
    ensures
        millis == iso8601_millis(text@),
{
    Timestamp::parse(text).map(|ts| ts.duration_since(Timestamp::UNIX_EPOCH).whole_milliseconds())
}

/// The instant of a `Since` request: the parsed milliseconds, cut to the
/// width in which the broker takes them.
pub open spec fn since_instant(parsed: Option<i128>) -> Option<i64> {
    match parsed {
        Some(millis) => Some(millis as i64),
        None => None,
    }
}

/// Turns what the parser read into the instant of a `Since` request.
pub fn since_from_millis(parsed: Option<i128>) -> (since: Option<i64>)
    ensures
        since == since_instant(parsed),
{
    match parsed {
        Some(millis) => Some(#[verifier::truncate] (millis as i64)),
        None => None,
    }
}

/// Reads the instant of a `Since` request from an ISO 8601 text. There is
/// none if, and only if, the text does not parse.
pub fn parse_since(text: &str) -> (since: Option<i64>)
    ensures
        since == since_instant(iso8601_millis(text@)),
{
    since_from_millis(parse_millis(text))
}

} // verus!

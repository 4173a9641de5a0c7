use vstd::prelude::*;

verus! {

/// The instant, in whole seconds since the Unix epoch, that a text of the form
/// `YYYY-MM-DD HH:MM:SS` names, if it is one.
pub uninterp spec fn seconds_of_text(s: Seq<char>) -> Option<int>;

/// The `YYYY-MM-DD HH:MM:SS` text of an instant given in seconds since the Unix
/// epoch, if chrono can represent it.
pub uninterp spec fn text_of_seconds(t: int) -> Option<Seq<char>>;

/// Relies on chrono's `NaiveDateTime::parse_from_str` with the format
/// `%Y-%m-%d %H:%M:%S`, read as UTC: the result depends on the text alone.
#[verifier::external_body]
pub(crate) fn parse_timestamp(s: &str) -> (r: Option<i64>)
    ensures
        match r {
            Some(t) => seconds_of_text(s@) == Some(t as int),
            None => seconds_of_text(s@) is None,
        },
{
    chrono::NaiveDateTime::parse_from_str(s, "%Y-%m-%d %H:%M:%S").ok().map(
        |d| d.and_utc().timestamp(),
    )
}

/// Relies on chrono's `DateTime::from_timestamp` and the `Display` of
/// `NaiveDateTime`: the text depends on the instant alone, and there is none where
/// `from_timestamp` reports the instant out of range.
#[verifier::external_body]
pub(crate) fn format_timestamp(t: i64) -> (r: Option<String>)
    ensures
        match r {
            Some(s) => text_of_seconds(t as int) == Some(s@),
            None => text_of_seconds(t as int) is None,
        },
{
    chrono::DateTime::from_timestamp(t, 0).map(|d| d.naive_utc().to_string())
}

} // verus!

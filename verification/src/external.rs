use vstd::prelude::*;

verus! {

/// Relies on uuid::Uuid::new_v4 and its Display impl: a random version-4
/// UUID rendered in the hyphenated form, which is always 36 characters.
/// Nothing is assumed about which identifier comes back.
#[verifier::external_body]
pub(crate) fn new_uuid_string() -> (r: String)
    ensures
        r@.len() == 36,
{
    uuid::Uuid::new_v4().to_string()
}

/// Relies on chrono::Utc::now and DateTime::to_rfc3339: the current time
/// rendered as a non-empty RFC 3339 string. Nothing is assumed about which
/// instant comes back.
#[verifier::external_body]
pub(crate) fn rfc3339_now() -> (r: String)
    ensures
        r@.len() > 0,
{
    chrono::Utc::now().to_rfc3339()
}

/// Relies on std::time::SystemTime::now and duration_since: milliseconds
/// since the Unix epoch, saturated to u64. Nothing is assumed about the
/// value: the clock may move arbitrarily between calls.
#[verifier::external_body]
pub(crate) fn now_millis() -> (r: u64)
{
    match std::time::SystemTime::now().duration_since(std::time::UNIX_EPOCH) {
        Ok(d) => {
            let ms = d.as_millis();
            if ms > u64::MAX as u128 {
                u64::MAX
            } else {
                ms as u64
            }
        }
        Err(_) => 0,
    }
}

} // verus!

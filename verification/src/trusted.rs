//! Wrappers around outside functions that the verifier takes on trust. Each
//! one names the function it relies on; the rest of the crate reaches the
//! outside world only through these.

use vstd::prelude::*;

verus! {

/// Relies on String::push: appends exactly the given character.
#[verifier::external_body]
pub(crate) fn push_char(s: &mut String, c: char)
    ensures
        final(s)@ == old(s)@.push(c),
{
    s.push(c)
}

/// What base64's standard engine makes of a byte string; the encoding is a
/// function of the bytes alone.
pub uninterp spec fn b64_of(bytes: Seq<u8>) -> Seq<char>;

/// Relies on base64's `STANDARD` engine (`Engine::encode`): deterministic
/// in the input, and with padding the output holds four characters for
/// every started three-byte block. The length bound keeps the engine's own
/// buffer-size computation from overflowing.
#[verifier::external_body]
pub(crate) fn base64_encode(data: &Vec<u8>) -> (r: String)
    requires
        data@.len() <= usize::MAX / 4 * 3,
    ensures
        r@ == b64_of(data@),
        r@.len() == 4 * ((data@.len() + 2) / 3),
{
    base64::Engine::encode(&base64::engine::general_purpose::STANDARD, data)
}

/// Relies on uuid's `Uuid::new_v4` and its `Display` form: a fresh random
/// identifier, rendered hyphenated as 36 characters. Nothing is assumed
/// beyond the length; in particular not uniqueness.
#[verifier::external_body]
pub(crate) fn new_job_id() -> (r: String)
    ensures
        r@.len() == 36,
{
    uuid::Uuid::new_v4().to_string()
}

/// Relies on chrono's `Utc::now` and `DateTime::to_rfc3339` for a
/// timestamp of the present moment; nothing is assumed about the text.
#[verifier::external_body]
pub(crate) fn now_rfc3339() -> (r: String) {
    chrono::Utc::now().to_rfc3339()
}

} // verus!

use vstd::prelude::*;

verus! {

/// The id that sqids' default encoder gives the numbers `[0, n]`, or `None`
/// where it finds no id outside its blocklist.
pub uninterp spec fn sqids_code(n: u64) -> Option<Seq<char>>;

/// Relies on `sqids::Sqids::default` and `sqids::Sqids::encode`: encoding is
/// a function of the numbers alone, fails only with
/// `Error::BlocklistMaxAttempts`, and an id always starts with a prefix
/// character.
#[verifier::external_body]
pub(crate) fn encode_id(n: u64) -> (r: Option<String>)
    ensures
        match r {
            Some(s) => sqids_code(n) == Some(s@) && s@.len() > 0,
            None => sqids_code(n) is None,
        },
{
    sqids::Sqids::default().encode(&[0, n]).ok()
}

/// How many times a taken guest id may be drawn again before giving up.
pub const GUEST_ID_MAX_RETRIES: u32 = 11;

/// What to do with a freshly drawn guest id.
pub enum GuestIdStep {
    /// Use this id.
    Accept(String),
    /// Draw again; the next attempt has this number.
    Retry(u32),
    /// Too many draws were taken or unencodable.
    GiveUp,
}

/// The guest id encoded from a random number, where one can be encoded.
pub fn guest_id_candidate(random_number: u64) -> (r: Option<String>)
    ensures
        match r {
            Some(s) => sqids_code(random_number) == Some(s@),
            None => sqids_code(random_number) is None,
        },
{
    encode_id(random_number)
}

/// One round of drawing a guest id: a free candidate is accepted; a taken
/// or missing one is drawn again, at most `GUEST_ID_MAX_RETRIES` times
/// counting from attempt zero, and then the search gives up.
pub fn decide_guest_id(candidate: Option<String>, attempt: u32, taken: bool) -> (r: GuestIdStep)
    ensures
        match r {
            GuestIdStep::Accept(id) => candidate == Some(id) && !taken,
            GuestIdStep::Retry(next) => (candidate is None || taken) && attempt < GUEST_ID_MAX_RETRIES
                && next == attempt + 1,
            GuestIdStep::GiveUp => (candidate is None || taken) && attempt >= GUEST_ID_MAX_RETRIES,
        },
{
    match candidate {
        Some(id) => {
            if !taken {
                return GuestIdStep::Accept(id);
            }
        },
        None => {},
    }
    if attempt < GUEST_ID_MAX_RETRIES {
        GuestIdStep::Retry(attempt + 1)
    } else {
        GuestIdStep::GiveUp
    }
}

} // verus!

use vstd::prelude::*;

use rand::distributions::DistString;

verus! {

/// Relies on rand's `Alphanumeric::sample_string`: it appends exactly the
/// requested number of random alphanumeric ASCII characters. The result
/// depends on the thread's random number generator, so nothing more than
/// the length is promised. Generates the fixed-length opaque ids under
/// which the store keys its rows.
#[verifier::external_body]
pub fn gen_unique_id() -> (r: String)
    ensures
        r@.len() == 16,
{
    rand::distributions::Alphanumeric.sample_string(&mut rand::thread_rng(), 16)
}

/// Relies on chrono's `Utc::now` and `timestamp_millis`: the current wall
/// clock, as milliseconds since the epoch. Time-dependent, so nothing is
/// promised of the result.
#[verifier::external_body]
pub fn now_timestamp() -> i64 {
    chrono::Utc::now().timestamp_millis()
}

} // verus!

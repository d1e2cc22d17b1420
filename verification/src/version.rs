use vstd::prelude::*;

verus! {

/// Relies on `build_id::get`: a UUID uniquely representing the build of
/// the current binary, identical within invocations of one binary. The tag
/// depends on the binary, so nothing is promised of the result.
#[verifier::external_body]
pub fn current_version() -> String {
    format!("Build ID {}", build_id::get())
}

} // verus!

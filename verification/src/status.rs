//! Translation of engine status codes into a structured error type.
//!
//! Every engine operation reports a numeric status; zero is success and any
//! other value is a failure. The raw code never crosses the public surface on
//! its own: it is wrapped in [`EngineStatusError`] at the boundary.

use vstd::prelude::*;

verus! {

/// Status code the engine reports for a request on a handle that is not open,
/// or for a key or value that exceeds a configured size bound.
pub const STATUS_INVALID: i32 = 22;

/// Status code the engine reports when asked to open a database that does not
/// exist.
pub const STATUS_NOT_FOUND: i32 = 2;

/// A non-zero engine status, surfaced as a structured error carrying the
/// engine's own code.
#[derive(Clone, Copy, Debug, PartialEq, Eq, Structural)]
pub struct EngineStatusError {
    pub code: i32,
}

/// Translates an engine status code: zero maps to success, any other code to
/// an [`EngineStatusError`] carrying it.
pub fn as_result(rc: i32) -> (r: Result<(), EngineStatusError>)
    ensures
        (rc == 0) <==> r is Ok,
        r matches Err(e) ==> e.code == rc,
{
    if rc != 0 {
        Err(EngineStatusError { code: rc })
    } else {
        Ok(())
    }
}

} // verus!

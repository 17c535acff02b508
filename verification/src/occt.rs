//! Availability of the OpenCASCADE backend.
use vstd::prelude::*;

verus! {

/// Version string of the statically linked OCCT build.
pub const OCCT_VERSION: &'static str = "OCCT 8.0.0 (cadrum static)";

/// Whether this build carries the OCCT backend.  The backend (the
/// cadrum-linked `OcctGeometryKernel`) is compiled in only with OCCT; this
/// crate holds the backend-neutral logic and does not link it, so in this
/// build the answer is no.
pub open spec fn occt_compiled_in() -> bool {
    false
}

/// Report whether the OCCT backend is compiled in.
pub fn is_available() -> (r: bool)
    ensures
        r == occt_compiled_in(),
{
    false
}

/// Report the OCCT version string when the backend is available.
pub fn version() -> (r: Option<&'static str>)
    ensures
        r is Some <==> occt_compiled_in(),
        r matches Some(v) ==> v@ == OCCT_VERSION@,
{
    if is_available() {
        Some(OCCT_VERSION)
    } else {
        None
    }
}

} // verus!

//! The seam to the HTTP boundary: the base application instance the boundary
//! mounts the imputation route on.

use vstd::prelude::*;

verus! {

/// The service's application instance in its build phase, carried opaquely.
/// `rocket::Rocket<P>` cannot be named in a verified signature — its phase
/// parameter is bound by an outside trait — so the boundary reaches the
/// instance through the public field.
#[verifier::external_body]
pub struct Application {
    /// The framework instance the boundary mounts the imputation route on
    /// and launches.
    pub instance: rocket::Rocket<rocket::Build>,
}

/// Relies on `rocket::build`: a fresh application instance in the build
/// phase, with default configuration and nothing mounted.
#[verifier::external_body]
fn build_application() -> Application {
    Application { instance: rocket::build() }
}

/// The application instance the service runs: the HTTP boundary mounts the
/// imputation route on it and launches it.
pub fn rocket() -> Application {
    build_application()
}

} // verus!

use vstd::prelude::*;

verus! {

/// The settings the server is started with.
pub struct Settings {
    pub application: Application,
}

/// Where the server listens.
pub struct Application {
    pub host: String,
    pub port: u16,
}

} // verus!

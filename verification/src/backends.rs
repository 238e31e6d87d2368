//! The backends that the window works with.
use crate::alpm::AlpmBackend;
use crate::error::Error;
use crate::flatpak::FlatpakBackend;
use vstd::prelude::*;

verus! {

/// Both backends.
#[derive(Debug)]
pub struct UiBackends {
    /// The backend for pacman.
    pub alpm: AlpmBackend,
    /// The backend for Flatpak.
    pub flatpak: FlatpakBackend,
}

/// The backends, where both could be set up.
pub fn init_backends(alpm: Result<AlpmBackend, Error>, flatpak: Result<FlatpakBackend, Error>) -> (r:
    Option<UiBackends>)
    ensures
        r == (match (alpm, flatpak) {
            (Ok(a), Ok(f)) => Some(UiBackends { alpm: a, flatpak: f }),
            _ => None,
        }),
{
    match (alpm, flatpak) {
        (Ok(a), Ok(f)) => Some(UiBackends { alpm: a, flatpak: f }),
        _ => None,
    }
}

} // verus!

//! `org.gnome.Shell`, as far as portals need it to recognise the compositor.

use vstd::prelude::*;

use crate::error::CaptureError;

verus! {

/// The shell object.
#[derive(Clone, Copy, Debug, PartialEq, Eq, Structural)]
pub struct GnomeShell;

impl GnomeShell {
    /// Where the object stands on the bus.
    pub fn bus_path() -> (path: &'static str)
        ensures
            path@ == "/org/gnome/Shell"@,
    {
        "/org/gnome/Shell"
    }

    /// The name under which the object is found.
    pub fn bus_name() -> (name: &'static str)
        ensures
            name@ == "org.gnome.Shell"@,
    {
        "org.gnome.Shell"
    }

    /// The shell version that is claimed, recent enough for the portals.
    pub fn shell_version(&self) -> (version: String)
        ensures
            version@ == "47.0"@,
    {
        "47.0".to_owned()
    }

    /// The session mode.
    pub fn mode(&self) -> (mode: String)
        ensures
            mode@ == "user"@,
    {
        "user".to_owned()
    }

    /// Scripts are not evaluated, whatever they say.
    pub fn eval(&self, _script: String) -> (r: Result<(bool, String), CaptureError>)
        ensures
            r == Err::<(bool, String), CaptureError>(CaptureError::EvalNotSupported),
    {
        Err(CaptureError::EvalNotSupported)
    }
}

} // verus!

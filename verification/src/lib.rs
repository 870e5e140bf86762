//! Input capture for a Wayland compositor.
//!
//! A client of the input capture portal puts barriers along the edges of the
//! screen. When the pointer crosses one, the client's session begins to capture
//! input, and local input is held back until the session lets go.
//!
//! * [`double`], [`segments`] and [`barrier`] say when a motion of the pointer
//!   crosses a barrier.
//! * [`mutter_input_capture`] holds the sessions as D-Bus clients see them, and
//!   [`gnome_shell`] what portals look for to recognise the compositor.
//! * [`input_capture`] holds the sessions as the compositor sees them.
//! * [`eis`] and [`eis_connection`] serve the EIS clients of the sessions.
//! * [`capture_laws`], [`session_laws`] and [`connection_laws`] say what these are
//!   for, and [`laws`] joins them.

pub mod barrier;
pub mod capture_laws;
pub mod connection_laws;
pub mod double;
pub mod eis;
pub mod eis_connection;
pub mod error;
pub mod gnome_shell;
pub mod input_capture;
pub mod laws;
pub mod mutter_input_capture;
pub mod object_path;
pub mod segments;
pub mod session_laws;
pub mod text;

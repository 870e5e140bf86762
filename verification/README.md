# input_capture

Input capture for a Wayland compositor: pointer barriers, the capture sessions
that own them, and the EIS connections over which a session's client sends
input.

* `src/` is the library. Everything in it is verified with Verus, except for the
  calls into zvariant, reis and enumflags2, whose contracts stand with the
  functions that make them (`object_path.rs`, `eis.rs`).
* `tests/` runs the library. Numbers and barriers are compared with the
  machine's floating point arithmetic.
* `app/` puts the library on the session bus, on sockets and threads, and on the
  pointer of a smithay seat.

Coordinates are binary64 numbers, kept as bit patterns and computed with in
integers (`double.rs`), so that barrier crossings are decided, and proved, bit
for bit. On coordinates of moderate size, whole or in binary fractions of a
pixel, the tests for line segments that meet (`segments.rs`) are proved to be
exact.

The public proof functions named `law_...` state what holds of the library as a
whole.

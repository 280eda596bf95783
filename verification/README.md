# BareEye

A tracker for pan-tilt-zoom cameras. It shows the camera's picture, finds people
and faces in it, keeps their identities apart, and drives the camera by hand, from
a console, or after a target.

- `src/` is the decision logic, verified with Verus: the PTZ worker and its pulse
  width modulation, the vision worker, identities, target tracking, calibrations,
  the reading of driver reports, statistics of the preview.
- `app/` is the program around it: devices, windows, threads, inference.
- `tests/` runs the library.

Numbers are IEEE single precision. The library holds them as bit patterns
(`scalar::Scalar`), compares and clamps them itself, and asks an arithmetic unit
(`arithmetic::Operation`) for everything that rounds; contracts are exact in terms
of the unit's answers. Time is in nanoseconds and always passed in.

Work that waits for devices is a state machine: it names its next action and is
told the outcome.

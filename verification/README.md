# VTCast

VTCast sends a VTuber avatar with its transparent background to an OBS Browser
Source. H.264 has no alpha channel, so a frame travels at twice its width: colors
on the left, alpha as grey on the right. A page in the browser source puts them
together again. Publisher and subscribers talk directly over WebRTC; a relay
introduces them to each other and offers TURN where no direct way exists.

- `src/` is the library: frame processing, access units, rooms and sessions of the
  relay, the publisher's reactions, reconnection, and the decisions about sources
  and encoders. All of it is verified with Verus. What it takes from other crates
  (random numbers, TURN credentials, session descriptions, candidates) and from the
  standard library (lowercase, UTF-16) stands behind declarations whose doc comments
  say what is relied upon.
- `tests/` runs the library.
- `app/` is the program around it: command line, sockets, processes, and on Windows
  the capture and encoder interfaces. The relay serves `receiver.html` and
  `test_rtc.html` from `assets/` in the directory that it runs in. The desktop
  sender, on Windows only, also needs the `tauri` crate, which `Cargo.toml` does not
  name.

The box filter and the conversion to NV12 are defined in floating point. The library
computes the same values in integers: `scaling` carries the products and quotients
of doubles, `nv12` those of singles.

# boresight

A terminal visualizer for spacecraft attitude and target pointing. It replays
a pass from attitude telemetry and a TLE and shows, frame by frame, how well
the spacecraft held its boresight on a ground target.

The crate is split in two:

- `src/` is the library, verified with Verus: the text formats the tool reads
  (quaternion column lists, TLE files, `label=TIME` markers, `start:end`
  windows), the precedence of command-line flags over the config file, the
  attitude CSV table (column lookup, timestamps, the stable time order of the
  samples, the interpolation bracket of an instant), which TLEs are refused as
  malformed and the epoch of the SGP4 propagator built from the others (the
  SGP4 work itself, and whether it accepts the elements, are the sgp4 crate's),
  the playback timeline (frame steps, event jumps,
  table scrolling, the eclipse-exit event), the key bindings, and the label
  placement grid of the ground-track map.
- `app/` is the program around it: the command line, the TOML config file,
  file reading, the floating-point geometry (frames, Sun, shadow, pointing
  error, Doppler), and the terminal drawing.

Modules of the library:

| module     | contents |
|------------|----------|
| `text`     | whitespace trimming, splitting at a character, prefixes |
| `inputs`   | precedence, column lists, TLE lines, markers, windows, sources |
| `time`     | timestamps as nanoseconds since the Unix epoch |
| `pointing` | quaternion convention, CSV columns, attitude rows, time order |
| `orbit`    | the SGP4 propagator built from a TLE, and why a TLE is refused |
| `timeline` | steps, scrolling, event marks and jumps, eclipse exit |
| `keys`     | the key bindings |
| `scene`    | the label occupancy grid |

# empty-status

An i3bar status line whose logic is verified with Verus.

- `src/` is the verified library: Pango markup and its laws, colors and
  integer gradients, the mode cycles that mouse clicks move and the postures
  that save them, the units (battery, CPU, disk, memory, network, quota,
  clock, weather, wireless) as reducers from probe results to views, the
  store of saved postures, and the scheduler that decides when each unit is
  probed and which replies it accepts.
- `app/` is the program around it: reading the configuration, the file,
  network and process I/O of the probes, the floating-point smoothing and
  formatting of rates and temperatures, and the event loop that speaks the
  i3bar protocol. `empty-status statusline` reads one status-line payload
  from standard input, caches its rate limits and prints their summary.
- `tests/` runs the library on concrete values.

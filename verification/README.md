# watt

A terminal system monitor (CPU, memory, GPU, network, disk, power) whose
logic is a library verified with Verus.

- `src/` — the verified library: byte formatting, the process table order
  and filter and its title, grouping of processes by name, the keyboard
  state machine of the UI (views, filter, profile panel), the chart histories, disk and network counters, per-process GPU
  memory, and the Apple Silicon rules (SMC key codes and the temperature-key
  scan, the DVFS frequency table, IOReport channel classification and
  residency accounting).
- `app/` — the program around it: sampling through `sysinfo`, NVML and
  IOKit, the terminal UI drawn with `ratatui`, the profile request (the
  model id comes from `ANTHROPIC_MODEL`, the key from `ANTHROPIC_API_KEY`),
  and the floating-point readings and colours.
- `tests/` — tests of the library on concrete values.

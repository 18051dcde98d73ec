# raisin

Run-or-raise for Wayland compositors (Hyprland and Niri): launch a program
when none of its windows is open, otherwise focus the next of its windows,
cycling through them on repeated calls.

- `src/` is the verified library (Verus): the run-or-raise decision as a
  step function (`application`), window grouping and the picker state
  (`state`, `gui`, `input`), the compositors' window records, recency
  ordering and commands (`compositor`), and the string helpers they rest on
  (`text`).
- `app/` is the program around it: command line, logging, the calls to
  `hyprctl` and `niri`, JSON decoding, and the GTK picker window.
- `tests/` runs the library on concrete values.

# Buzzard OS guest desktop

The decision logic of the Buzzard OS guest desktop as a Verus library, with the programs around it.

- `src/` is the verified library: what the shell does with clicks, keys and files, what it draws and
  what it exposes to assistive programs, what the window manager is told, and how AppImages are
  checked, registered, renamed and launched. Every function has a contract on what it returns or
  changes; where that rests on the machine, as the pixels of a resized picture do, the contract says
  what holds of every outcome. The laws of the library are public proof functions beside the
  functions that they speak of.
- `app/` is the desktop shell and the helper for shortcuts: Wayland surfaces, fonts, files,
  processes and the session bus.
- `tests/` runs the library.

Positions of the pointer are integers in 256ths of a pixel, times are milliseconds, and paths are
bytes, which are compared by their components.

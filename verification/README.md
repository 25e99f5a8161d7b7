# Feather Fences

Desktop fences for Windows: boxes on the desktop that show a folder, take what is dropped on them,
and keep out of each other's way.

- `src/` decides, and is verified with [Verus](https://github.com/verus-lang/verus): the grid and the
  pages of a fence, what the pointer does to it, which icons make room and how they come back, what
  becomes of dropped, downloaded and swept files, how settings survive a crash, hotkeys, menus, and
  the measurements. What it asks of Windows it gets told as plain values, and what Windows is to do
  it returns as plain values.
- `app/` does: it opens windows, draws, reads and writes files, and talks to Explorer. `app/sys/` is
  the part that calls Windows.
- `tests/` runs the library on concrete values.

Lengths that a fence can have between two pixels are counted in millionths, opacities too; times are
whole nanoseconds, microseconds, milliseconds or seconds, as each place says.

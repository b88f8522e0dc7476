# MonMan

MonMan keeps monitor layouts for Windows: it captures the active display
topology as a named layout, lets the user edit it, and applies it again from the
window, a keyboard shortcut or a controller chord. A layout is an exclusive set
of display paths: a monitor that is off is left out of what Windows is asked for.

`src/` is the library, written in Verus. Its functions carry contracts that are
proved; taken on trust is only what `semver` makes of version texts, what `sha2`
makes of bytes, and two functions on characters of the standard library. The
`lemma_` functions state what holds of several functions together.

- `model`: layouts, monitors, shortcuts and their labels.
- `display`: capturing, checking, routing and applying topologies.
- `arrangement`, `snap`, `singles`: editing monitors and dragging them about.
- `controllers`, `hotkeys`: chords and shortcuts, and what they call for.
- `audio`, `tray`, `startup`, `storage`, `updater`: the rules of each.
- `app`: the program's state, applying and rolling back, startup recovery and
  monitor syncing.
- `clones`, `order`, `text`: what the others share.

`tests/` runs the library on concrete values. `app/` is the program around it:
the window, the Windows calls, files, threads and downloads. Arithmetic on
floating-point numbers happens there, and its results are handed to the library.

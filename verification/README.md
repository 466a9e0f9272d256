# keysynth

The verified core of a small keyboard synthesizer front end, written in Verus.

- `src/text.rs`: comment lines, Unicode white space, trimming, and the fields
  of a line split at its spaces.
- `src/resource.rs`: the lines of a resource file that reach its reader, the
  number texts of a model file, the two fields of a key-binding line.
- `src/number.rs`: decimal `i32` numerals read as `str::parse::<i32>` reads
  them, and the note index of a binding.
- `src/keymap.rs`: the key map built from bindings, the last binding of a key
  winning.
- `src/keybind.rs`: the key map of a whole key-binding file, its key names
  looked up by a given function (SDL's, in the program), or the first line
  that binds nothing.
- `src/keyboard.rs`: from the keys held in two frames, the notes that start
  and those that are released.
- `src/controls.rs`: what each input event asks the main loop to do, and the
  quit confirmation; the sprite demo's moves.
- `src/instrument.rs`: removing marked oscillators from an instrument.

`app/` holds the program around it: file reading, SDL, OpenGL, the dynamic
library and the floating-point parts (colours, model coordinates, frame rate).

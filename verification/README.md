# sekirotool

A command-line tool that unlocks the frame rate of Sekiro running under
Linux (and can change its field of view), by patching the game's memory.

- `src/` is the verified library (Verus). It decides what is patched and
  how: the game speed correction for a frame limit (`gamedata`), which pages
  are searched for signatures, which page holds an address, how the game's
  pid is read from `pgrep` and which commands stop and resume it (`vm`), and
  the patch protocol itself (`patch`) with its plans (`fps_unlock`, `fov`).
  The protocol is a state machine: it names each process access it needs
  and takes back what was observed. Its proved laws say that every write
  goes to a page that was made writable first, that a successful patch
  restores the page's protection, that a failed protection change writes
  nothing, and that a patch always ends.
- `app/` is the program: argument parsing, logging, running `pgrep` and
  `kill`, and the process memory access through libmem, driving the state
  machines of the library. Floating-point values (frame time, field of view)
  are computed there and handed to the library as bits.
- `tests/` exercises the library on concrete values.

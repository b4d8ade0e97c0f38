# t2rebar

Resizes the framebuffer BARs of GPUs through the PCIe Resizable BAR capability, on machines whose
firmware does not. The drivers are unbound, new sizes are written to the capability, the bridges
above the GPUs are removed and the bus is rescanned, and the drivers are bound again.

- `src/` is a library, verified with Verus. It holds everything that is decided or computed: what
  sysfs and config space say, which BAR to resize and to what, the cycle of tasks, what must be
  known before anything is changed, the manifest by which a run is undone, and the report. Its
  functions take what was read and say what to do next; they perform nothing themselves.
- `app/` is the program. It reads and writes what the library asks for.
- `tests/` runs the library on examples.

Public proof functions named `law_...` state what holds of several functions together: that a
written manifest reads back as the plan it was written for, that nothing is changed before every
refusal is passed, that each bridge is removed once, and the like.

Two facts about the standard library are taken on trust, both in `src/text.rs`: what `String::push`
does, and that the debug form of a text depends on the text alone.

# xpui-simulator

A desktop simulator for `xpui` apps, and the checks its repository runs on
itself, with the deciding parts verified by Verus.

- `src/` is the library: the touch model, the keypad, the session and its
  board cycle, where a click lands, the frame loop's decisions, the body's
  layout and paint plan; and the repository checks — fences, commands, links,
  READMEs, comment caps, the reference against rustdoc — as functions from
  what was read to what is reported.
- `app/` opens the window, runs the loop the library decides, builds the
  framework's backends, and reads the tree with git and the file system.
- `tests/` drives the library from outside.

# plexr

A mouse-first terminal session multiplexer with a vertical tab bar. Its state and its rules are a
library that is verified with Verus; the program around it runs the shells and draws the screen.

- `src/` is the library. `app` holds the state of the workspace; `input`, `mouse`, `menu`, `groups`
  and `tabs` say what keys, the mouse, menus, pane groups and tabs do; `layout` and `geometry` divide
  the screen; `sidebar` and `ui` say what is drawn; `workspace` says what is kept between two runs;
  `terminal`, `emulator`, `screen` and `platform` deal with terminals and their surroundings;
  `timing` says when repeated work is due.
- The modules that end in `_laws` state what holds across the functions: what every event keeps,
  what undoes what, and what comes back of a kept workspace.
- A handler changes the state and returns the one thing that is left to be done outside, such as
  bytes for a terminal or a shell to be started. Times are nanoseconds that the caller passes in.
- `app/` is the program: pseudo-terminals, events, drawing, and the file of the workspace.
- `tests/` runs the library on concrete values.

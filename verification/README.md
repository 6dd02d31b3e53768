# difv

Review and tweak Git changes side by side, in the terminal: the changed files, what
they were, and what they are. The Current side is an editor where it is the working
tree.

The library decides and the program acts. `src/` holds everything that decides, each
function with a contract that Verus proves:

- `diff`: the rows of the side-by-side view, and refining the stretches that a diff
  bounded in time gave up on
- `editor`, `area`: the text buffer with its history, over `ratatui-textarea`
- `app`, `screen`, `input`: the state, and what keys, the mouse, the clock and the disk
  do to it; what is due outside comes back as a task
- `ui`, `columns`, `ruler`: what is drawn, and where
- `config`, `settings`, `document`: preferences, and reading them back from TOML
- `git`, `commits`, `args`, `clipboard`: what is asked of git, and what its answers mean;
  the command line; the clipboard's terminal sequence
- `text`: strings as sequences of characters

`app/` is the program around it: files, git, the clipboard, the terminal and the event
loop. `tests/` runs the library.

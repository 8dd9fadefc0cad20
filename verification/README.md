# sysmon

A system monitor for the terminal: processors, memory, network, disks, graphics
processor and processes, with graphs, a process tree, search, sorting, mouse
support and signals.

What the monitor decides and draws is a library whose behaviour is stated in
contracts and proved by Verus. The program around it reads the system, handles
the terminal and computes with floating-point numbers.

## The library, `src/`

- `text`, `number`, `notation`, `reading`: texts, numbers and how they are
  written. A floating-point number enters the library as a `Reading`: its bits,
  by which it is ordered, and its notation.
- `stats`, `procfs`, `sensors`: what the files of the system say, and what
  counters have gained.
- `history`: the last values of a quantity, and which of them a graph shows.
- `process`, `tree`, `lineage`, `list`: the order of the processes, their tree
  and its order, and the list that a search leaves of them.
- `ui`, `input`: what the user has chosen, and what keys and the mouse do to it.
- `state`, `layout`: what a frame shows and where.
- `buffer`, `draw`, `panels`, `table`, `render`: a frame as a grid of cells.
- `term`: what is sent to the terminal to turn one frame into the next.

The public proof functions whose names begin with `law_` state what holds of the
library as a whole: every process is listed once, the selected process is on the
screen, a signal goes to the process that the question names, and what is sent
to the terminal makes it show the frame that was drawn. Where the environment
asks for no colours (`NO_COLOR`), what is sent in place of a colour resets the
attributes too: the characters of the frame are shown, but not its styles.

Four control sequences of crossterm, `String::push` and `str::to_lowercase` are
taken on trust; their contracts say what is believed of them.

## The program, `app/`

- `main`: the session.
- `monitor`: the counters, the histories and the state that is shown.
- `readers`: the files and commands that tell about the system.
- `gauges`: loads and rates as floating-point numbers.
- `events`: events of the terminal, and signals.

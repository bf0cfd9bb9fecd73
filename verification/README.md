# felix_state

The state of a terminal file manager, and what it does with it, verified with Verus.

The library (`src/`) decides; it never touches a file or the terminal. It says what is to be
done next, is told what came of it, and goes on from there. `app/` is the ordinary Rust around
it: it reads directories, copies and removes files, starts programs and draws on the terminal.

| module | what it holds |
|---|---|
| `state` | the state: what is listed, selected and registered |
| `item`, `order` | items made from directory entries, and the order of a listing |
| `path`, `route` | paths, and their components |
| `text`, `clock` | text, times |
| `layout`, `draw`, `view` | what is drawn: the headline, the rows, the footer |
| `tree` | copying a directory entry by entry |
| `remove`, `put` | moving items to the trash, and putting items |
| `op`, `history` | the operations, undoing and redoing them |
| `open` | the program with which an item is opened |
| `session`, `error` | what outlives a session; errors |
| `laws` | what holds of the library as a whole |

Drawing is a list of steps (`draw::Draw`), so that its contracts can say exactly what appears on
the screen. Moving items to the trash (`remove::Removal`) and putting them (`put::PutRun`) are
machines: each names its next step, and goes on when it learns what happened.

What the library takes from outside without proof: natural order of names (`natord`), the clock
and the writing of local times (`chrono`), and two functions of the standard library. Their
contracts stand beside the calls, in `order`, `clock` and `text`.

# openmcpgdb

The sessions of a server through which clients drive gdb, verified with Verus.

A client asks for an operation: run the program, set a breakpoint, watch a
variable. The session decides what has to be asked of gdb or gdbserver, reads
what they print, and answers with the state of the debugger and whatever there is
to show.

The library in `src/` only decides. `SessionCore::execute` takes an operation and
gives a `Step`: something to be done, or the answer. What came of it goes into
`SessionCore::resume`, which gives the next step.

| module | what it holds |
| --- | --- |
| `text`, `number` | what texts and decimal numbers are, and what is read from them |
| `scan` | the executable counterparts of `text` |
| `paths` | paths, by the rules of the machine |
| `config`, `error`, `protocol`, `operation` | the configuration, errors, answers, operations and requests |
| `gdb_output` | what the texts that gdb prints say |
| `plan` | what an operation asks for and how it ends, for every way in which its requests may be answered |
| `session` | the session, which follows the plan |
| `outcomes`, `conduct` | what it means that a plan keeps to something, and the proof that all plans keep to their bounds |
| `laws`, `readings` | what follows for clients |

`app/` is the ordinary Rust around it: configuration files, a worker thread for
each session, and the gdb and gdbserver processes.

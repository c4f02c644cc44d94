# solstice_sftp

The SFTP server of the solstice daemon shows the drives of a Windows machine as one tree:
`/C/Windows` is what Windows calls `C:\Windows`. This crate holds its rules, verified with
Verus.

- `src/` reads path names, keeps the state of a session and decides what each request leads
  to. It touches no disk: a session hands out tasks (`steps.rs`) and goes on when the host
  reports how they went. Every function states what it returns or changes; `path_laws.rs`
  and `session_laws.rs` state what holds of paths and sessions as a whole.
- `app/` is the host: it implements the handler of `russh_sftp`, performs the tasks with
  `tokio` and turns values of the wire into those of the library and back.
- `tests/` runs the library on concrete values.

What the library takes on trust is little: how `russh_sftp` writes the line of a long listing,
its dummy attributes, its flags and its version, and `String::push`. For paths whose full form
depends on more than their text (relative paths, names of devices, trailing dots and spaces)
it asks the operating system and claims nothing of the answer.

# sshcfg

Manages the configuration of an OpenSSH client as one file per host under `~/.ssh/config.d`,
which the root configuration takes in with a managed `Include` block. Tags, notes and templates
are kept beside the entries in a state file, and a snapshot is taken before the root configuration
or an entry is written.

The library under `src/` holds the rules, and Verus proves what its contracts state:

- `text`, `strings`, `paths`, `address`, `layout`: texts, paths, addresses and the places of
  files.
- `config`: managed entries, how they are read and written, how they are merged for a target,
  `Match` blocks, records, and the order of the entries.
- `commands`: what each command decides, refuses and says.
- `tui`: the terminal interface as a state that keys change.
- `backup`: which snapshots there are and which are dropped.

The modules whose names end in `_laws`, and `config::roundtrip`, state what holds over several
functions: that a written entry is read back, that the first value wins, that setting up twice
writes nothing, that a restored snapshot undoes a command, and the like.

`app/` is the program around the library: arguments, files, the client's own answers, and the
screen. `tests/` runs the library on concrete values.

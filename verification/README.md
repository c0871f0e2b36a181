# Kronical

Kronical is a local activity tracker. A daemon takes in what the hooks of the system report (keys,
mouse, focus), derives from it what the user was doing, and stores records of it; tools read the
store and show what was found.

The library in `src/` is written in Verus: a function states in its contract what it returns or
changes, and Verus proves that it does. What reads a clock says only what holds of every reading;
what is decided from a reading stands in functions that take the time as an argument. `app/` is
ordinary Rust around the library, and `tests/` runs it.

## The library

- `time`, `text`, `numbers`, `views`, `grouping`: instants, strings, decimal numbers, and
  collections as mathematical values.
- `events` with `adapter`, `derive_signal`, `derive_hint` and `model`: raw events become signals
  and hints; the state engine tells active, passive, inactive and locked apart.
- `records`, `record_processor`, `aggregate`, `window_groups`, `window_places`,
  `aggregation_manager`: records, and how long each application and window was in use.
- `snapshot`, `bus`: snapshots, the differences between them, and their replay.
- `compression`, `trajectory`, `thinning`: condensed input, and paths of the pointer.
- `storage`: the commands of the writer, its statements, the rows and what is read back of them.
- `coordinator`, `daemon`, `threading`, `config`, `paths`, `path_order`, `input`, `interner`, `lru`: the
  decisions around the daemon and its helpers.
- `app_tree`, `sleep`, `display`, `monitor`, `monitor_loop`, `report`, `rpc`, `stream`, `log_cli`, `log_files`:
  what the tools show.

Functions named `law_...` state what holds across several functions.

What Verus believes without proof are the small functions marked `external_body`, each of which
calls into another crate or the standard library and says in its comment what it claims of the
call, and the spec functions without a body that name such results.

## The programs

`app/main.rs` holds the daemon `kronid`, the tools `kronictl` and `kroniadm`, and the benchmark
`bench-mouse-traj`; the name by which the program is called chooses one. The input hooks need
macOS.

# Pulse

Pulse is a Linux observability console: a process table with filtering,
sorting and container grouping, CPU/memory/disk/network telemetry, kernel
exec/exit tracing through eBPF, and signals sent from the interface.

The crate is written in Verus. `src/` is the library, verified against its
contracts, except for three small functions of std whose contracts are
trusted rather than proved: `push_char` (`String::push`, in `text`),
`decode_utf8_strict` (`std::str::from_utf8`) and `decode_utf8_lossy`
(`String::from_utf8_lossy`, whose result on invalid UTF-8 is left as the
uninterpreted `utf8_lossy`), both in `common`. The modules:

- `text`: the character-level scanning the `/proc` parsers share (words,
  lines, trimming, unsigned numbers), each specified over `Seq<char>`.
- `common`: the trace event exchanged with the kernel probes, its byte
  encoding and decoding, and its command name.
- `system`: parsers for `/proc/<pid>/stat`, `/proc/<pid>/status`,
  `/proc/stat`, `/proc/meminfo`, `/proc/diskstats` and `/proc/net/dev`; the
  per-tick process state and the CPU time each process used; the collector
  engine; the busiest-first process table.
- `tui`: the interface state, its projection of processes into rows, the key
  map, the reaction to key presses (as commands for the outside world), and
  the display helpers.
- `cli`: the subcommands.

`app/` is the program around it: reading `/proc` and `/sys`, the collector
threads and their bus, the eBPF loader, the terminal loop and the drawing.

CPU use is kept in clock ticks and utilisation as exact shares
(`part / whole`); the interface turns them into percentages only to draw
them.

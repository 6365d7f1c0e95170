# dispatcher

A small operating-system dispatcher: four priority queues of processes that
share main memory, a few devices and a disk. The library is written in Verus;
each operation carries a contract, and the properties that tie operations
together are proved as lemmas.

- `src/filesystem.rs`: the disk as an ordered list of spans (files and free
  space); searching, placing and deleting files, with freed spans merged into
  their free neighbours.
- `src/mem_ram.rs`: main memory, one area for real-time processes and one for
  user processes; first-fit search, allocation by splitting a span, release
  with merging.
- `src/segments.rs`: the shared model of both, a list of (free, start, length)
  spans, and what splitting and releasing do to its total length, its tiling
  and its free space.
- `src/resources.rs`: scanner, modem, printers and drives.
- `src/processo.rs`, `src/instruction.rs`: processes and the file operations
  they run, read from text.
- `src/queues.rs`: the dispatcher's decisions for a process in its turn.
- `src/setup.rs`: building the disk and the process queues from the input
  files' lines.
- `src/laws.rs`: the properties above, stated over the contracts' models.
- `app/main.rs`: the program: reading the input files, the threads, and the
  scheduling loop.

# procfast

Fast Linux system metrics read from eBPF maps instead of `/proc` and `/sys`.

- `src/` is the verified library: the binary layouts of the shared records,
  the seqlock and batch protocols for reading them, the collector setup
  plan, the parsing of `/proc/interrupts`, the possible-CPU list and
  `/etc/passwd`, the command lines of the tools, the listings and labels the
  tools print, the lsof filters and the exporter's integer metric families.
- `tests/` exercises the library on concrete inputs.
- `app/` holds the programs (`procfastd`, `procfast`, `procfast-exporter`,
  `procfast-lsof`, `procfast-bench`): BPF loading, mmap and map syscalls,
  files, HTTP, signals, and the output that is computed in floating point.
  BPF objects are loaded at run time from `$PROCFAST_BPF_DIR`
  (default `/usr/lib/procfast/bpf`).

The shared records and keys are read least significant byte first, the byte
order of the little-endian hosts the programs support; they refuse to start
on a big-endian host.

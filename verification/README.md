# Truce Analyzer

A frequency spectrum analyzer for music production. Instances placed along a signal chain
show their spectra, and any of them can be compared with the others, within one process or
across processes.

## Layout

- `src/` is the library. Everything it decides is stated in contracts and proved.
  - `level`, `text`: the order of single-precision numbers by their bits; decimal text.
  - `arithmetic`: the floating-point operations, which callers hand in as functions.
  - `spectrum`, `kernel`, `analyzer`, `worker`: from samples to levels.
  - `mono`: the same for one channel and half as many bins.
  - `region`, `shmem`, `shm_calls`: the shared region between processes, and the order of
    the system calls that set it up.
  - `registry`, `file_registry`: the instances of a process, and the common list of all.
  - `ui_state`, `header`, `plot`, `readout`: what the display holds and shows.
  - `plugin`: how an instance comes and goes, and what it does with audio.
- `tests/` runs the library on concrete values, with a real Fourier transform.
- `app/` is the plugin around it: threads, files, shared memory, drawing and the host.

Samples, levels and frequencies are carried as the bits of single-precision numbers. The
library compares them and moves them about; sums, products and logarithms are the caller's.

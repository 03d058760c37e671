# boat

The verified core of the Boat RISC-V emulator, the platform side of the Sail
RISC-V model, and of its difftest harness against the Spike simulator.

- `src/` — the library, verified with Verus:
  - `simulator.rs`: the emulated machine (memory, counters, reset and exit
    handling), the callbacks the Sail model makes (`SailImpl`) and the
    handle that holds the machine between callbacks;
  - `memory.rs`: little-endian reads and writes of emulated memory;
  - `elf.rs`: loading an ELF image's segments, with `xmas_elf` reading the headers;
  - `boat.rs`: Boat's trace events and the framing of its trace log;
  - `spike_log.rs`: reading Spike's commit log;
  - `difftest.rs`: comparing the two logs;
  - `memory_size.rs`, `numbers.rs`, `text.rs`: reading and writing numbers as text;
  - `stub_platform.rs`: the fixed answers of the stand-in platform.
- `app/` — the programs: running the simulators, reading files, JSON, the
  command line and the C functions the Sail model links against.
- `tests/` — tests of the library.

Loading an ELF image (`elf::load_elf`, `simulator::Simulator::new`) never
panics on a bad image: a header that `xmas_elf` refuses, a machine other
than RISC-V, a misplaced program header table or a segment outside the image
or the memory is answered with an `ElfLoadError`. The emulator program
(`app/emulator.rs`) stops with a panic on that error.

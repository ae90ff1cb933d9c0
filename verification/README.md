# elf_loader

A loader for 64-bit little-endian ELF objects (executables, shared objects
and relocatable objects), written in Verus.  The functions of the library
under `src/` state what they compute in their `requires`/`ensures`
contracts and are proved to meet them; the only exception is the small set
of trusted wrappers in `src/slot_map.rs` around `hashbrown`'s map, whose
contracts are taken on trust.

The library works on an in-memory model of the image: `ElfSegments` is the
byte buffer that stands for the reserved mapping, together with the address
it is placed at.  Reading headers, laying out segments, filling them from
the object's bytes, parsing the dynamic section and applying relocations
are all functions on that model.  What needs the operating system (mapping
memory, changing its protection, calling indirect-function resolvers and
initialisers) is described by the library as requests and left to the host.

Layout:

- `src/elf.rs`, `src/symbol.rs`, `src/dynamic.rs`: headers, symbol and
  string tables, dynamic section.
- `src/segment/`: segments of program headers, grouping of sections into
  segments for relocatable objects (with their PLT and GOT), filling the
  image.
- `src/loader.rs`, `src/object.rs`: planning and building an image.
- `src/relocation/`: symbol lookup, dynamic and static relocation,
  handlers, lazy binding and the relocation builder.
- `src/laws.rs`: properties of the loader as a whole, stated and proved.
- `src/slot_map.rs`: the hash map of GOT and PLT slots, from `hashbrown`.
- `app/main.rs`: a command-line front end that reads a file, performs the
  memory requests with `syscalls` and runs the library.  It binds every
  symbol at load time, since it has no resolver for lazily bound calls.
- `tests/`: tests on concrete objects built in memory.

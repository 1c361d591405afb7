# lantern-boot

The boot-time logic of LanternOS, verified: reading ELF images and the device
tree, laying programs out in memory, working out every kernel operation that
brings confined programs up, and the state machines of the benchmark and of the
programs themselves.

The library never touches the machine. It turns bytes into plans and events into
actions; each function's contract says exactly which, and the modules whose names
end in `_laws` prove what a plan guarantees as a whole:

- a loaded program's memory holds exactly what its image says, and its stack and
  heap start out as zeroes;
- its address space maps the kernel's megapages without user access, and
  otherwise only frames made for it;
- its capability space holds exactly the capabilities that its description names;
- a plan can be carried out step by step, with no step naming what is not there
  yet and no slot used twice.

The confined programs state theirs beside their state machines: a service serves
only a client that it has let in, and answers each request with what handling it
gave; a client signals success exactly if what it sent came back.

## Layout

- `src/` the library.
- `tests/` its tests.
- `app/` carries the plans out: the boot images and the confined programs, on
  `riscv64`.

Sizes and addresses are 64-bit words throughout, whatever machine the library
itself runs on. Plans are held in vectors, so whoever calls the library needs an
allocator.

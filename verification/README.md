# bmvm-host

The host side of a runtime for bare-metal guests on KVM: it loads a guest
ELF executable into a fresh virtual machine, builds the page tables and
descriptor tables the guest needs to enter long mode, links the functions
the guest calls on the host (hypercalls) with those the host calls on the
guest (upcalls), and decides how each exit of the virtual CPU is handled.

## Layout

- `src/` — the library, verified with Verus:
  - `mem`, `pagetable`, `paging`: addresses, layout entries, and the
    construction of identity-mapping page tables with proofs that every
    region of the layout is mapped to itself;
  - `descriptors`: global and interrupt descriptor tables, CPUID leaves;
  - `elf`: checking and loading an ELF executable (parsed by `goblin`);
  - `linker`: validation and linking of hypercalls and upcalls;
  - `memory`: host memory regions with access permissions;
  - `vm`: registries of callable functions, register state, the run
    loop's decisions and the loading of an executable into a VM;
  - `runtime`: configuring and assembling a module.
- `tests/` — tests of the library.
- `app/` — the parts that talk to the machine: KVM ioctls, host memory
  mappings, files, and the guest's binary interface.

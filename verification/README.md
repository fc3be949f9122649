# krun

A verified library for running microVMs, written in Verus.

It has three parts.

* A riscv64 hart (RV64GC with machine, supervisor and user mode): `cpu`,
  `csr`, `decode`, `exec`, `fpu` and `softfloat`, `mem`, `mmu`, `trap`, its
  interrupt controller `plic`, the firmware interface `sbi`, and an image
  loader `elf`. `laws`, `soundness` and `waiting` state what holds of every
  hart.
* The bookkeeping of a microVM monitor: `config` and `contexts` hold the
  configurations, `guest`, `machine`, `storage`, `overlay`, `net`, `sockets`,
  `egress`, `peripherals` and `nitro` change them, `start` turns one into the
  steps that start a guest, `logging` sets the log up.
* Its control channel and its snapshots: `control` reads commands and writes
  replies, `jobs` carries the operations out as state machines, `manifest`,
  `restore`, `snapshot` and `prepared_saves` describe what is saved. `hvf` and
  `hvf_vcpu` hold the state and the run loop of a vCPU under the macOS
  hypervisor.

`bytes`, `text` and `errno` serve all of them.

Contracts are stated over models: a `Hart` for the processor, `Settings` for a
configuration, a `JobState` for an operation under way, sequences for bytes and
texts. What the library needs from outside (the answer of a device, the contents
of a file) it takes as a value, or asks for by an action whose event it is handed
back.

`app/` is ordinary Rust around the library: the C interface, the control socket,
files, and the calls into the hypervisor. `tests/` runs the library.

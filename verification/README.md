# brentos

The core of a small AArch64 teaching kernel, written in Verus: the code
runs as ordinary Rust and its behaviour is stated in `requires` / `ensures`
contracts that Verus proves.

## Layout

- `src/` – the verified library.
  - `allocator`, `bw_allocator` – the kernel's bin allocator and the
    user-space allocator that grows the heap with `sbrk`, with proofs that
    a block handed out is aligned, large enough and taken from the free
    region, and that a freed block is handed out again.
  - `fat32` – FAT32 on-disk structures (MBR, parameter block, FAT entries,
    directory entries, long names, timestamps), cluster and chain I/O,
    mounting a disk's first partition, directory lookup, path resolution
    and file reads, writes and seeks, with laws
    such as reading back what was written.
  - `kernel_api` – the system-call numbers, error codes and records shared
    by the kernel and user programs.
  - `kern` – scheduling, traps, system-call handlers and the kernel shell's
    commands (`cd`, `ls`, `cat`), written as functions from state and
    request to new state and reply.
  - `command`, `path`, `decimal`, `text`, `bwsh`, `ls`, `util` –
    command-line parsing, path normalisation, number formatting, the user
    shell and the `ls` program's options and listing.
- `tests/` – tests of the library on concrete values.
- `app/` – the program around the library: it mounts a disk image, runs the
  kernel shell and a user-side shell, and performs the I/O that the library
  leaves to its caller.

The network stack's endpoint and error types come from `smoltcp`.

Fixed-capacity stack vectors (`stack_vec`) are not used: the library keeps
such buffers in `Vec`, with the capacity stated in the contracts where it
matters. Paths are byte strings (the `path` module) rather than `PathBuf`.

# NovaOS

An educational operating-system simulator whose logic is written in Verus and proved
against its specifications: the kernel (memory and copy-on-write paging, processes and
scheduling, mutexes and deadlock detection, message queues, security auditing, system
calls, interrupts), the drivers (console, keyboard, disk, network card), the filesystems
(the virtual filesystem over NovaFS, FAT32 and EXT2, with journaling, quotas and
snapshots), networking (IPv4, TCP sockets, the SSH daemon), userspace (accounts, sessions,
the NovaPkg package manager), the shell, and the logic of the classroom desktop.

Layout:

- `src/` the verified library. `system.rs` holds the whole machine and its boot sequence;
  `shell/` the command interpreter, one function per command; `gui/` the desktop's logic
  (classroom control, the assistant, the login portal, the student terminal).
- `tests/` tests of the library on concrete values.
- `app/` the front ends. By default the command line: it boots the machine and runs shell
  lines from standard input. With `--tui`, the text dashboard (ratatui and crossterm): the
  simulated console beside the kernel, system-call, classroom, assistant and audit views,
  switched with F1 to F5. `app/desktop.rs` holds the windowed desktop written against
  eframe 0.27; eframe is not among the dependencies, so the module is not declared.

Filesystem metadata (superblock, inodes, directories, journal) is kept as typed records beside
the disk image rather than serialized into its sectors 1 to 15; only file data is stored in
disk sectors. Tables keyed by pid, descriptor, frame, user or package are vectors kept in key
order where listings depend on it, with the uniqueness and order of their keys stated as invariants.

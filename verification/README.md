# Oxide

Oxide is a small x86_64 kernel: a framebuffer and serial console, a
scheduler with processes in their own address spaces, copy-on-write
fork, an ELF loader, a shell, a virtio block device with the OXFS file system,
a virtio network card with ARP, ICMP echo, UDP and a one-connection TCP
server, and a UHCI boot keyboard.

## Layout

- `src/` is the verified library. What the kernel decides lives here, with
  its contract, and is checked by Verus: the file system's sector
  layout, packet formats and checksums, the TCP state machine, the scheduler's
  queues, the frame allocator, fork and copy-on-write page flags, ELF parsing
  and load plans, the initrd, the shell's command language, the PS/2 key queue fed through
  `pc_keyboard`'s scancode decoder, the framebuffer's
  glyph drawing, descriptor and register values for the virtio and UHCI
  devices, and the ACPI and PCI table readers. Laws that span several
  functions (a checksum that verifies, a file that reads back what was
  written while the other files stay as they were, a backspace that undoes a keystroke, a wait that finds what a kill
  left) are proof functions next to the code they speak of.
- `tests/` runs the library on concrete values.
- `app/` holds what moves bytes: port and memory-mapped I/O, page-table
  edits, the assembly for context switches, ring-3 entry and system calls,
  the boot sequence, and the QEMU runner (`app/main.rs`). Each of its steps
  asks the library what to do.

# Aether

Aether is a small educational kernel for x86_64. This crate holds its logic, written and proved
in Verus, and the program around it.

- `src/` is the library: what the kernel decides and computes. The network stack (Ethernet, ARP,
  IPv4, ICMP, UDP, DHCP, DNS and TCP), the FAT16 and in-memory file systems, ATA transfers, the
  ELF loader, the schedulers of processes, kernel threads and tasks, ACPI and PCI discovery, the
  interactive shell, and the order of the boot.
- `app/` is the program: ports, memory-mapped registers, page tables, interrupts, context
  switches and the futures that the executor polls. It asks the library what to do and does it.
- `tests/` runs the library on the host.

## How the library is written

Every executable function states exactly what it computes, over a mathematical model of its data:
`TcpModel` for the connection table, `DiskModel` for a disk, `SchedModel` for the processes, and
so on. Nothing in `src/` touches a device. Work that alternates with a device is a step function:
it takes what the device answered and returns the next action, such as a register to write, a
page to map, or a frame to send.

What holds of the library as a whole is stated as public proof functions, beside the functions
they are about or in files named `laws`, `timing` and `bounds`. For example:

- a file reads back as it was written, and other files are left alone
  (`fat::laws::files`, `fs::ram`);
- TCP delivers the stream that was sent, and never sends beyond the peer's window
  (`net::tcp::laws`);
- every process and every thread gets its turn (`process::laws`, `sched`);
- every job on the network ends, whatever arrives (`net::bounds`).

Calls into other crates stand behind small wrappers whose doc comments say what is taken on trust:
`x86_64` for addresses and descriptor tables (`memory`, `gdt`), `crossbeam-queue` for the queues
that interrupts fill (`task::queue`), and `pc-keyboard` for the meaning of scancodes
(`task::keyboard`).

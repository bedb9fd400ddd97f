# virtio_drivers

VirtIO guest drivers for block devices and consoles, verified with Verus.

- `src/` is the verified library. `state` models a queue and what each operation
  makes of it, `inner` and `queue` implement the queue over volatile memory cells,
  and `flight` proves the laws of a queue whose device keeps to the rules. `blk` and
  `console` are the drivers, `interrupt` hands interrupts to them, `layout` and `page`
  place a queue in memory, `feature` negotiates features. `cell` holds the calls that
  leave the verified code.
- `app/` connects the library to a device: its registers, memory that it can reach,
  locks, waiting and futures.
- `tests/` runs the library against memory as a device would leave it.

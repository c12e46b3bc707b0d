# logi_wheel

Userspace logic for Logitech direct-drive wheels (RS50, G PRO) and the
G923, with every function of the library proved against its contract by
Verus.

`src/` is the verified library:

- `text`: string routines the rest is specified with (trimming, case
  folding, decimal and hexadecimal numbers, splitting at a character).
- `setting`, `sysfs`, `device`: the wheel's settings registries, typed
  reads and validated, mode-gated writes through a sysfs directory, and
  discovery's decision of which directory is a wheel.
- `fftest`: the guarded force-feedback test sequences, the kernel
  `ff_effect` encoding, per-step progress and the sequence runner.
- `telemetry_helpers`, `relay`, `games`, `relay_cli`, `assettocorsa`:
  where the telemetry helpers live and go, the relay's known games, its
  command line, and the Assetto Corsa shared-memory decoder.
- `floatbits`, `tfstream`, `telemetry`, `beamng`: `f32` handled as bit
  patterns; the captured-TrueForce packet format; the normalized sample;
  the BeamNG OutGauge decoder.
- `error`: the TrueForce daemon's errors and their texts.
- `init_data`: the G923 TrueForce init packets, read out of the C header
  that holds them and written out as a Rust array.

`app/` is the program and the I/O around the library: the relay's
`main`, the Win32 section reader, the real sysfs directory, files on disk,
the clipboard, real-time waits, the build-time generation of the init
data, and the floating-point engine-note synthesis. `tests/` exercises the library from outside.

Two traits stand for what the library talks to: `SysfsIo` (a directory
of attribute files) and `FfDevice` (an open force-feedback device). Their
contracts describe a *modelled* implementation, one that declares itself
so and keeps a history of what was done to it, like the in-memory
`FakeSysfs`. The real directory and device in `app/` are not modelled,
and the contracts claim nothing of them. The sequence runner's own
contract does not depend on that: it states the whole run, every device
call and every flag read, event and wait with what came back, as one
trace that the run's automaton accepts.

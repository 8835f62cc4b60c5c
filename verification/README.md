# udx710_ota

Over-the-air updates for a device that keeps two update slots next to the place it
was first installed in.

An uploaded package (ZIP or gzipped tar) is unpacked into a staging directory and
checked against its metadata: the MD5 digests of the binary and of the frontend, and
the architecture. Applying it copies it into the slot that does not run, records a
trial with the running slot as its fallback, and restarts if asked to. After the next
boot the trial is confirmed if the new slot has come up, and dropped if the fallback
has.

## Layout

- `src/` is the library, verified with Verus. It decides and does not touch the
  device: operations take what was read from the device and answer with a procedure.
  - `slot`, `state`: slots, their paths, and the recorded runtime state.
  - `package`, `digest`, `version`: metadata, validation, digests, versions.
  - `procedure`, `copy`: procedures and tree copies, carried out one action at a time.
  - `update`: the operations.
  - `lifecycle`: what holds of an update from upload to confirmation.
  - `text`, `decimal`, `order`: texts, decimal numbers, lexicographic sorting.
- `app/` reads the device, carries out procedures, and has the types of the HTTP
  interface.
- `tests/` runs the library on concrete values.

What MD5 computes is left to the `md5` crate; everything else in `src/` is proved.

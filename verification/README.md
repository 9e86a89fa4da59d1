# pngme

Hides text messages in PNG files as extra chunks, reads them back, removes
them, and lists the chunks of a file.

- `src/` is the library, proved with Verus:
  - `chunk_type.rs`: four-byte chunk type codes, their property bits, and
    reading one from text;
  - `chunk.rs`: chunks (length, type, data, CRC), reading one from bytes with
    its CRC checked, writing it out, describing it as text;
  - `png.rs`: PNG files (signature and chunks), reading, writing, appending and
    removing chunks (new chunks go before the end chunk), with the
    read/write laws;
  - `commands.rs`: what the `encode`, `decode`, `remove` and `print` commands
    do to the bytes of a file, with the laws that tie them together;
  - `checksum.rs`: the CRC-32 of the `crc` crate, named and called;
  - `path.rs`: whether a path carries the `.png` extension;
  - `bytes.rs`, `text.rs`, `error.rs`, `args.rs`: big-endian numbers, text
    building, the error type and the command arguments.
- `app/main.rs` is the command-line program: arguments (clap), file access and
  printing.
- `tests/` runs the library on concrete inputs.

# psp_prx_decrypter

Decryption of Sony PSP executables (PRX / EBOOT.BIN) and extraction of
firmware update archives (PSAR), with the decisions proved by Verus.

## Layout

- `src/` — the verified library.
  - `buffers.rs` — little-endian fields, range copies and XOR masks.
  - `kirk_lib/` — the software KIRK engine (command 7, the command 1
    payload step) and the fixed-layout KIRK headers.
  - `keys_service.rs`, `tag_info.rs` — the tag tables and their look-up.
  - `prx_types.rs` — the PRX header layouts (types 0, 1, 2, 5, 6) and the
    type 0 / type 1 decryption.
  - `headers.rs`, `prx_decrypt.rs` — seed expansion, KIRK header
    decryption, and the first entry points.
  - `common.rs` — gzip / zlib decompression of a buffer.
  - `psp_decrypt_lib.rs` — firmware table decryption, block decompression,
    the IPL entry points and the IPL descrambler.
  - `psar_decrypter.rs` — the archive walk: context, block decoding,
    header demangling, version, file-name tables and name resolution.
  - `psar_extract.rs` — what becomes of each file of an archive (where it
    goes, the table it fills, what is written), as plans for the caller.
  - `eboot.rs` — the two kinds of input file.
- `app/` — the command-line program: reading and writing files, creating
  folders, printing, and the extraction loop that carries out the plans.
- `tests/` — tests on concrete values.

The key material (KIRK keys and tag tables) is passed in a `KeyVault`; the
program starts with an empty one.

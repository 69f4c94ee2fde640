# wasm_imager

Plans the layout of an embedded-OS disk image (GPT, DOS/MBR, or no table):
a JSON schema of partitions and the sizes of their input files are resolved
into byte placements and a disk size; the partition table is planned from
them and written on a sparse in-memory disk; the disk's non-zero blocks come
back as metadata chunks for the caller to write.

Layout:

- `src/` — the library, verified with Verus:
  - `schema.rs` — the schema types and the file-size map;
  - `hex.rs` — hexadecimal numbers (DOS ids and partition types);
  - `utils.rs` — UUID texts and random ids (calls into `uuid`, `getrandom`);
  - `resolver.rs` — placing the partitions and sizing the disk;
  - `resolution_laws.rs` — what every resolved layout satisfies;
  - `disk.rs` — the sparse disk and its non-zero chunks;
  - `table_io.rs` — the sparse disk behind `std::io` `Read`, `Write` and
    `Seek`, for the partition-table writers;
  - `tables.rs` — the calls into `gptman` and `mbrman`, with their contracts;
  - `imaging.rs` — what the partition table leaves on the disk, and writing it;
  - `generator.rs` — the GPT / DOS entries to write, the disk ids and
    `generate`;
  - `generation_laws.rs` — every resolved schema can be laid out and
    written; generation without random values is deterministic;
  - `layout.rs` — the result types.
- `app/` — the WebAssembly entry point (`wasm-bindgen`, `serde`, `tsify`).
- `tests/` — tests of the library.

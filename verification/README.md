# gcdgold

A verified library for CD-ROM data tracks: it reads raw sectors and the ISO 9660
and Joliet filesystems in them, describes what it finds, and lays a described
filesystem out again. Every item of `src/` is verified with Verus; the contracts
say what each function returns, and the `*_laws` modules state what holds of
several of them together.

- `src/raw_cd/`: sector framing, error detection and correction, frame times.
- `src/iso9660/`: records, descriptors, path tables, the layout of a filesystem and
  the walk that reads one.
- `src/manifest/`, `src/xa.rs`: the project description and the XA subheader.
- `src/ppf.rs`: PPF 2 patches. `src/report.rs`, `src/message.rs`: what is told.
- `app/`: the command line, YAML and file access around the library.
- `tests/`: the library as its callers see it.

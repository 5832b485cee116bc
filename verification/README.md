# intel_hex_expand

A WinMerge unpacker plugin that expands Intel HEX files (`.hex`, `.ihx`) into
one line per sixteen data bytes, each led by the absolute address, so that
two HEX files can be compared byte by byte.

- `src/` is the library, verified with Verus:
  - `intel_hex.rs`: the expansion itself (`expand`), its specification
    (`expansion`, `line_effect`, `record_effect`, `data_rows`) and the laws
    proved of it;
  - `hex.rs`: reading hexadecimal pairs and rendering hexadecimal and decimal
    numbers;
  - `text.rs`: UTF-8 decoding and whitespace trimming of a line;
  - `com.rs` and `plugin.rs`: what the plugin's COM objects answer, and the
    ledger of live objects that decides when the DLL may unload.
- `app/` is the Windows DLL: the COM vtables, reference counts, type-library
  dispatch and file access, which call the library for every decision.
- `tests/` runs the library on concrete inputs.

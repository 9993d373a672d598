# sheets_mcp

An MCP server that reads and writes Excel workbooks, with its logic
verified in Verus.

- `src/` is the verified library:
  - `types` — cell coordinates (`A1`, `aa42`) and ranges (`Sheet1!A1:B10`):
    parsing, printing, column letters and indexes, ARGB colors, and the
    records the tools answer with;
  - `reader` — what `read_structure` and `get_sheet_range` answer, from the
    plain model of a workbook (`Workbook`) or of a sheet's values
    (`ValueGrid`), and the cell value and format rules;
  - `writer` — what an update writes (one cell, or a pasted block) and the
    update records;
  - `file_source` — write targets, the download cache's file names and the
    legacy `.xls` test;
  - `conversion` — the LibreOffice (`soffice`) command line for an
    `.xls`/`.xlsx` conversion and how each way a run ends is reported;
  - `error` — the error type and its messages;
  - `text` — numerals, trimming, ASCII case and joining.
- `app/` is the server: the MCP protocol (rmcp), file and network access,
  the spreadsheet crates (umya-spreadsheet, calamine) that read workbooks
  into the library's models and apply its writes, and the LibreOffice process
  that the `.xls` round trip runs.
- `tests/` exercise the library.

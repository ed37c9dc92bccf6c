# gtkdownloadbar

A download bar for GTK that fetches a file over HTTP or FTP and shows its
progress.

- `src/` is the verified library (Verus): choosing the name a download is
  saved under (`Content-Disposition`, URL path, percent-decoding), header
  values, the resume state file (`<bytes>:<offset>` lines), the decisions of
  the download events handler, and the state machine of the bar's button.
- `app/` is the GTK window, the network requests and the file handling
  around it.
- `tests/` exercises the library on concrete values.

# ironfoil

Installs Nintendo Switch game backups (NSP, XCI, NSZ) over USB to a console
running Tinfoil.

- `src/` is the verified library:
  - `paths`: which paths are game backups, and which paths to install for a
    file or a directory listing;
  - `staged`: the list of files staged for installation (no path twice, total
    size kept), with selection;
  - `progress`: installation progress events, the guard that reports the end
    of an installation, and what a front end does with the events;
  - `bytes` and `tinfoil`: little-endian encoding and the Tinfoil USB protocol
    messages, command parsing and the splitting of file ranges into pieces.
- `app/` is the command-line program (`usb <path> [--recurse]`): argument
  handling, the directory walk, the USB and file I/O and the progress bars
  around the library.
- `tests/` runs the library on concrete values.

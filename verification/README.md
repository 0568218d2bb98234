# Long Lens

A simple, minimal and modern RDP client for GNOME, based on FreeRDP.

## Layout

- `src/` — the `longlens` library, written in Verus. Every function carries
  a contract that Verus proves:
  - `config` — splitting `DOMAIN\user` logins and `host[:port]` addresses;
  - `clipboard_codec` — `CF_UNICODETEXT` and `FILEGROUPDESCRIPTORW`
    encoding and decoding, and safe local names for remote files;
  - `session` — the session events and commands, and the rules of the
    session worker (poll results, the reconnect cycle and its backoff);
  - `input`, `key_handler` — pointer flags, scancodes, and which key
    events go out as characters, as keycodes, or not at all;
  - `destinations` — the saved destinations: duplicates, updates, undoable
    removal, search;
  - `rdp_file` — destinations imported from `.rdp` files;
  - `portal_transfer` — downloading remote clipboard files chunk by chunk
    under names that do not clash;
  - `secrets` — how passwords are filed in the keyring;
  - `ui` — which page shows, how sessions start and end, clipboard echo
    suppression, search results, the certificate prompt and error texts;
  - `text` — the string and UTF-16 helpers the above are built on.
  Public proof functions state the properties that span several calls
  (round trips, undo, key press/release pairing, download completion).
- `tests/` — tests of the library on concrete values.
- `app/` — the GTK application around the library: windows and dialogs,
  the FreeRDP adapter and its worker thread, the keyring, the destinations
  file, and the desktop portal.

# airwave

The verified core of a UPnP/DLNA music server and WiiM control plane.

- `src/` is the library, checked by Verus: the music catalog and its
  builders, ContentDirectory and ConnectionManager answers, DIDL-Lite,
  SOAP messages in both directions, SSDP messages, HTTP range handling,
  play queues and groups, the playback monitor's steps, device replies
  and commands, configuration checks, and bulk metadata edits. Calls into
  other crates (XML reading, URL parsing, escaping, percent-encoding,
  MIME guessing, JSON, sorting, shuffling, UUIDs) sit behind small
  trusted wrappers whose contracts say what those crates document.
- `app/` is the program around it: configuration files, the music scan
  and tag writing, sockets, HTTP, SQLite, and the loops that talk to
  devices.
- `tests/` exercise the library from outside.

Not part of this project: play sessions and gapless pre-fetch of the next
track, the device's parametric EQ bands, channel balance and Wi-Fi status,
and reading back the crossfade setting.

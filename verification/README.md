# five33clip

The logic of a desktop clip manager for OBS replay-buffer recordings, written
in Verus and proved against its contracts.

- `src/` is the verified library: the clip store and tag registry, the OBS
  profile (`basic.ini`) and WebSocket protocol, the ffmpeg argument builders
  and export budget, the job queue decisions, clip merging, cleanup planning,
  the folder-watcher and monitor state machines, and the settings rules.
  Each public function states what it returns or changes; the `law_*` proof
  functions state what holds across calls.
- `app/` is the desktop application around it: windowing, file and network
  I/O, process spawning, the WebSocket connection and the object-store client.
- `tests/` runs the library on concrete values.

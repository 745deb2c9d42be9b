# nypa_db_connector

A client for NYPA DB publisher streams and for NYPA DB's variable command
and control, as a Verus-verified library with a thin Bevy layer around it.

- `src/` is the verified library. It decides and decodes: publisher socket
  names and their order, frame headers, flat-file records and the replay
  state machine, reconnect and reader decisions, the reflected variables and
  control replies, and fault-area state. Float quantities are carried as
  their IEEE-754 bit patterns.
- `app/` holds the I/O and the engine glue: sockets and reader threads,
  files, HTTP JSON-RPC, serde types, and the Bevy plugins and systems.
- `tests/` exercises the library from outside.

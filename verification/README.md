# asciinema, verified core

The logic of the asciinema terminal recorder as a Verus library: the
asciicast formats (reading event times and codes, writing v2 lines), the
encoders (asciicast v2, raw, plain text), frame listings of a recording,
the playback decisions and the player's virtual terminal, the recording
session's key handling and clock, the streaming protocol (ALiS) and its
reconnection delays, configuration paths and keys, the HTTP API's status
handling and the local server's asset rules.

- `src/` is the library. Every function there is verified by Verus against
  its `requires`/`ensures`; calls into avt, serde_json, rand, url and std
  that Verus cannot read go through small trusted wrappers, each documented
  with what its contract claims.
- `tests/` runs the library on concrete values.
- `app/` is the command-line program around the library: argument parsing,
  reading recordings from disk, writing to the terminal and the play loop.

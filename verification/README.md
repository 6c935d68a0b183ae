# POC-COM

POC-COM sends mail and social posts over any voice channel by speaking them: a
message is spelled out in a small vocabulary of recorded words, and the receiver
transcribes what it heard.

The library under `src/` holds what the application decides, with contracts that
Verus proves. The application under `app/` draws the windows and does the input
and output: audio devices, serial ports, files and the network.

| module | what it holds |
| --- | --- |
| `text`, `bytes`, `single` | text, byte and single-precision arithmetic in exact terms |
| `wav` | reading and writing WAV files |
| `resample`, `rx`, `tx` | moving between sample rates, capturing, playing |
| `device`, `ptt`, `error` | picking devices, keying a radio over a serial port |
| `vad`, `listen` | finding transmissions in a capture, the listening session |
| `pipeline` | what is spoken and what a transcript turns out to be |
| `send`, `mail`, `board`, `app` | the two modes and the application around them |
| `settings`, `maidenhead`, `map`, `land_geojson` | identity, locators, the map and its land |
| `waterfall` | which stretches of audio become rows, and how rows scroll |
| `probe`, `probe_app` | the channel diagnostic |

Samples are opaque to the library: where their values matter to a decision, they
come in as bit patterns. Positions are in microdegrees and times in nanoseconds
on one monotonic clock, or in seconds since the epoch.

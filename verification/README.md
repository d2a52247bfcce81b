# grpcbench

Compares how fast Solana transaction streams (Yellowstone gRPC, Jito
ShredStream, Aperture txstream, Shreder Binary, Jetstream) deliver the same
transaction signatures, and writes an HTML report and a terminal summary.

The library under `src/` is verified with Verus:

- `config` — the configured streams and how they become endpoints.
- `observation` — the table of sightings: per signature and endpoint, the
  earliest one and the count of repeats.
- `stats` — races, wins, lags and pairwise leads over the sightings.
- `collector` — what a collector decides: retry pauses, which signatures a
  message carries, the requests it sends.
- `text`, `report`, `meta`, `terminal`, `html` — text fitting, table
  layouts, colours and the two reports.
- `laws` — properties that hold across inputs and calls.

`app/` holds the program around it: argument and file handling, the stream
clients, the clock and the channel between collectors and the table.

# astroburst_server

A headless server for astronomical images, with an SSH tunnel to remote instances and a terminal
dashboard. The library under `src/` holds what the server decides, with contracts that Verus
proves; the program under `app/` does the I/O around it.

## Layout

- `src/fits/`: the RICE_1 tile codec with the proof that decoding undoes encoding, FITS headers as
  they are read and written, the compressed copy of a file of many units with the proof that a
  reader finds every unit in it, and the choice between mapping and reading.
- `src/server/`: sessions and their images, the activity log, errors and their replies,
  configuration, the tunnel's arguments and its supervisor.
- `src/server/v2/`: the requests on sessions, images, regions, pixels, histograms and files.
- `src/server/tui/`: the dashboard's state, its keys, its round of polling, and what it shows.
- `src/text.rs`: texts as sequences of characters.
- `app/`: `main`, HTTP, processes, sockets, files, the terminal, and floating point.
- `tests/`: tests of the library.

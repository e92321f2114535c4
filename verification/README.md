# vox

A terminal music player for local libraries: it scans folders of audio files into an
embedded database, lists and searches them by album, artist and title, plays them, and shows
synchronised lyrics.

- `src/` is the library, verified with Verus: the catalog logic (album index keys, album
  order, search, distinct artists and albums, album summary), lyrics parsing, WAV header
  repair, reading the prober's JSON report, file-type and codec naming, number and duration formatting, Unicode display
  widths and truncation, the navigation state machine of the interface, the text of its
  rows and bars, the colour themes, and the command-line decisions.
- `app/` is the program around it: command-line parsing, configuration and playlist files,
  the sled database, tag reading, audio output, the spectrum analyser and the terminal
  drawing loop.
- `tests/` runs the library on concrete inputs.

# groovy-cli

Casts Plex media and local files to a CRT through a MiSTer FPGA with the Groovy core. FFmpeg decodes
the video into fields and the sound into samples; the program sends both over UDP.

`src/` is a library in Verus. What it does is stated in contracts and proved:

- `groovy`: video modes, commands and status reports; `bytes`: little-endian integers.
- `connection`: which datagrams a session sends, how long it waits, what status reports change;
  `lz4`: compressed fields.
- `mock_server`: a stand-in for the FPGA. Its laws say that what `connection` sends arrives in full.
- `streamer`: the sending loop, the sound that follows the picture, what the Plex server is told.
- `ffmpeg`: the arguments of FFmpeg, and frames out of its output.
- `plex`, `xml`: addresses on a Plex server, and what its answers say; `language`: languages by name
  and by code.
- `config`, `auth`, `cli`: settings, signing in, and what the commands pick and show.
- `test_pattern`: the picture for calibration; `double`: scaling by double-precision factors, on
  integers; `decimals`: numbers with a fixed count of decimals; `text`: strings and numerals.

Functions that call `lz4_flex`, `quick_xml`, `toml` or an unspecified function of the standard
library carry a contract that is trusted; the comment above each says what it claims.

`app/` is the program around the library: sockets, processes, files, requests and the command line.
`tests/` runs the library.

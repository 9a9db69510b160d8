# supvan

The protocol core of a label-printer driver, verified with Verus: page buffers,
LZMA block packing, halftoning, two-colour planes, material records, the model
registry, discovery, and the print flow as a state machine.

- `src/` is the library. Every function states in its contract what it returns.
  Where the LZMA coder or a link has the last word, the contract says what it is
  asked and what follows from each answer. The public proof functions state what
  holds of the library as a whole.
- `tests/` runs it on concrete values.
- `app/` is the program around it: the command line, the print server, the
  Bluetooth scan and the model table on disk. Link drivers plug in behind its
  `Transport` trait.

| module | what it holds |
| --- | --- |
| `buffer` | 4096-byte print buffers: header, checksum, splitting a page into bands |
| `compress` | the LZMA blocks that carry the buffers |
| `single`, `dither` | single-precision arithmetic on whole numbers; ordered and error-diffusion dithering |
| `twocolor`, `page` | red and black planes; pages from pictures |
| `rfid`, `status` | material records; what a printer reports |
| `printer`, `spp` | the print flow, provisioning, framing |
| `models`, `discovery` | the model registry; which devices are printers, and which are one |
| `server`, `cli` | the decisions of the print server and of the command line |
| `bytes`, `text`, `error` | helpers that the rest is stated over |

# dmvop

A "dumb" voice input terminal: it reads the microphone through vtx-engine
(Whisper), turns speech into text and sends it to a game or tool over
stdout, stderr, TCP, UDP or UDP broadcast.

The project is written in Verus. `src/` is the verified library:

- `args` — the command-line arguments and the configuration file's values,
  their merge, output modes, the output pattern, and the `+name(args)`
  post-processing spec parser;
- `post_proc` — post-processors looked up by name (`pinyin`, through the
  `pinyin` crate);
- `output` — message framing, socket addresses, the UDP broadcast address and
  the TCP client list;
- `device` — choosing the audio input device;
- `paths` — resolving configuration paths;
- `text` — character-level string utilities and their specifications.

`app/` is the program around it: clap and serde/TOML input, the tokio output
channels, cpal and vtx-engine, and the event loop.

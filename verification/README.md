# rust_silk

A SILK v3 encoder/decoder front end (WeChat voice files with or without
the Tencent `0x02` prefix, raw PCM s16le and mono 16-bit WAV), whose logic
is written in Verus and proved against its contracts.

- `src/` — the verified library:
  - `rates` — supported API and internal sample rates, the default internal rate;
  - `text` — exact and ASCII-case-insensitive string comparison, decimal
    `i32` parsing and rendering;
  - `args` — the `encode` and `decode` command lines;
  - `pcm` — little-endian 16-bit sample streams;
  - `wav` — the RIFF/WAVE chunk walk, the 44-byte header, input layout and
    reference samples;
  - `path` — whether an output path names a `.wav` file;
  - `container` — the SILK file container (magic, packets, end marker);
  - `encoder` — settings checks, framing of PCM input, packet pacing, the
    encoding session;
  - `decoder` — rate and input checks, tolerant-mode decisions per frame,
    the output sink with its metrics counters, the decoding session;
  - `messages` — the text of every error.
- `app/` — the command itself: file and standard-stream I/O, the calls into
  the SILK C codec, progress and floating-point metrics output.
- `tests/` — concrete cases, and whole encode/decode runs with a
  pass-through stand-in for the codec.

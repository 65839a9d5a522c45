# wren

The core of Wren, a dictation app (speak, get the text pasted where the
cursor is), written in Verus and proved against its contracts.

- `src/` — the verified library:
  - `domain`, `ports`: clips, transcripts, provider settings, the port errors and traits;
  - `text`, `metrics`, `alignment`: word normalization, word-level Levenshtein
    alignment (with its optimality proved), and the integer counts behind the
    word, punctuation and capitalization error rates;
  - `vad`: edge trimming and long-pause compression from per-frame speech flags;
  - `preprocess`: downmix, normalization, FLAC encoding (flacenc);
  - `protocol`, `embedded`: the worker subprocess's invocation, PCM framing
    and the interpretation of its reply;
  - `models`, `download`: the model catalog and the download as a state machine
    (skip intact files, stream, check the digest, publish);
  - `textsink`: the paste shortcut's key sequence and the delivery steps;
  - `remote`: endpoints, rejections, retries and the model list filter;
  - `bench`: the benchmark's command line, sample selection and results table;
  - `stores`: the persistence adapters' values and list logic, `/proc` parsing.
- `app/` — plain Rust around it: files, network, clipboard, keyboard,
  subprocesses, audio output, and the floating-point stages (resampling,
  speech probabilities, error rates).
- `tests/` — tests of the library.

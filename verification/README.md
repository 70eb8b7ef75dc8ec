# live_poly_trans

Live transcription and translation of a meeting, from two capture lanes (the
microphone and the system's speaker output), with the session recorded to
disk. This crate is the verified core: the decisions about audio, text,
timing and translation are functions here with contracts that Verus proves.
Device capture, the desktop shell and the whisper sidecar's recogniser are
not part of it; their decisions that stand here are named below.

## Layout

- `src/` — the library, verified with Verus.
  - `local_agreement`, `scheduler` — rolling decodes turned into committed
    and volatile text; utterance boundaries; the streaming scheduler over
    any speech recogniser and voice-activity detector.
  - `language`, `translate`, `translate_lane`, `interpreter` — which
    language a sentence is translated into, the bounded translation queue
    that drops the oldest sentence first, the translation worker's wake-up
    rules and outcomes, and the local model's prompt.
  - `translation_backend` — requests, DeepL language codes and endpoints,
    Ollama URLs and instructions, keychain tool arguments and answers.
  - `soniox` — the reducer from Soniox's token stream to committed text.
  - `whisper_engine`, `sidecar` — the rolling transcription scheduler, the
    PCM payloads of the whisper sidecar, and its per-stream audio decisions
    (buffering, trailing silence, when to transcribe and finalise).
  - `mix`, `record` — the mixer that puts every lane on one timeline, and
    the bookkeeping that keeps each lane's file the same length as the mix.
  - `pipeline`, `capture` — session clock, capture anchors and time jumps,
    notices, the output-device prompt and switch rules, silence and overrun
    watches, and the running session's command handling.
  - `library` — reading back recorded sessions: titles, durations,
    transcripts joined by utterance id and put in spoken order.
  - `paths`, `models`, `dylib` — where models and the translation backend
    library are looked for.
- `tests/` — tests of the library on concrete values.
- `app/` — a command-line program around the library: WAV and JSON files,
  HTTP and websocket exchanges, the keychain tool, the resampler and the
  dynamically loaded translation backend.

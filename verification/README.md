# voice_control

Voice control for a speech-to-text front end. An utterance such as
«Вилли, открой браузер» is normalised, the agent's name is taken off, and the
command that follows is matched against the configured triggers (or split into
a chain of commands, or handed to a language model). The library decides what
to run and what to say; the program around it runs it.

Layout:

- `src/` — the verified library (Verus):
  - `text.rs` — character-level primitives over `Seq<char>`: white space,
    words, joining, trimming, substring search, splitting, replacing;
  - `config.rs` — commands, configuration and their defaults;
  - `server.rs` — normalisation, trigger matching, the agent's name, chains,
    the decision behind the `/intercept` endpoint, and what to do with the
    model's answer;
  - `ollama.rs` — the system prompt, tool calls, reply handling and the
    shaping of command output for the model;
  - `tts.rs` — confirmation phrases and the choice of speech engine;
  - `logger.rs`, `clock.rs` — the bounded event log and its time stamps;
  - `piper.rs` — Piper paths, voice catalog and download addresses;
  - `commands.rs` — testing a command, command-line flags, download progress.
- `tests/` — tests of the library on concrete values.
- `app/` — the desktop program (Tauri window, HTTP server, processes, network,
  files), which calls the library for every decision.

What is proved, besides each function's contract (see the `law_` proof
functions): the first matching command wins; an utterance that is not taken
over runs and says nothing; every command line run is a configured one; a
configured trigger said after the agent's name is always taken over; a
chain such as «открой браузер и открой калькулятор» runs the command of every
matching part, in order; a command text that matches no command runs nothing,
as a whole or as a chain; normal forms are made of
letters and single spaces and are fixed points of normalisation (where
lowercasing leaves them alone); chain steps are trimmed and free of joining
words; the log holds the newest 500 entries pushed, oldest first.

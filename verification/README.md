# jarvis_core

The decision logic of the Terra voice assistant, verified with Verus.

- `src/` is the verified library:
  - `text`: whitespace, trimming, replacing, joining and whitespace collapsing
    on character sequences;
  - `transcript`: cleaning of whisper.cpp output (noise markers, bracketed
    annotations, reflow into one line);
  - `ollama`: the sorted, de-duplicated list of local models and lookups in it;
  - `conversation`: the voice conversation (history checks, model choice,
    request messages, the line-by-line reading of the streamed reply);
  - `chat`: the text chat of the window (request checks, request messages,
    answer);
  - `listener`: the once-only choice of wake-word engine and the routing of
    audio frames;
  - `speech`: endpointing of commands and conversation turns, and the choice
    of Vosk model;
  - `whisper`: Whisper settings, the once-only setup resolution, the command
    line and the reading of its output;
  - `events`: the messages between the assistant and its window.
- `tests/` runs the library on concrete inputs.
- `app/` holds the I/O around it: HTTP to Ollama (reqwest), JSON (serde),
  the Vosk and Rustpotter engines, the whisper.cpp process and WAV files
  (hound), and the process-wide state.

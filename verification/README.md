# whisper_lite

Local dictation: hold a key, talk, let go, your words are in the box.

The library holds what the application decides and computes, verified with Verus. Each of its
functions has a contract, except `history::now` and the call of the clock below it: nothing holds
of every reading of a clock.

- `text`, `annotations`, `capitals`, `snippets`, `words`, `chars` — from a raw transcript to the
  text that is typed
- `dictation` — one dictation, from the key that starts it to the text that is inserted
- `hotkey`, `specialkey` — ordinary shortcuts and the single keys Fn and Caps Lock
- `hud`, `tray`, `sound`, `inject`, `audio`, `engine` — what is decided around the windows, the
  menu, the cues, the clipboard, the microphone and the decoder
- `settings`, `history`, `models`, `download`, `commands` — what is kept, and what the settings
  window can ask for
- `bench` — measuring speech models: the clips, the measurement, word error rates, the report
- `order`, `sieve`, `paths`, `numbers` — sorting, filtering, file paths, decimal text

Laws that hold across functions stand beside them as public proof functions named `law_…`.

What the standard library and `global-hotkey` do is stated as trusted contracts: the character
classes and case mappings in `chars`, the clock in `history`, and the accelerator parser in
`hotkey`.

`app/` is the application around the library: files, network, audio, windows and the other effects.
The menu-bar application runs on macOS. `tests/` runs the library on concrete values.

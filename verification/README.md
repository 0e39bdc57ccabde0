# yinhe_editor

The editing core of the Yinhe MIDI editor as a verified library: every
function under `src/` carries a `requires`/`ensures` contract that Verus
proves, except six small wrappers of standard-library functions (string
equality, `String::push`, integer parsing, `str::chars`, `Path::file_name`)
whose contracts are trusted.

- `workspace` (+ `workspace/reorder`): the open tabs, tab drag reordering,
  closing, placing a loaded project.
- `document`, `history` (+ `history/commit`, `history/apply`): the undo/redo
  stack, pending text-field edits and their commits, undo and redo of field
  edits, and event-list deltas merged in tick order.
- `note_edit`: the geometry of note moves and mirrors that undo replays.
- `midi_compat`: the per-key MIDI view (with its tempo segments) and the
  archive view of a project.
- `shortcuts`: the shortcut table, its defaults and its stored form.
- `keyboard`: which actions a key press triggers.
- `clipboard`: the decisions of the clipboard shared between windows.
- `quantize`: quantization presets and their tick intervals.
- `num_expr`: the number-expression parser of the batch-edit boxes.
- `autosave`: the autosave manifest, batch merging, recovery and the rescue
  plan after a lost GPU device.
- `engine`, `audio_settings`: sound-font resolution and the audio-engine
  rebuild decisions.
- `poll`, `startup`, `sel_hint`, `text`: status texts, start-up readiness and
  string helpers.

`app/` holds what the library leaves to its caller: file and clock access,
the JSON forms of the settings and autosave files, floating-point tick
arithmetic and wall-clock playback. `tests/` exercises the library on
concrete values.

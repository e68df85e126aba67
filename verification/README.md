# ahess

The verified core of ahess, a tool for writing multi-voice scores in custom tunings.

- `src/` is the library, written in Verus. Every function has a contract that Verus proves.
  Where a result comes from a closure that the caller passes in, or from std's path parsing
  on names whose parsing differs between platforms, the contract states what holds whatever
  that result is:
  - `history`, `history_laws`: undo and redo of project, score-row and score-cell changes,
    and the laws that undo and redo obey;
  - `part`, `project`, `score`, `document`, `score_document`, `row_edit`: parts, scores,
    cell edits, parse issues, the saving of an open score, and edits of score rows;
  - `arrangement`, `arrangement_playback`, `parts_summary`: the sequence of parts, the
    playback loop over it, and what the parts workspace shows of both;
  - `restore`, `status`, `note_grid`: how a restored state meets the open documents and
    panes, the session's status line, and the rows of the note details grid;
  - `wav`, `convolution`, `audio_build`: WAV inspection, impulse-response assets and the
    files and headers of an audio build;
  - `change_db`: the order of database change files and the migration script;
  - `text`: character-level helpers.
- `app/` is the command-line program around the library: reading and writing files, and
  the parts that use floating point.
- `tests/` runs the library on concrete values.

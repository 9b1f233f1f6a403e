# ogma_core

The core of Ogma, a desktop meeting recorder: it records (or imports) audio
as rotating 16 kHz WAV segments, transcribes them, has the notes written with
speaker labels, and syncs the result to Notion, a Markdown folder and Apple
Notes.

- `src/` is the library, written and proved with Verus: WAV framing and
  repair, segment rotation, transcript assembly and merging, the notes'
  blocks, Markdown and HTML, the Notion pages' blocks, properties and
  transcript batches, the sync fan-out, the
  pipeline's resume decisions, the retry schedule, the settings' defaults and
  secrets, the desktop session and the import rules. Each public function
  states its result in its contract; the laws that span functions are public
  proof functions (`lemma_*`).
- `app/` is the plain Rust around it: files, SQLite, HTTP, the microphone,
  the native keystore (Windows, macOS), the Windows keep-awake call, the MCP
  server, the pipeline runner and the desktop commands. Its decisions are
  the library's, with one input of its own: the notes model a configuration
  that names none falls back to is read from `OGMA_NOTES_MODEL`.
- `tests/` runs the library on concrete cases.

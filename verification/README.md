# Northstar

A screenwriting library: every paragraph of a script is a typed screenplay
element, laid out to standard master-scene geometry, stored as plain
markdown, and exportable as text, Fountain, Final Draft or a PDF page plan.
The library is written in Verus: every function in `src/` carries a
contract that Verus proves, but for a handful of wrappers around the
standard library (`String::push`, and Unicode's case mapping and letter
classes, whose results the contracts name), which are taken on trust.

## Layout

| Module | What it holds |
|---|---|
| `text` | Character-level string operations, with their meaning over `Seq<char>` |
| `model` | Elements, blocks, documents, word wrap, paste guessing |
| `editor` | The page's key table, every structural keystroke, where the caret goes, Find |
| `scenes` | The script as scenes: the index cards, moving and deleting whole scenes |
| `history` | Script-wide undo and redo |
| `storage` | The markdown file format, file names, import, the library's rows |
| `roundtrip` | Why a script saved and read back is the script that was saved |
| `fountain` | Reading Fountain and Final Draft files |
| `export` | Line composition, pagination, the PDF's page plan, text/Fountain/FDX |
| `pages` | Reading mode: the sheet on show, how keys turn it, who speaks on each line |
| `settings`, `settings_file` | The settings file, read and written, and why it reads back |
| `theme` | The themes' colour tables |
| `alerts` | Toasts and questions, and how the clock and the user's answers move them |
| `blur`, `shell`, `ui`, `caret`, `icons`, `cards` | The shell's bookkeeping |

`app/` is the program around the library: where the files live, reading and
writing them, drawing the PDF, and a small command line.

The laws the library keeps — a markdown file reads back as the script that
was written, a settings file reads back as the settings that were written,
undo and redo take each other back, a moved card moves its whole scene and
loses nothing — are public proof functions named `law_*`.

# tuna

A pixel-art editor for indexed-color image collections (`.ahi`) and bitmap
fonts (`.ahf`), written as a Verus library with a thin SDL program around it.

- `src/` is the verified library: images, palettes and fonts (`image`), the
  editor state with its undo and redo history (`state`), the painting tools
  (`paint`: lines, flood fill, the canvas), PNG files read into palette
  images and written from them (`pixels`), text helpers (`util`), and the user-interface
  elements under `view/`, each of which states in its contract what it does
  with an input event.
- `app/` opens the window, turns SDL events into the library's events, draws
  the elements, and does the file work (reading and writing collections,
  fonts and PNG bytes, directory listings for tab completion) that the editor asks for.
- `tests/` runs the library on concrete inputs.

# reed

A terminal viewer for markdown and source files, with syntax highlighting, inline images and
diagrams. What the viewer computes is a library that Verus verifies; the program around it talks
to the terminal, to files and to other programs.

## Layout

- `src/` is the library. Every function states what it returns, and proof functions named `law_..`
  state what holds of several functions together.
  - `text`, `paths`, `patterns`, `binary64`: texts, paths, regular expressions, and
    double-precision arithmetic by integers
  - `headings`, `links`, `code_blocks`, `citations`, `mermaid`, `paragraphs`: what is found in a
    markdown document, and how its lines are joined
  - `theme`, `config`, `brightness`: themes and preferences
  - `ansi`, `search`, `highlight`, `syntaxes`, `layout`, `render`: escape sequences, searching,
    coloring, what can be laid out in a width, and rendering
  - `images`, `graphics`, `sixel`, `placeholders`, `visible`, `image_view`: images, from their
    size to the bytes that the terminal gets
  - `keys`, `session`, `chrome`, `frame`, `screen`, `paint`: input, the viewer's state, and what
    is painted
  - `pickers`, `file_picker`, `zmd`, `launch`, `file_type`: pickers, notes, and how a file is opened
- `tests/` are tests of the library.
- `app/` is the program.

The library calls `regex`, `syntect`, `termimad`, `image`, `base64` and `unicode-width`. What it
relies on of each of them is written down at the function that makes the call.

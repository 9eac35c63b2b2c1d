# moosereader

A terminal EPUB reader whose logic is a library verified with Verus.

- `src/` is the library. Every function carries a `requires`/`ensures`
  contract over spec functions and views, and Verus proves each body against
  it. Properties that span several calls (a bookmark found again after it is
  recorded, a menu opened and closed, blank lines collapsed, pictures sent
  once) are stated as public proof functions whose names begin with `law_`.
  - `text`, `width`: characters, strings and terminal columns.
  - `epub`, `css`, `book`: an EPUB read from its archive bytes: the spine,
    the stylesheet cascade, and each chapter formatted and wrapped for the
    terminal.
  - `images`, `pictures`: how pictures are sized, encoded, drawn as
    half-blocks or sent with the kitty graphics protocol.
  - `config`, `settings`, `i18n`, `paths`, `state`: settings, the interface
    languages, where files live, and bookmarks keyed by a book's content.
  - `ui`, `render`: what each key does to the reading state, and what each
    screen shows.
  - `screen`: a small terminal emulator that replays output, for tests.
- Calls into `zip`, `roxmltree`, `textwrap` and `image` are made from small
  wrappers marked `#[verifier::external_body]`; their contracts name the
  crates' results with uninterpreted spec functions, and everything around
  them is verified.
- `app/` is the program: arguments, files, JSON, the terminal and the event
  loop. It hands plain values to the library and performs the actions the
  library decides on.
- `tests/` runs the library on concrete books, stylesheets and keys.

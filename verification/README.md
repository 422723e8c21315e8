# cellar

The logic of a desktop database client, verified with Verus.

- `src/` is the library. It holds how SQL is quoted and its parameters are bound
  (`dialect`, `params`, `query`, `binding`, `sql_server`), how results are cut into
  pages (`paging`), how schemas are put together (`schema`, `sqlite_schema`), the
  books on saved and open connections (`registry`, `connection`), how a foreign
  key is followed (`foreign_key`, `foreign_key_editing`), the state of the
  workspace and its tables (`model`, `table_workspace`, `browse`), and what a grid
  shows, edits and copies (`data_grid`, `editing`, `cell_input`, `clipboard`,
  `context_menu`, `grid_view`). What holds of several functions together stands as
  public proof functions whose names begin with `law_`.
- `app/` runs the library: the drivers' streams, the files, the locks, and the
  arithmetic of column widths, which is floating point. It opens no window: what
  is drawn is decided in `sidebar` and `grid_view`, and drawing it is left to
  whoever embeds the library.
- `tests/` runs the library on concrete values.

Calls into other crates stand behind a few functions that are marked
`external_body`; their contracts are believed, and each says in its comment what it
claims.

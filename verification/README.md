# rsw

A static site generator: markdown files with YAML front matter under `src/`
are rendered into HTML templates from `public/` and written to `build/`.

- `src/` is the library, verified with Verus:
  - `text`: character-level string operations and their models;
  - `pattern`: regular expressions (the `regex` crate), with named results;
  - `parse`: front matter, body and publishing paths of a markdown file;
  - `paginate`: cutting a page into numbered pages and their navigation;
  - `template`: template files, placeholder filling, menu, table wrapping;
  - `builder`: which files are copied where;
  - `site`, `model`: the site settings and the command-line description.
- `app/` is the `rsw` program: command line, file system, YAML/TOML reading
  and markdown rendering with `comrak`.
- `tests/` exercise the library on concrete values.

# rsass

A Sass (SCSS) to CSS compiler core, written in Verus: the parsers, the
evaluation of values and the transformation of parsed items into css are
executable Rust whose behaviour is stated in `requires`/`ensures`
contracts over mathematical models, and proved.

Layout of `src/`:

- `parser/`: byte-level parsers, each with a spec function that says what it
  reads: spaces and comments (`util`), values (`value`), strings
  (`strings`), `@import`/`@use`/`@forward` (`imports`), selectors
  (`css/selectors`) and statements (`items`).
- `sass.rs`: the parsed form of a stylesheet, and its views.
- `eval.rs`: scopes of variables and the evaluation of values, with the
  built-in color functions, argument binding, and the calls of functions
  declared with `@function`, whose bodies run until `@return`.
- `value.rs`, `css.rs`: evaluated values and selectors, and how they are
  written.
- `output/`: the css buffer, and `handle_parsed`/`handle_body`/`handle_item`
  with the checks of what a body may hold.
- `compile.rs`: a whole stylesheet to css, with the stylesheets that
  `@import`, `@use` and `@forward` can load given as names and texts, and
  errors as text.

`app/` reads a stylesheet and the `.scss` files beside it from disk and
hands them to the library.

The public proof functions named `law_*` state properties of the library
that span calls (reading a variable after writing it, what a mixin call or
a content block gives back, the order of nested selectors, ...).

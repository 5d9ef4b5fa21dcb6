# appentry

Command-line dispatch for programs with several entry methods, verified with Verus.

A program registers its entry methods (`FunctionInfo`: name, whether it is the
default, whether it takes positional ("bare") words or named flags, a
description, its arguments and the callable). The library

- chooses the method that the first word names (`VecFunctionInfoExt::get_method`),
- turns the remaining words into a table of named values (`parse_method_args`),
- reads typed values out of that table (`get_arg_from_name`, `get_vec_arg_from_name`),
- renders the help text (`appentry_help_text`),
- and decides, for a whole command line, whether to show help, run a method or
  refuse (`dispatch_parts_from_methods`).

Layout:

- `src/` — the verified library; each module states its results over `Seq`/`Map` models.
  `src/laws.rs` holds the properties that relate several functions.
- `tests/` — tests of the library, including comparisons with `std`'s own parsing.
- `app/` — an example program: registration with `inventory`, reading the process
  arguments, printing, running the chosen method under `tokio`, and the expansion
  behind the entry attribute written with `syn`/`quote`.

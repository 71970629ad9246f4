# boreal

A pattern matching engine for YARA rules, written in Verus: the rules are
parsed, compiled into literals and regexes, and run on byte buffers, and
each step is proved against its specification.

Layout of `src/`:

- `lexer.rs`, `expr_parser.rs`, `parser.rs`: the grammar of rules files,
  as spec functions over the input bytes, and the parsers proved to follow
  them.
- `declaration.rs`, `expression.rs`: what a parse gives.
- `wide.rs`, `base64.rs`, `hex_string.rs`, `regex_widen.rs`, `variable.rs`: compilation of
  string variables into literals and regexes, and the checks applied to
  their matches.
- `atom.rs`, `aho.rs`, `variable_set.rs`: the literal pass, built on the
  `aho-corasick` crate.
- `regex_matcher.rs`: regexes, built and run by the `regex` crate.
- `rule_compiler.rs`, `rule.rs`, `compiler.rs`: compilation of rules into
  namespaces.
- `module.rs`, `evaluator.rs`, `scanner.rs`: evaluation of conditions and
  scans.
- `diagnostic.rs`: the diagnostics of errors, and their short reports.
- `module_text.rs`: the text of module values that the scanner prints.
- `cli.rs`: the decisions of the command line scanner.

`app/` holds the command line scanner itself (argument handling, file
reading, worker threads and error reports), `tests/` the tests.

A new `Compiler` offers the `time` and `math` modules. Their members are
functions (`time.now()`, `math.entropy(..)`) and a float constant, which
are not values of this library, so both are objects without fields: they can
be imported, and nothing can be read from them. Modules of plain values
(integers, byte strings, booleans, objects, arrays and dictionaries) are
added with `Compiler::add_module`.

Regexes are always searched on their own: no literal is extracted from them
for the literal pass.

# dprint_plugin_markdown

The text logic of a Markdown and MDX formatter, verified with Verus.

Positions in texts are character positions; texts are handled as
character slices.

## Layout of `src/`

- `chars`, `text`, `lines`: character classes, searching, trimming and
  line splitting, each with the behaviour of the `str` operation it stands
  for as its specification.
- `mdx`: recognisers for MDX lines and blocks (JSX tags, ESM statements,
  expressions, fenced code delimiters).
- `preserve`: the ranges of an MDX file that hold JSX elements with
  Markdown children, which are kept verbatim.
- `blocks`: the top-level blocks of an MDX file, the embedded ESM and JSX
  blocks, and the rewriting of the top-level nodes into raw blocks.
- `embed`: the blocks handed to the embedded formatter and the splicing of
  its results.
- `format`, `run`: the format mode, the byte order mark, the print
  settings, and the steps of formatting a file as a state machine whose
  actions (embedded formatting, parsing, printing) the caller carries out.
- `gen_code`, `gen_inline`, `gen_block`, `gen_nodes`: what the generator
  prints for code, inline constructs, blocks, and between nodes.
- `print`, `items`: print items (text, line breaks, indentation and the
  other printer signals), their building, and their printing with dprint's
  printer.
- `source`: what the generator reads from the file text itself: ignore
  comments (`<!-- … -->` and `{/* … */}` forms of the ignore directive and
  its `-start` and `-end` variants), blank lines, spaces and punctuation
  around a node.
- `generate`: the document tree (`MdNode`) and `generate`, which
  dispatches each node to the `gen_*` functions and applies their plans;
  `print_file_checked` prints the result where the printer accepts it,
  and `preserved_nodes` turns the kept ranges of an MDX file into nodes.
- `balance`: the sections that print items open and close, and the proof
  that generated items close every section they open.
- `soft_breaks`: the proof that soft breaks never change what siblings
  print.
- `laws`: properties that span several functions.

`app/` drives a run with a Markdown parser and an embedded formatter
supplied by its caller, generates and prints with the library, and
converts between the library's types and those of dprint and
pulldown-cmark.

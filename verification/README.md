# wavefront_obj

A reader for Wavefront OBJ geometry files and MTL material libraries, written
in Verus: every parsing function states in its contract the exact result it
returns, or the error and the line it reports, over a mathematical model of
the input's tokens.

Vertex coordinates and material values are kept as the text of their
literals; each such text is one that `str::parse` accepts as a float, so a
caller converts them where it needs numbers.

## Layout

- `src/text.rs`: character classes, numerals, float literals, and string
  helpers.
- `src/lexer.rs`: the tokenizer, with its token model, and the token stream
  the parsers read.
- `src/obj.rs`: an OBJ parser whose indices count from zero, with material
  libraries and geometries; `src/display.rs` summarizes its object sets.
- `src/object.rs`, `src/parser.rs`: an OBJ parser whose indices count from
  one, as the file writes them, with its object model and builder.
- `src/compose.rs`: the user's summary of that model, and its OBJ text.
- `src/roundtrip.rs`: the tokens of composed text, and what blanks and
  comments do to the tokens of a text.
- `src/readback.rs`: what the one-based parser makes of those tokens, and
  the law that reading composed text gives the object set back.
- `src/mtl.rs`: the MTL parser.
- `src/table.rs`: a read-only indexed table.
- `app/lib.rs`: reading sources from files and readers, error display, and
  the compositor trait.
- `tests/`: the tests.

Every object the one-based parser builds from a text of at most `u32::MAX`
characters is well formed (`parser::objects_wf`): one shape entry per
element, numbered from one in order, each naming at least one group, in
increasing order, and a smoothing group the object has. A `g` statement
without names names the group `default`.

The zero-based parser counts the indices of each object within that object:
the vertex, texture vertex and normal numbers of the file less those of the
objects before it.

The text compositor writes every run of elements of one grouping, after the
`g` and `s` statements that set that grouping.

Parsing the text the compositor writes gives the object set back
(`readback::lemma_compose_then_parse`), for objects whose names,
coordinates and group names are single tokens, whose coordinates are
numbers, and whose shape entries number their elements in order and their
groups and smoothing groups as the parser numbers them: from one, counting
on where they change, each group and smoothing group named by at least one
entry (`readback::reads_back`). A group with no elements has no `g`
statement in the text, so it is not read back.

Blanks added where the text already separates tokens, and a comment added
at the end of a line, change no token (`roundtrip::lemma_blanks_change_no_token`,
`roundtrip::lemma_comment_changes_no_token`).

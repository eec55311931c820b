# exui

A decoder for Xbox 360 XUI binaries, verified with Verus: XUIZ resource
archives, XUIB (XUR) scene binaries in their v5 and v8 encodings, and a writer
that turns a parsed scene back into XUI XML, plus XUI class extension files
for the custom classes a scene uses.

- `src/xur/`: the archive table (`archive`), the XUIB header and sections
  (`header`), the v5 and v8 parsers (`parse`, `parse_v8`), the property type
  tables (`tables`) and the decoded data model with its abstract view (`mod`).
- `src/xui/`: the property name tables (`names`), the document model and the
  text of string properties (`doc`), the XML writer (`writer`), the class
  extension generator (`classes`) and the proof that every parsed scene can
  be written (`parsed`).
- `src/text.rs`: number formatting and string helpers.
- `app/`: the command-line tool (`decompile`, `extract`, `list`), which maps
  files and renders the writer's floats with six decimals.

Each parser and writer function states what it computes as a spec function of
its input bytes or view; the proof functions named `lemma_*` with public
visibility state properties of the library as a whole.

# playbook

Resolve and render agent rules for a project and a target, and the read-only inspection
toolkit that ships beside it (`at-peek`, `at-recall`, `at-describe`), written in Verus.

- `src/` is the verified library: the frontmatter readers, the rule model, the resolution
  engine and its precedence laws, rendering and splicing of the managed block, the command
  line's grammar and tables, and the toolkit's catalogue, grammars, parsers of git's output and
  the verbs' answers. Every function carries a contract over plain mathematical values, and the
  laws the library promises stand there as proof functions (`law_*`).
- `app/` is the program around it: one binary that answers to the name it was invoked by. It
  reads the tree, the environment and git, hands the library plain values, and prints what it
  gets back.
- `tests/` run the library on concrete values.

The one outside crate is `regex`, called from `src/peek/verbs/search.rs` behind two trusted
wrappers whose results are named rather than rewritten.

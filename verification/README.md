# miniscript_decode

A verified decoder from a lexed Bitcoin Script to a Miniscript tree.

The tokens of a script are handed out from its last opcode to its first
(`TokenIter`), and `decode::parse` rebuilds the tree with a shift-reduce
machine over a task stack and a tree stack. Keys are read with the `bitcoin`
crate, in the context's key type: ECDSA keys for `Legacy` and `Segwitv0`,
x-only keys for `Tap`.

The decoder returns an untyped tree: it follows the grammar of Miniscript
fragments, but does no type check and applies no context validity rule, so
an ill-typed fragment (for instance `1 0`, read as an `and_v`) is returned as
it was read.

Layout of `src/`:

- `token.rs`: the tokens and the token iterator.
- `keys.rs`: the key types, their parsing through `bitcoin`, the script contexts.
- `ast.rs`: `Terminal`, the tree the decoder returns, and `Ast`, its mathematical form.
- `error.rs`: the decoder's errors.
- `grammar.rs`: the grammar the decoder follows, as recursive spec functions;
  `spec_parse` is the result of `parse` on a token sequence.
- `machine.rs`: the decoder's stacks as spec functions, and the stack discipline.
- `decode.rs`: the decoder, proved to compute `spec_parse`.
- `script.rs`: the script of a tree, as tokens.
- `soundness.rs`: what the decoder returns is encoded by exactly the tokens it read.

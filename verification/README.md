# hbc_transforms

Structural passes of a Hermes bytecode decompiler. Each pass takes the
intermediate representation of a function, a list of statements or a
control-flow graph, and gives back a list that reads more like the source it was
compiled from. Every pass is verified with Verus.

- `ir`: the representation, its mathematical model, and walks over it.
- `propagate`: copies, constants and reads of the global object in a
  control-flow graph.
- `inline`: registers and temporaries written where they are used, aliases, and
  the declarations of variables.
- `optimize`: choices, dead stores and dead temporaries.
- `objects`, `destructuring`, `generator`, `patterns`: object literals, array and
  object patterns, generators, JSX elements and `for..of` loops.
- `module_hoist`, `collapse_registry`, `metro`: modules of a Metro bundle.
- `codegen`: JavaScript text, as plain statements or as an ES module.
- `text`, `names`, `dict`: text, identifiers, and maps keyed by text.

A contract speaks of the models in `ir::model`: a pass named `f` ensures that the
model of its result is a spec function of the model of its argument. Laws that
relate several passes, or hold of every list, are the public proof functions.

The items that are believed rather than proved stand in `text`, and all of them
are functions of the standard library.

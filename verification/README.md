# Command argument and command models, verified

Models of a game server's command layer: the argument readers that turn
command text into values (identifiers, ranges, selectors, NBT, item
predicates, messages, score holders, ...), and the decisions that commands
and the command execution queue make.

- `src/` is the library, proved by Verus. Every function that computes
  something carries a contract: parsers state the value and the cursor
  position they leave for every input, commands state their result and
  feedback, tables state their entries, and the public proof functions state
  properties that hold across calls (ranges are never swapped, selectors
  never have a zero limit, message parts are ordered, a run of the execution
  queue executes queued tasks in order and stays within its quota, ...). The
  constructors of unit structs, which have a single value, carry none.
- `tests/` runs the library on concrete inputs.
- `app/` holds what works with floating-point positions, angles and
  distances: the distance and box tests of entity selection and its sorting,
  the float range argument, spawn commands, entity anchors and the command
  source stack.

Not modelled here, because they rest on parts of the server that this
project does not contain (the command storage on disk, its SNBT reader, the
chat component tree with siblings, and message signing):

- the resource-or-inline-value argument (loot tables, item modifiers,
  predicates, dialogs);
- the storage data accessor and its provider's `access`;
- turning a parsed message into a chat component, and resolving signed or
  disguised chat messages (`get_message`, `resolve_chat_message`).

The execution queue takes its executor as `Fn`, where a caller might hand
over a closure that keeps state of its own between calls.

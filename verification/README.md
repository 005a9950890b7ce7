# proto_bridge

Reads interface descriptions such as

    class Messaging {
        send(msg: Text, to: User) async -> (Status);
    }

and generates, for every function of every class, an exported bridge
function and a trait declaration. `message` blocks in the description are
skipped. A small request handler answers Protocol Buffer requests from
foreign callers.

- `src/` is the verified library (Verus): tokenizer, parser state machine,
  code generation and request handling, with their contracts and laws.
- `tests/` runs the library on concrete inputs.
- `app/` is the command-line program and the C interface; it decodes and
  encodes the Protocol Buffer messages with `prost`.

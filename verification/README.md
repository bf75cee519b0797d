# microlang

A small stack-based interpreted language, with its lexer, parser, include
preprocessing and interpreter written in Verus and verified.

Hello world:

```
main:
"Hello, World!" puts
```

## Layout

- `src/text.rs` — characters of strings, Unicode trimming, decimal and hexadecimal
  `i32` literals.
- `src/lexer.rs` — the tokens and the longest-match lexer, with its specification.
- `src/parser.rs` — instructions and the parser, specified by `parse_step` /
  `parse_from`.
- `src/preprocessor.rs` — which files `#include` names, and how their texts are put
  in front of the source.
- `src/value.rs`, `src/names.rs` — values and the name tables for labels, variables
  and host functions.
- `src/semantics.rs` — the meaning of one step: `trap` (when a step stops the
  program) and `next` (the state it leads to and what it asks of the host).
- `src/interpreter.rs` — the interpreter, proved to follow `semantics`.
- `src/laws.rs` — properties over several steps: read after write, call and
  return, jumps to labels, where labels point, and more.
- `app/main.rs` — the command-line program: file reading, includes, the run loop,
  printing and reading input, host functions.

## Host functions

A host registers the name of a custom instruction. When the program reaches a call
of that name, the interpreter stops and hands the call back as an action; the host
does the work on the interpreter's stack and then resumes:

```rust
use microlang::interpreter::{Action, Interpreter, RunEnd};
use microlang::parser::Parser;
use microlang::value::MValue;

fn custom_print(interpreter: &mut Interpreter) {
    if let Some(value) = interpreter.pop_stack() {
        match value {
            MValue::Number(data) => println!("Number: {data}"),
            MValue::String(data) => println!("String: {data}"),
            _ => {}
        }
    }
}

let insts = Parser::new("main: #2A cprint").try_parse().expect("Expected ident");
let mut interpreter = Interpreter::new(insts);
interpreter.add_function("cprint");
assert!(interpreter.start(), "Main function doesnt found.");
loop {
    match interpreter.run(1 << 16) {
        RunEnd::Finished => break,
        RunEnd::OutOfFuel => {}
        RunEnd::Faulted(fault) => panic!("{fault:?}"),
        RunEnd::Acted(Action::Call(name)) if name == "cprint" => custom_print(&mut interpreter),
        RunEnd::Acted(_) => {} // printing, reading input: see app/main.rs
    }
}
```

Number tokens whose digits do not give an `i32` are skipped by the parser;
`Parser::parse_reporting` returns their texts beside the instructions, and the
command-line program prints each as `Failed to parse number from token: ...`.

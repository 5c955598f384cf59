# rushdrop

A server that drops files from one device to another over the local network.

`src/` is the library: what the server decides, with contracts that Verus proves.
It does no input or output. Where a request takes several steps, the library has a
type that is told what happened and answers with what is to be done next.

`app/` is the program around it: it serves HTTP, reads and writes files and asks the
user. `tests/` runs the library.

What the library takes from other crates stands in `src/outside.rs`, each call with
the contract that is believed of it.

Paths are sequences of components. Where the library reads a path from text, it is
told whether the rules of Windows hold.

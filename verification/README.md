# regolith_ffi

A flat C ABI over the `regolith` embedded key-value engine: point reads and
writes, ordered iteration, atomic batch writes and optimistic transactions.

The ABI is split in two.

`src/` is the library. It decides everything and touches no pointer, no lock
and no file: which call is refused and with which code and message, what a
packed write batch means, which engine options a caller's struct stands for,
which keys an iterator yields and which moves of the engine's cursor that
takes. All of it is verified with Verus against the contracts that stand
beside it.

| Module | What it holds |
| --- | --- |
| `failure` | status codes, and the detail that travels with them |
| `boundary` | bytes coming in and going out, the outcome of a call |
| `batch` | the write-batch frame and its decoder |
| `options` | engine options and what they resolve into |
| `bounds`, `iter` | ranges, iterators and batched iteration |
| `written` | what hides a transaction's later writes from its iterators |
| `db`, `txn` | the entry points on a store and on a transaction |
| `engine` | the engine's types, and what is taken from it without proof |
| `order`, `text`, `seqs` | byte order, numbers in messages, sequences |
| `batch_laws` | frames round-trip, and what is refused of a bad one |
| `walk`, `iter_laws`, `batching_laws` | what iterating yields, as a whole |

`app/` exports the C functions. It turns pointers into references, catches
panics, takes locks, calls the engine and reports back what it said.

`tests/` runs the library, with the engine behind it.

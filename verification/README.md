# pybytearray

The mutable byte array of Python, as a library whose behaviour is stated in contracts and proved by
Verus.

- `src/` is the library.
  - `bytearray` holds the byte array, its exported buffers and its iterator.
  - `outcome` says what each operation that changes a byte array does to it.
  - `sliceable`, `search`, `span`, `parts`, `edit`, `ascii`, `hexadecimal`, `repr` and `compare` hold
    the operations on bytes.
  - `object` and `error` hold the arguments and the exceptions, `context` the classes, `counter` the
    atomic counters, `layout` how a byte array lies in memory, and `text` what writes text.
  - `laws` holds what is proved of several operations together.
- `tests/` runs the library on concrete values.
- `app/` lets several owners share a byte array behind a reader-writer lock.

An operation of the library borrows the byte array that it changes exclusively, so that its contract
can say exactly what is left behind. The buffer of a byte array can be exported; as long as it is, the
bytes can be changed but their number cannot.

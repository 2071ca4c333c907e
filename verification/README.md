# coda_memory

Huge-page helpers and cross-process sharing of large read-only weight arrays,
with the decisions proved in Verus.

`src/` is the library. It makes no system call: a `Sharing` (and, for giving a
region up, a `Release`) says which call to make next and is told what came of it.
`src/laws.rs` and `src/region.rs` prove what holds after any sequence of replies:
an array is shared only after every byte of the mapping was compared, whatever
was opened, reserved or created is given back on every refusal, an object is put
up only once it is written in full, and its name is removed only by the last user,
or by a publisher that withdraws what it cannot map itself. Where the calls
succeed and the object holds the array, it ends up shared, whatever other files
the directory holds and however short the writes are.
`src/sweep.rs` proves that a sweep takes away exactly the leftovers that nobody
uses, and that a second one finds nothing more to remove.

`app/` performs the calls on Linux, with libc, and reads the kernel's status
files. `tests/` runs the library against a file system in memory.

Beyond vstd's own specifications of std, the one thing taken on trust is
`usize::to_ne_bytes`, in `src/naming.rs`.

# shm_hashtable

A key-value server and client that talk through POSIX shared memory, with
the protocol and the data structures verified by Verus.

- `src/` — the verified library:
  - `message`: fixed-size messages (a type, a 16-byte key field, a 64-byte
    value field) and the UTF-8 encoding of text into fields and back;
  - `hash_table`: a separately chained hash table from strings to values,
    specified as a `Map`;
  - `server`: how the server answers `Get`, `Insert` and `Remove` requests;
  - `shared_mem`: the two ring-buffer queues of the shared region;
  - `client`: parsing typed commands and generating random requests;
  - `sem`: which side creates the semaphores.
- `app/` — the processes around it: argument parsing, semaphores, mapping
  the region, threads and logging. Run `server [-n SIZE]` or `client [-t]`.
- `tests/` — tests of the library on concrete values.

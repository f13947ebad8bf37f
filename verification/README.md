# rarmdb

A small relational storage engine whose core is verified with Verus.

- `src/` — the verified library: table schemas and their validation, data values with a
  total order, keys and records, the on-page record format (serialize, deserialize, read a
  primary key), slotted pages, B+tree leaf nodes (search, insert, update, split), the clock
  evictor, buffer frames and page guards, and the decisions of the buffer pool (which frame
  a page goes to, what is evicted, what must be written back). Laws that span several
  operations stand in `record_laws`, `order_laws`, `leaf_laws` and `page_laws`.
- `tests/` — tests of the library, run against the compiled crate.
- `app/` — the asynchronous side: the file system, the disk manager, the shared buffer pool
  that performs the reads and writes the verified pool decides on, and text forms of values.

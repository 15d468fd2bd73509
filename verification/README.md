# bib

The lending logic of a small school library system, verified with Verus.

- `src/` is the verified library: member and book records (`item`), the
  refusals of requests (`error`), text helpers (`text`), the request rules
  (`views`: lending and returning at the counter, record editing, member
  pages, searches, the loan cache and the transaction counter), and the
  maintenance passes over loan records (`check_transaction_ids`,
  `dump_transaction_ids`, `fix_transaction_ids`, `migration`).
- `app/` is the server and the maintenance commands around it: HTTP
  handlers, sessions, the MongoDB reads and writes, the clock.
- `tests/` runs the library on concrete cases.

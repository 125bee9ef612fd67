# nokkonenshelfapi

A personal library service: users sign in with Google or GitHub and keep
bookcases, shelves and books, each ordered by position.

- `src/` is the verified library (Verus). `catalog` holds the stored rows and
  every operation of the service on them (listing in order, creating at the end,
  renaming, deleting with what depends on it, reordering, moving books, signing
  in), each with a contract over the rows, and the laws that relate them
  (e.g. an accepted reordering is what the next listing shows). `order` and
  `arrange` order rows by position, `ids` compares identifier lists, `auth`
  holds the sign-in rules (session cookie, CSRF state, provider profiles, user
  names), `text` the few outside calls (UUID text, lower-casing).
- `app/` is the HTTP service around it (axum, Postgres through sqlx, OAuth):
  it loads the rows a request may touch, lets the library decide, and writes
  the outcome back.
- `tests/` exercises the library on concrete values.

# ontv

The model and rules of a tracker of watched TV series: remote identifiers and their
databases, the series, episode, watch history, pending and synchronization stores, the
download queue, navigation history, how records from remote services are assembled, and
what each page decides to show (`views`), proved with Verus.

- `src/` is the verified library. Each module states its contracts over a mathematical
  model (`view`), and public `lemma_*` proof functions state the laws that relate its
  operations, such as that importing an export gives back what was exported.
- `tests/` runs the library on concrete values.
- `app/` is a command line front end: it reads and writes the database files, in JSON or
  YAML, and imports a watch history exported from trakt.tv, handing plain values to the
  library.

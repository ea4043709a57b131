# poison_swamp_level

A tarpit for web crawlers: it classifies incoming HTTP requests, and answers
the ones it does not trust with pages of generated text whose links lead only
deeper into the tarpit.

The library under `src/` is written in Verus and proved against its
contracts:

- `reading`, `tokens`, `text`, `chars`, `order`: splitting a corpus into
  words and punctuation, the three-word windows over it, and how words are
  joined into sentences.
- `garbage`: the word graph of a corpus, random walks through it, and the
  pages and links built from them (`garbage::garbage`); `generator` holds the
  older single-walk generator.
- `classifier`: the decision for a request, from trusted paths, user agents,
  autonomous systems (looked up in a MaxMind database kept with the bytes it
  was read from) and headers.
- `config`: the KDL configuration document, its settings and the errors that
  point into its source.
- `metrics`: request counters, their Prometheus text form, and the persisted
  state that survives a restart.
- `service`: the decision of what a request is answered with. The client's
  address, from the `x-forwarded-for` header or else the connection, is
  stored in the request before it is classified, so trusted addresses and
  the network lookup apply to it.

Calls into outside crates (KDL parsing, Aho-Corasick search, the MaxMind
database, the seeded random generator, template rendering) stand behind small
trusted wrappers whose contracts say what those crates document.

`app/` is the program around the library: command line, files, sockets, the
HTTP server, logging and the JSON forms of persisted metrics.

# urska

The logic of the Urška university assistant, written in Verus and proved
against its contracts: the programme catalogue and programme pages of the
faculty web site, staff listings, name ranking, document chunking and
question-augmented retrieval records, the chat session and queue, the
planning flow of the assistant, and the memory service's settings.

## Layout

- `src/text.rs`: character-level string operations with their specifications.
- `src/bignum.rs`: natural numbers of any size as 64-bit limbs, for exact
  comparison of similarities.
- `src/dom.rs`: a parsed HTML document as a flat list of nodes in document
  order, with the tree walks the extractors need.
- `src/programme_page.rs`, `src/programme.rs`: what a programme page holds and
  how it is rendered as markdown.
- `src/catalog.rs`, `src/site.rs`, `src/ranking.rs`: the programme list, staff
  pages, links made absolute, and ranking of names by similarity.
- `src/chunking.rs`, `src/retrieval.rs`, `src/question.rs`: chunks, points for
  the vector store, search hits, and prompts.
- `src/conversation.rs`, `src/session.rs`, `src/queue.rs`, `src/profile.rs`,
  `src/memory.rs`: the assistant's flow, the chat session, the job queue, user
  profiles and the memory store.
- `app/`: what the library leaves to the services: configuration from the
  environment, files on disk, HTTP fetches, JSON forms of the types, and the
  loops that carry out the library's step functions.
- `tests/`: tests of the library on concrete values.

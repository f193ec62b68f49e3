# Medulla

A git-native knowledge engine for software projects: decisions, tasks, notes,
prompts, components and links, related to each other in a small graph, kept in a
Loro document inside the repository, searchable through a SQLite full-text
index, and offered to AI assistants over the Model Context Protocol.

The library under `src/` is written in Verus: every function carries a
`requires`/`ensures` contract and Verus proves it. The program around it, under
`app/`, is ordinary Rust: the command line, reading and writing the document's
file, the search index, the MCP server, JSON and YAML output.

## Layout of `src/`

| Module | What it holds |
|--------|---------------|
| `entity` | The entity types, their statuses, priorities and relation types, and their names |
| `clock`, `text`, `slug` | Instants and dates, string building blocks, slugs for file names |
| `error`, `tools` | Error values and messages; validation of titles, content, tags, URLs, enumerations and dates |
| `lookup`, `listing`, `record` | The catalog of entities; finding and listing them; reading and writing stored records |
| `request`, `update`, `ops`, `params` | Creating, updating and deleting entities and relations on request |
| `queue` | The task queue: ready, blocked and next tasks |
| `graph` | Relations from and to an entity, shortest paths, orphans |
| `search`, `cache` | Query filters, search hits, cache warnings, embedding text |
| `tool`, `resources`, `subscriptions` | What the MCP tools, resources and subscriptions decide |
| `cli`, `hook` | What the command line and the git hook decide |
| `snapshot` | The markdown snapshot: page names, front matter, bodies, task lists and the index page |
| `store` | The Loro document: what it holds, writing records into it, reading the catalog back, sequence numbers, snapshots |

Laws that span several functions are public proof functions (their names start
with `lemma_`): for instance that a record reads back as the entity it was
written from, and that a decision stored in the document (and restored from a
snapshot of it) reads back with the same fields, that a relation stored and then deleted leaves the relations as
they were, and that subscribing and then unsubscribing restores every resource.

## Building

`tests/` holds the tests of the library; `app/main.rs` is the `medulla` command.

# ollaic

The rules behind an AI-driven editor for WebGAL visual novels, as a verified
Verus library: what the agents of the production flow may hand to one another,
how generated media is bound into a project, how changes are committed or undone,
and what may be downloaded, logged and shown.

## Layout

- `src/` is the library. All of it is verified, but for the items that call outside
  crates or std: their contracts are relied on, and the doc comment above each says
  what it claims. They stand in `codec`, `json`, `text`, `asset_queue::binder` (the
  pixels of a PNG), `ai::safe_media_fetch` (URLs) and `agent_harness::cassette`
  (the clock).
  - `text`, `text_map`, `order`, `path_order`, `paths`, `codec`, `json`: the ground
    that the rest stands on.
  - `story_plan`, `characters`, `project`, `pipeline`, `webgal`, `assets`: the data.
  - `agents`: the contracts of the agents' inputs and outputs, the conversation
    with a model and its one repair, the local templates, and the scene compiler.
  - `asset_queue`: the queue of media tasks, its scheduling, its binding into
    scenes, cards and metadata, and its transactions.
  - `ai`: providers and settings, chat runs, safe downloads, uploads, change sets
    and batches of spoken lines.
  - `change_set_commit`, `json_store`, `flow_edit_lock`: writing to a project.
  - `agent_harness`: the headless driver's rules: cassettes, replay, the chain of
    all agents, and its reports.
- `tests/` runs the library from outside.
- `app/` is the program: arguments, files, network and locks.

## How it is written

Texts are modelled as sequences of characters and each type by a view. Work on the
disk or the network is a machine of phases and events: the caller does what the
phase asks for and reports what came of it, and the library says what comes next.
The laws about such work (what is undone, what is never lost) are proof functions
over a model of the disk, next to the machine that they are about.

# liferaft

A rudimentary distributed key-value database built on the
[Raft](https://raft.github.io/) consensus algorithm, with its decision logic
verified by Verus.

## Layout

- `src/` — the verified library.
  - `log.rs`: the replicated log, its entries, and key lookups over it.
  - `nodes.rs`: sets and maps keyed by node id.
  - `messages.rs`: the RPC and client messages.
  - `models.rs`: node roles and the Raft state.
  - `replication.rs`: how a follower merges new entries into its log.
  - `node.rs`: a Raft node and its handlers, each a step from state and
    event to next state and reply, with the step stated as a spec function.
  - `laws.rs`: properties that relate several steps: a lookup gives the
    newest `Put` of a key unless a newer `Delete` removed it, a node votes
    for one candidate per term, replication is idempotent, a candidate is
    elected only by a quorum of granted votes, two candidates cannot both
    win a term, and the commit index never goes down.
- `tests/` — tests of the library on concrete values.
- `app/` — the server: an actix actor that runs a node, the HTTP endpoints,
  the RPC client, and the files that keep the log, the term and the vote.

## Usage

```console
$ cargo run -- --id 1234 --port 1234 --peers 1235

# In another terminal
$ cargo run -- --id 1235 --port 1235 --peers 1234
```

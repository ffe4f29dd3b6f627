# rift_mock_core

The core of an HTTP service-virtualisation server: imposters answer requests by the stubs they are
configured with. What decides is a Verus library; what touches sockets, files, clocks and scripts
stands around it.

## The library (`src/`)

| Modules | What they hold |
| --- | --- |
| `text`, `lookup`, `query`, `headers`, `record` | texts, ordered lists of pairs, query strings and forms, header lines, recorded requests |
| `json`, `compare`, `structural_hash` | JSON values, how expected values are held against actual ones, and a hash that agrees with deep equality |
| `regex_cache` | compiled patterns, cached up to a bound |
| `predicate`, `fields`, `predicates` | predicates and what they say of a request |
| `bitset`, `stub_index`, `snapshot`, `matching` | the candidate index, and the first stub that matches |
| `types`, `copies`, `stub`, `imposter` | configuration and copies of it, response cycles, the imposter itself |
| `flow_store`, `journal`, `events` | scenario state, recorded requests, numbered events |
| `proxy`, `proxy_run`, `generators` | forwarding, recording, and the stubs made of what came back |
| `serving`, `responses`, `delivery`, `pipeline`, `debug`, `fault`, `datadir` | a request from its arrival to its answer, and what the answers are |

Work that has to happen outside (reading a body, a script, an upstream call, a sleep) is asked for:
`serving`, `pipeline`, `proxy_run` and `generators` are functions from where a request stands and
what came back to what is done next. Selectors and predicate scripts are answered the same way:
matching names the lookup it is missing and is run again with the answer.

Laws that span functions are public proof functions named `law_..`. The ones to start with are
`matching::law_index_preserves_the_first_match` and `snapshot::law_candidates_cover_matches`: the
index changes no answer, whatever the stubs and the request. `matching::find_in` promises the same of
what it returns. A body that the hash could not speak for has none, and rules out no stub.

Contracts rest on what is said of a few calls into `serde_json`, `regex`, `regex_automata`,
`aho_corasick`, `papaya`, `foldhash`, `base64` and `std`. Each stands in a small function, or an
`assume_specification`, with a comment that says what is claimed.

`flow_store::FlowStore` and `journal::RequestJournal` are traits for stores from elsewhere. Their
spec functions have bodies, so that ordinary Rust can implement the traits; such a store is trusted
to keep the contracts of its methods.

## Around it

`app/` serves an imposter over `hyper`, forwards with `reqwest`, reads configuration with `serde`,
draws faults, and writes files. `tests/` holds the tests.

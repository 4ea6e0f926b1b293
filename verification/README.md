# cx

`cx` launches Codex through one of several local logins ("slots"): it asks how much each
slot has left, picks the best one, lays out its home, and starts Codex in it. It also adds
and removes slots, binds tokens of the Keychain to them, opens the desktop application in a
slot, shows token usage, primes usage windows ahead of busy hours, and completes its own
command line.

## Layout

- `src/` is the library: parsing, planning, state machines, layouts of text and the laws
  that hold between them. Its functions are verified with Verus against the contracts in
  their headers, except for those that call into other crates: of these Verus believes the
  contract and does not read the body (see below). Nothing in the library reads a file, a
  clock or a socket; what was seen is an argument, and what is to be done is a result.
- `app/` is the program around the library: arguments, files, processes, sockets and
  databases.
- `tests/` runs the library on concrete values.

## Where to start reading

| Subject | Modules |
| --- | --- |
| Choosing a slot | `usage`, `selector`, `rates`, `query` |
| Slots on disk | `paths`, `shared`, `slot`, `repair`, `envfile`, `target` |
| Launching | `launcher`, `run`, `provider`, `settings`, `piped`, `entry` |
| The desktop application | `desktop`, `desktop_proxy` |
| Tokens | `keychain`, `hashes`, `dates` |
| The app server | `daemon`, `frames`, `json`, `serve`, `service`, `control`, `router` |
| Sessions | `session`, `session_scrub`, `resume` |
| Usage | `stats`, `ranges`, `dashboard`, `chart`, `models`, `periods`, `screen`, `wrap` |
| Priming | `prime` |
| Numbers and text | `doubles`, `numbers`, `format`, `lines`, `text` |
| Completion | `cli`, `commands`, `completion`, `candidates` |

Percentages, seconds, costs and scores are numbers of double precision, held by their bits:
`doubles` adds, compares, rounds and writes them with integers alone, as a machine does with
its own numbers.

Calls into other crates stand behind functions marked `#[verifier::external_body]`. Nothing
about these is proved: their comments say what is believed of the call, and the proofs of
their callers rest on it.

# pypes

A command-line tool and web server that keeps a registry of agents (a name,
the inputs an agent perceives, the actions it may take) in a PickleDb
key-value store, one JSON record per agent under the agent's name.

- `src/` is the verified library (Verus): the JSON records of agents and their
  decoding (`json`, `agent::agent`), the registry operations (`agent::util`),
  the `agent <name> add` command (`cli`), the store files and the emptying of a
  store (`db`), the server's settings and pages (`server`), the background
  process's files and pid handling (`daemon`). The calls into PickleDb,
  serde_json and std that the library makes stand behind trusted wrappers in
  `store` and `text`, each with the contract it is believed to meet.
- `app/` is the program around it: argument parsing, file and network I/O,
  daemonizing, the HTTP routes and templates.
- `tests/` runs the library on in-memory stores.

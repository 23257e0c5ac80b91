# pods

The verified core of three parts of Pods, the GTK front end for Podman:

- `src/connection_manager.rs`: the list of connections, kept in an
  `indexmap::IndexMap` by UUID, the choice of the connection whose client is
  in use, and the steps of trying, pinging and removing connections;
- `src/index_map.rs`: the trusted contracts of the `IndexMap` operations
  that the list uses, and lemmas over them;
- `src/search.rs`: moving between the matches of a search in a source view;
- `src/random_name.rs`: random container names from the `names` crate.

`app/` holds what talks to the disk, to GTK and to the Podman service.

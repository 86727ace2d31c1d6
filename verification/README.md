# server_starter

`start_server` is a superdaemon for hot-deploying server programs. It binds the listening sockets
once, on behalf of a worker program, and hands them down to the worker through the environment
variable `SERVER_STARTER_PORT`. On `SIGHUP` it starts a fresh generation of the worker that shares
the very same sockets, waits for it to come up, and only then retires the old one.

The library in `src/` holds what the superdaemon decides and computes. It is written in Verus: the
contracts say what each function returns, and the proof functions named `law_...` say what holds of
the library as a whole, among other things:

- a worker reads back from its environment every socket that was bound (`launch`);
- an old worker is signalled only when the one that takes its place is up, and no worker is
  forgotten (`guarantees`);
- what is written to the status file is read back from it (`status`), and `--restart` sees the
  restart complete exactly when the new generation is the only one left (`guarantees`, `control`).

What the library takes from `nix`, `libc` and the standard library without proof stands in
`src/outside.rs`, with a note of what is claimed of each.

The program in `app/` performs what the library asks for (sockets, processes, signals, files) and
tells it what came of it. The tests in `tests/` run the library on concrete values.

# summon_app

An NGINX module that starts an application on the first request for a
location and forwards requests to it through `$summon_port`; applications
that stay idle past their timeout are stopped.

- `src/` is the verified library (Verus): reading the `summon_app_*`
  directives, the text that starts an application, the table of running
  applications and the sweeps that stop idle ones, and the decisions of the
  request handler.
- `app/` is the NGINX glue: module registration, directive handlers, the
  access-phase handler, process spawning, sockets and the sweeping thread.
- `tests/` exercises the library.

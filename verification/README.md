# tarantool_tcp

A non-blocking TCP listener whose decisions are verified with Verus.

The library under `src/` makes no call into the operating system. Each operation
is a state machine: it names the call to make, takes the raw reply, and goes on
until it is done.

- `text`, `error`, `platform`: what is said to people and to C, the errors, and
  the numbers of the socket interface
- `addr`, `resolve`: socket addresses, and how a host name becomes a list of them
- `syscall`, `progress`, `plan`: calls and replies, operations that are carried
  out call by call, and the plans that open a descriptor and set it up
- `socket`: the plans for opening, connecting, binding and accepting
- `listener`, `accept`, `stream`: binding a listener and taking connections

Laws that hold of a module stand at its end, as public proof functions whose names
begin with `law_`.

`app/` performs the calls, in the Tarantool runtime.

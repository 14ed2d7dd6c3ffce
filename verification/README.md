# pacer_daemon

The decisions of a node-local, S3-compatible caching proxy, written in Verus and proved.

One daemon runs per node. A read is answered from the node's own cache, from a node that holds
the chunk, or from the backend; a large write is cut onto the chunk grid and its windows are
uploaded by the nodes that own them; a client may hand over memory and get its bytes there
instead of a body.

## Layout

`src/` is the library. Everything in it is verified but for the outside calls named at the end,
and it computes on plain values and on the buffers of the `bytes` crate.

| Modules | What they decide |
|---|---|
| `chunk`, `cluster` | how an object is cut into chunks, what the chunks' keys are, which nodes a key belongs to and in which order they are asked |
| `read`, `answer`, `headers` | which reads the cache may answer, and what the answer says |
| `fill`, `table` | who reads a missing chunk, who waits for it, who keeps it |
| `deliver`, `place`, `target`, `preflight` | deliveries into client memory: what a target may be, who writes it, what is tried again, what a client is told of the writers |
| `write`, `scatter`, `staging` | which writes are scattered, how a body is split, what may be staged, what is invalidated where |
| `peer` | what other nodes are answered |
| `proxy` | the settings, and the bucket names that clients may use |
| `series`, `names`, `scrape`, `metrics`, `procfs` | which numbers are published, and what each is set to |
| `blob`, `text`, `clock` | buffers, characters and moments |

Public proof functions state what holds of several functions together; their doc comments say
it in words.

`tests/` runs the library on values. `app/` is the daemon around it: locks, clocks, sockets,
the metrics registry and the S3 handlers. It asks the storage, the network and the machine
through the traits of `app/ports.rs`.

## What is taken on trust

The contracts of `blob`, `headers` and a few functions of the standard library in `text`,
`cluster` and `preflight` are believed, not proved. Each says in its doc comment what it claims
of which function.

# maqistor

A durable job scheduler. Jobs are accepted over HTTP, kept in SQLite, handed to
workers over mutually authenticated TLS, and retried until they succeed or have
used up their attempts.

The rules of the scheduler are a library, written in Verus and proved against
its contracts. A program around it does the input and output.

## Layout

`src/` is the library.

| Module | What it holds |
| --- | --- |
| `engine` | jobs, queues and attempts; when a queue is looked at, how permits are divided, what one pass over a queue does |
| `persistence` | accepted jobs and attempts as tables, the writers that take turns at them, batch sizes and waits, statement texts, and the laws that hold across operations |
| `dispatcher` | registered workers, their reservations, what a connection may do, and which containers are managed |
| `config` | the configuration: defaults, faults, schedules and durations |
| `protocol`, `worker` | frames on the wire, and the worker's side of a session |
| `api`, `client` | what is answered with which status, and what an answer means |
| `single` | the store that keeps everything in one database |
| `ids`, `span`, `text` | identifiers, lengths of time, and texts |

`app/` is the program: SQLite, sockets, TLS, HTTP, Docker, the clock, and the
measurements that are floating point. It loads rows, asks the library what to
do, and writes what has changed.

`tests/` runs the library from the outside.

## How to read the contracts

Each type has a view: a ghost value of sequences, maps and mathematical
integers. Contracts are stated over views, and operations that can fail say
exactly when they do. Times come in as arguments, so that every rule about a
lease or a schedule holds of any clock.

The laws are public proof functions. Those that relate several operations of
the store are in `src/persistence/laws.rs`; the others stand beside what they
speak of. Operations that touch both databases are cut into steps in
`src/persistence/steps.rs`: the program runs them, and they are proved to come to
what the operations do as a whole.

What is believed without proof is marked `external_body` or given by
`assume_specification`. Each such item names the function that it stands for
and says what is claimed of it: reading and writing UUIDs, durations, instants
and JSON, the clock, and a few functions on characters and strings.

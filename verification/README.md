poke
====

The scheduling core of a small command line tool that sends a few nudges a
day through the `imsg` command: the configuration rules, the day's schedule
(random pokes spread over the active window with a message rotation,
fixed-time pokes, repeating pokes), the pending queue and the tick that
delivers at most one due poke.

Layout
------

- `src/` is the library, written in Verus; every function in it is verified
  against its `requires`/`ensures` contract. A tick talks to the sender
  through `RecordingSender`, which keeps a record of every message handed to
  the sender and every answer, so the contracts say which message goes out
  and what each answer does to the queue. Likewise `DrawSource` records the
  offsets drawn for each attempt at spreading the day's random pokes, so the
  random pokes are given up as exhausted only after the attempt limit of
  recorded draws all failed the spacing. The laws the tool relies on (at
  most the first due poke handed over per tick, missed pokes dropped only
  after a delivery, any other answer reported with the queue kept, the queue
  kept in time order, every message of the pool picked before any repeats on a day
  with enough pokes,
  least recently used rotation) are stated in contracts and proved as public
  proof functions.
- `app/` is the program around it: argument parsing, the environment, the
  TOML configuration and JSON state on disk, the lock, and running `imsg`.
- `tests/` runs the library on concrete values.

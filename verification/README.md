# shardgrid

The verified core of a sharded multiplayer game backend. The world is cut
into shards by a quadtree; each shard is run by a game server; a pub/sub
broker carries the frames between clients and services; a spatial service
follows the players and tells each shard who comes near it; an orchestrator
keeps idle game servers ready and wakes them for new shards; a login
gateway sends players to a server of their zone.

- `src/` is the library, verified with Verus. Each service is a state with
  functions from a received event to the new state and the actions to
  perform (send a frame, open a stream, query Redis...). The wire formats
  are stated as byte sequences, and the laws that tie the services together
  (what one writes, the other reads back) are proved as proof functions.
- `tests/` runs the library on concrete values.
- `app/` is the process around it: sockets, HTTP, Redis, Docker, timers,
  serde and bincode, and the floating-point geometry that the library takes
  as closures.

# game_net

The server-side logic of a small networked game, written in Verus and proved
against its contracts.

- `src/components`: player ids, the lobby chat (a bounded history that refuses
  overlong lines), the replicated player state and the decoding of movement keys.
- `src/network/net_manage.rs`: datagram and stream connections, their input
  buffers and outgoing message queues.
- `src/network/net_system.rs`: routing of received packets to connections, and
  what the send loop does after each attempt.
- `src/network/net_tasks.rs`: the per-tick handling of client messages
  (acknowledgements, player inputs, chat, joins) and the players' snapshot sent
  to acknowledged clients.
- `src/network/server`: joining a lobby and input targeting.
- `app/`: the Bevy/Tokio server around the library: sockets, channels, the ECS
  systems, bincode encoding of the wire types, and the floating-point physics.

Floating-point values that the library carries (positions, angles, mouse
movement) are kept as their IEEE-754 bit patterns.

# Servus

Servus is an infrastructure strategy game in its earliest prototype stage. This crate is its
deterministic, engine-independent core, written in Verus: every public function states its
behaviour as a contract, and Verus proves the code against it.

## Layout

- `src/` — the verified library:
  - `clock`, `economy`, `traffic`: ticks, the credit budget and per-tick demand;
  - `infrastructure`, `map`, `network`: services and their lifecycle, the city grid and its
    occupancy, directed links;
  - `flow`, `routing`: requests routed from gateways to servers as a maximum flow;
  - `security`: scheduled cyberattacks and firewall protection;
  - `messaging`: queues, topics and event buses that carry background work;
  - `solution`: buildings that stack services floor by floor;
  - `simulation`: the game state, player commands and tick processing, with the laws that make
    the game deterministic;
  - `content`: the catalog of service definitions and its validation;
  - `text`, `render`: decimal text and the terminal view of a game;
  - `demo`: the scripted demo scenario;
  - `sound`: the timing of sound effects.
- `tests/` — scenarios run against the compiled library.
- `app/` — the terminal program that runs the demo and prints its frames, and the sound
  synthesis used by graphical front ends.

The graphical front ends (a 2D and a 3D client built on the Bevy engine) and the playback of
sound effects through an audio device are not part of this crate: they need a windowing game
engine and an audio device, and the clients were written against a later version of the
simulation than this one.

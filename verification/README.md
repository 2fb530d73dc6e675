# engine

The simulation engine of a multiplayer theme-park management game: the park
map with its terrain, infrastructure and buildings, the rules that decide
where players may build, the commands players send, path finding for
visitors, attraction queues, crowd density, and the loading of map templates
and building catalogs.

- `src/` is the library, written in Verus: every function carries a contract
  and is proved against it, and the laws that tie functions together are
  proved as `pub proof fn`s next to them.
- `tests/` runs the library on concrete values.
- `app/` is the program around the library: it reads the map template and
  the building catalog from JSON files, ticks the park's clock, and reads
  development commands from its terminal.

Modules of the library:

| module | what it holds |
| --- | --- |
| `cells` | cells and columns, and maps and sets keyed by them |
| `map` | the park map, its layers, parcels and levels, footprints and their rotation |
| `validation` | the placement rules |
| `commands` | player commands, carried out on the map and answered |
| `pathfinding`, `line` | walking graph, A* search, lines of sight and smoothing |
| `queue` | queue chains of attractions and the registry of queues |
| `density` | visitors per cell, and the columns that changed |
| `itinerary` | a visitor's route decisions |
| `clock` | ticks, pausing, and when visitors come in |
| `map_template`, `building_template` | starting maps and building catalogs |
| `snapshot` | the map listed cell by cell for clients |
| `dev_commands` | the engine's terminal commands |
| `protocol`, `metrics`, `text`, `seqs` | codes, counters, text helpers, sequence facts |

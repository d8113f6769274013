# dungeon_logic

The rules of a top-down dungeon crawler in which the player mixes four
elements into spells, as a library verified with Verus.

`src/` holds the game's logic, each function with a contract that Verus
proves:

- `elements`: the element bar, the spell recipes, spell damage and volleys;
- `health`, `experience`: hit points, extra lives, hits and hit lists, levels;
- `timer`: repeating timers counted in milliseconds;
- `items`, `loot`, `thief`: item tables, loot rolls, the thief's bag and how
  it is scattered again;
- `mobs`, `summon`, `boss`: mob tables, summon queues, the boss's attack
  weights, cooldowns, phases and walls;
- `world`: game states, portals, chapters, the hub's layout, seen mobs;
- `gamemap`: level generation (walkers, walls, lone walls);
- `pathfinding`: the level's graph, the mobs' way-finding and teleports;
- `mob_map`: spawn points (chosen pass by pass on rolls) and mob counts per
  tile;
- `dice`: the one door to `rand`.

`tests/` runs the library on concrete values. `app/` is the Bevy game around
the library: rendering, input, physics and the systems that hand the world's
state to the library and carry out its decisions.

# cursed_warden

The rules of *Cursed Warden*, a backpack-management auto-battler, as a verified Verus
library, and the bevy program that plays them.

- `src/plugins/` — the library, every function verified:
  - `geometry`: grid vectors, quarter-turn rotations, placed shapes, cell keys.
  - `items`: item definitions, the item database (a map by id), the built-in catalogue.
  - `inventory`: bag slots rebuilt from bags and items, placement checks for items and
    bags, the free-spot search and the placing of pending items, drag and drop decisions,
    bounding boxes, base stats.
  - `inventory_utils`: combat statistics with synergies between neighbouring items.
  - `grid`: the fixed-size rectangular grid of the inventory screen.
  - `shop`: rarity rolls, offers, rerolls, locks and purchases.
  - `combat`: material efficiencies, the damage formula, action meters, stamina, turns.
  - `mutation`: items growing a column at night.
  - `metagame`: player resources, time, save data, city actions.
  - `visualization`: adjacency of items and the synergy links to draw.
  - `phases`: the phases of a day and their transitions.
  - `random`: the draws taken from `rand`'s thread-local generator.
  - `tables`: the bevy hash maps that slots, item indices and definitions are kept in.
- `app/` — the bevy program: plugins that read the world, call the library and write
  its answers back, the UI, and JSON save files (serde).
- `tests/` — tests of the library on concrete values.

Stat values (attack, defense, speed, health, stamina, meters) are fixed-point integers
in thousandths: `1000` stands for `1.0`.

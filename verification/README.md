# siege_factory

The rules of a factory-building game with tower defence, as a verified Verus
library, with a partial bevy front end around it.

- `src/` — the verified library: grid directions, inventories and recipes,
  belts (advancing items, hand-offs, deposits into buildings, splitters,
  sorters), placement and drag lines, the build menu tree and bar, the main
  menu and key bindings, mods and settings, discoveries and the archive, the
  tutorial, cultivators, construction and mining, building definitions and
  upgrades, the capsule's progression, the recipe selector and the texts of
  the inspection panels. Public functions state their results in `ensures`,
  most of them exactly; where a result goes through a text conversion of std
  (upper and lower case, escaping), the contract names that conversion. The
  laws of the game (for instance that advancing a belt keeps its items, or
  that a binding saved in the settings reloads to the same binding) are proof
  functions named `law_*`.
- `tests/` — tests of the library on concrete values.
- `app/` — a partial front end: data files (TOML via serde), the bevy
  resources and components, and a handful of systems (the main menu and its
  rebind prompt, global keys, mining and pickup, construction, cultivators,
  crops, belts and discoveries) that read the world, ask the library what to
  do and apply the answer. It holds the real-valued parts of the game
  (positions, timers, fluids). The screens, the build and deconstruct
  clicks, previews, power, assemblers, fluids and the tutorial have no
  systems there.

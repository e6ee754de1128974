# Pixie Wrangler

A puzzle game: draw roads on a grid, on up to three layers, so that pixies
of each color travel from the termini that emit them to the termini that
collect them, as cheaply and as quickly as possible.

## Layout

- `src/` is the game's rules, verified with Verus:
  - `geom`, `collision`, `lines`: grid points, how two segments meet, and
    the 45/90-degree routes offered while drawing;
  - `road_drawing`, `commit`, `network`, `graph`: which route may be laid
    down, the plan of changes it makes to the road graph, carrying that plan
    out on the graph (a `petgraph` stable graph), and the graph itself;
  - `pathfinding`, `net_ripping`: the routes pixies follow through the graph
    and the removal of whole nets;
  - `sim`, `pixie`: the fixed-step simulation clock and how pixies react to
    each other;
  - `level`, `save`, `controls`, `radio_button`: stars and scores, saved
    solutions, buttons and keys.
- `tests/` exercises the library.
- `app/` is a headless Bevy app around the library: it holds the world,
  moves pixies in floating point coordinates and hands plain values to the
  library.

# ternary_game_of_life

Conway's Game of Life with three cell states (Dead -1, Dormant 0, Alive +1) on
a toroidal grid, verified with Verus.

- `src/cell.rs`: `CellState`, its trit values and its symbols.
- `src/model.rs`: the mathematical model (`GridModel`), the ternary `rule`,
  neighbourhoods, generations, rendering, glider shifts and still windows.
- `src/grid.rs`: `TernaryGrid`, whose every operation is proved against the model.
- `src/stats.rs`: `PopulationStats` and cell counting.
- `src/laws.rs`: properties of the rules and operations, proved once for all grids.
- `app/lib.rs`: the floating-point population ratios.

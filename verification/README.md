# calculator-mcp-server

A calculator served over the Model Context Protocol (stdio): symbolic
mathematics, statistics, matrices, units, dates, programmer/integer tools,
finance and precision helpers.

The integer, calendar and text logic of the tools is a library verified with
Verus (`src/`):

- `calendar`: proleptic Gregorian calendar, day numbers, clamped month
  arithmetic, whole months and years between dates, weekdays, ISO weeks.
- `datetime` and `chrono_api`: reading date inputs (through chrono), adding
  durations, differences in a breakdown or one unit, calendar facts.
- `programmer`: base conversion and bitwise operations on 8- to 64-bit values.
- `units`: which unit a name stands for, and the checks before converting or
  combining quantities.
- `expression`: rewriting expressions for the evaluator and the algebra
  crates, tidying their output, factorial and integer square root.
- `precision`: continued-fraction convergents and mixed-number text.
- `shapes`: shape checks of the matrix and vector tools.
- `text`: characters, trimming, radix digits and integer parsing.

`app/` holds the server (rmcp, tokio), the floating-point tools, and the
calls into the evaluator, the statistics, matrix and plotting crates and the
computer-algebra crates. `tests/` exercises the library.

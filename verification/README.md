# dawam

The rules of a staff and attendance service, verified with Verus: clocking in
and out, rosters and the suggestions that fill a week, pay windows, advances,
presence flags, holidays and who may act where.

- `src/` is the library. Every rule is a function from plain values to plain
  values with its contract; what a function refuses and with which error is part
  of the contract. Proof functions named `law_…` state what holds across
  functions.
- `tests/` runs the library, with the crates it calls linked.
- `app/` is the service around it: the store, the wire and the clock. What the
  rest of a business's server provides comes through one trait, `host::Host`.

Ids are 128-bit numbers, dates count days of the common era, instants count
nanoseconds from 1970 and times of day count nanoseconds from midnight. Scores
and learning weights are counted in billionths.

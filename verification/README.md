# AlgoQuant

A cross-asset trading engine. Its logic is a library that Verus verifies; the
program around it only connects, sends and waits.

- `src/` the library
  - `config`, `events`, `types`: settings, events, market data, orders
  - `number`: the arithmetic that everything is computed with. The engine is written
    against `Number`; `number::fixed` is a fixed-point instance, the program uses
    hardware floating point
  - `text`, `time`, `decimal`, `window`, `symbol_map`: the means
  - `signals`: volatility across asset classes, technical indicators, news sentiment
  - `strategy`: hedging on crypto volatility, mean reversion
  - `risk`: the rules every order has to pass, and the circuit breaker
  - `engine`: from signals to booked orders
  - `execution`, `ingestion`, `storage`: the broker's messages, feeds, database lines
- `tests/` runs the library on fixed-point and on floating-point numbers
- `app/` the program: connections, channels and tasks

Contracts speak of the results of arithmetic by name (`sum`, `quotient`, `less`), so
they fix which operation is applied to which operands in which order, for any number
type whose operations are functions of their operands. Public proof functions named
`law_...` state what holds across calls.

Every parameter of the settings file can be overridden by an environment variable named
after its section and its name, such as `RISK_MAX_ORDER_NOTIONAL`.

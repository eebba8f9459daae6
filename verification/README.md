# binary_options_tools

Rules, candles, streams and orders for a binary options exchange, verified with Verus.

- `src/` is the library. Every function states in its contract what it returns or changes, and
  the `*_laws.rs` files and the `law_*` functions state what holds across functions.
- `tests/` holds its tests.
- `app/` runs the library on websockets, channels and clocks.

The modules of `src/`:

| module | what it does |
| --- | --- |
| `rules`, `rule_answers`, `rule_laws` | rules that accept or refuse websocket messages |
| `dsl`, `dsl_laws` | the language of the `#[rule(..)]` attribute |
| `candle`, `candle_laws`, `subscription`, `subscription_laws`, `sort` | candles, and how they are put together |
| `historical_data`, `history_laws` | requests for past prices |
| `chart_stream` | past prices followed by live ones |
| `trades`, `trade_laws`, `deals`, `deal_laws` | orders and their results |
| `virtual_market` | a market in memory |
| `assets`, `balance` | updates of the account |
| `probe` | the live probe of chart streams |
| `decimal`, `number`, `clock`, `text`, `json`, `message`, `wire`, `types`, `string_map`, `error` | what the others are built on |

What is not proved stands in functions marked `external_body`: calls of `rust_decimal`, `regex`,
`serde_json`, `chrono`, `uuid`, `syn` and a few of std. Each says above it what is believed of
the call.

# risex_latency

A latency benchmark for the RISEx perpetual futures exchange, and tools that
watch the exchange's order book channel, around a library verified with Verus.

`src/` is the library:

- `order`, `eip712`, `crypto`, `encoding`: how orders are packed, hashed and
  signed.
- `client`: what the benchmark sends, and what it does with the answers.
- `wad`, `stats`: how balances are shown, and the ranks among latencies.
- `stream`, `table`, `monitor`: repeats dropped market by market, and the halt
  where a market goes back.
- `tracker`: the same watch over one connection, by block and log index.
- `decimal`, `book`, `checksum`, `checker`: books kept from snapshots and
  updates, and the checksums they are held against.
- `json`, `message`, `text`: reading what the exchange sends.

Proof functions named `law_..` state what holds of several functions together.
Functions marked `external_body` call other crates; their contracts are believed,
and the comment above each says what it claims.

`app/` is the program: HTTP, websockets, clocks, floating point and printing.

    risex_latency                                 the benchmark
    risex_latency ws_logindex_monitor             all markets, ten connections
    risex_latency ws_logindex_monitor_staging     all markets, one connection
    risex_latency ws_checksum_debug               the checksums of 200 updates
    risex_latency ws_orderbook                    the messages as they come

The benchmark reads `ACCOUNT_PRIVATE_KEY` or `ACCOUNT_ADDRESS`,
`SIGNER_PRIVATE_KEY` and, where it is set, `API_URL` from the environment or a
`.env` file.

# Matching Engine

An exchange matching engine's shell, verified with Verus: wire codecs, write-ahead
log, rings, and the engine's bookkeeping round an order book.

```
TCP (OE)  →  ingress  →  Command ring  →  engine (WAL + book)  →  Event ring  →  egress (private ack)
                                                                ↳  Event ring  →  MD / multicast
```

`src/` is the library. Everything in it has a contract that Verus checks.

| module | what it holds |
|---|---|
| `types` | commands and events |
| `bytes`, `text` | integers on the wire, decimal text, Unicode text |
| `spsc` | the bounded ring |
| `wal`, `wal_laws` | 64-byte log frames; what is written is recovered, what is damaged is noticed |
| `engine`, `engine_laws` | which client's order is which resting order; who is told what |
| `codec::ouch`, `codec::itch` | OUCH 5.0 subset in, ITCH 5.0 over MoldUDP64 out |
| `codec::fix`, `codec::fix_model` | FIX 4.4 acceptor, and its model |
| `codec::fix_laws`, `codec::fix_wire_laws`, `codec::fix_history` | what holds of every acceptor, of what clients send it, and over a whole session |
| `codec::tagvalue`, `codec::names`, `codec::text_map` | tag-value framing, order names |
| `codec::price` | prices in text: whole numbers, and decimal numbers rounded as doubles and cut |
| `codec::sbe`, `codec::sbe_oe`, `codec::sbe_md` | SBE messages, order entry, market data (`extras/schemas`) |
| `codec::script` | a codec that says what it was told to, for rehearsals |
| `ingress`, `egress`, `md_pub` | what the three I/O threads decide |
| `cli` | the command line |

`app/` is the program: sockets, threads, the mapped log file, the clock, and the order
book itself (`calvera-books`). The engine tells it what to ask of the book
(`MatchingEngine::apply`) and takes the answer (`MatchingEngine::settle`).

The library trusts a few calls: the `ironfix` encoder and decoder, the `ironsbe` message
header, and three functions on text of the standard library. Each stands behind one small
function marked `external_body` whose comment says what is believed of it.

The WAL write is a store into the map, with no fsync, so the engine thread does not wait
on disk. A power loss can drop the tail the kernel has not flushed.

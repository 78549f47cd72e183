# packet_sniffer_engine

A packet capture analysis engine with a verified core.

- `src/` is the library, checked by Verus:
  - `text` — characters and strings: whitespace, trimming, keyword matching,
    unsigned number parsing, decimal and hex rendering.
  - `addr` — IPv4 addresses: dotted-quad parsing and printing.
  - `lexer`, `parser` — the filter language (`tcp and port 443`,
    `src 10.0.2.15 or size > 100`, ...): tokens, a recursive-descent parser
    and its error messages, with the laws of the language: whitespace only
    separates tokens, juxtaposed filters mean `and`, a parenthesized filter
    stands for itself.
  - `casing` — keywords match in any case: a filter parses the same with
    its ASCII letters in any case.
  - `filter` — filter expressions and their evaluation on a packet.
  - `packet` — decoding of Ethernet (with 802.1Q), IPv4, TCP, UDP and ICMP
    headers from raw frames.
  - `flow` — direction-independent flow keys and the flow table with
    per-direction counters and TCP state.
  - `render`, `units`, `report` — names, hex, byte counts, the JSON line,
    the text report, the hex dump and the flow table rows.
  - `cli` — the command line.
  - `capture` — one step of a capture: a frame is counted, decoded,
    filtered, recorded in its flow and turned into the lines to print.
- `app/` is the program: capture through libpcap, saving, printing,
  timing.
- `tests/` runs the library on concrete inputs.

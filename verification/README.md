# liquidation_monitor

A service that subscribes to the block feed of a Terra node and passes on the
exchange rates that validators vote in each block.

- `src/` is the verified library:
  - `types` — the block feed's data model and the result type;
  - `rate_table` — the table from asset name to rate, with its laws;
  - `matching` — the two patterns that find an asset name and a rate in an
    entry, specified as leftmost-first matches;
  - `decimal` — reading a rate as a decimal;
  - `data_processor` — from a block to its table of rates, with its laws;
  - `config` — the service's configuration;
  - `stream_control` — the decisions of the streaming loop.
- `app/` is the program around it: configuration and log files, the web
  socket, the channels and tasks, and JSON reading with serde.
- `tests/` runs the library on concrete inputs.

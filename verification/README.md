# flowsurface

The decisions behind a desktop application for crypto market data, verified with Verus: the depth
heatmap, the kline charts with their indicators and studies, the requests for market data and the
network settings.

- `src/` is the library. Its contracts speak of prices and quantities in fixed-point units, of
  times in milliseconds, and of floating point numbers by their bits, as far as they are only
  compared or carried.
  - `heatmap`: the ring of depth columns, what is uploaded of it, what the overlays show, and when
    the heatmap is rebuilt, paused and resumed.
  - `kline_chart`: bars, footprints, studies, trades, and what a chart fetches next.
  - `indicator`: market structure, cumulative delta, open interest, the table of bars, and plots.
  - `connector`: requests and their states, paging, Arrow streams of trades, and the network.
  - `network_editor`, `axis`, `interaction`, `domain`, `logger`: what the forms, the axes, the
    mouse, percentage charts and the log decide.
- `app/` draws, reads files and talks to the network. It holds what is floating point or belongs to
  the graphics stack.
- `tests/` runs the library on concrete values.

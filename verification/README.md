# volas

The core of the volas data-frame library, written in Verus and proved
against its contracts: time-frame bucketing and OHLCV cumulation, CSV column
assembly and dtype inference, timestamps and their calendar, indexer
selectors, column and row reshaping, and the pandas-style text and HTML
layout of frames and series.

## Layout

- `src/` — the verified library.
  - `time_frame.rs`, `civil.rs` — time frames, their labels and period keys
    (civil dates from epoch days, wall clock of a fixed-offset zone).
  - `period_laws.rs` — what a period key means: equal keys exactly for
    instants in the same bucket (also counted in nanoseconds), coarsenable
    frames nest and coarsening is a partial order, labels round-trip, the
    3-day and week keys are continuous.
  - `frame.rs`, `error.rs` — typed columns, row indexes and frames.
  - `agg.rs` — the aggregators and the per-column aggregation spec.
  - `cumulate.rs` — grouping bars into periods, aggregating a period, the
    incremental cumulator and one-shot cumulation.
  - `cumulate_laws.rs`, `one_shot.rs`, `idempotence.rs` — feeding bars in
    any number of consecutive chunks matches feeding them at once, one-shot
    cumulation is the aggregate of every period, and cumulating twice
    changes nothing.
  - `resend.rs` — a re-sent bar replaces the last bar of its period.
  - `live.rs` — a cumulated frame kept live, started empty, from a
    one-shot cumulation or from finished bars: each new bar updates the
    forming row or opens the next period, the result is always the one-shot
    cumulation of everything folded, and a re-sent bar counts once.
  - `reader.rs` — parsing CSV bytes with the `csv` crate, missing-value
    tokens, column assembly of the records and per-column dtype inference
    (`i64` -> `f64` -> `bool` -> `str`).
  - `text.rs`, `render.rs`, `html.rs`, `display.rs` — justification,
    escaping, number texts, the text table, series and HTML layouts, and
    the text and HTML tables of a whole frame.
  - `positions.rs`, `window_args.rs` — head/tail windows, index and slice
    positions, frequencies, and argument checks.
  - `timestamp.rs` — an instant with its zone: calendar fields, ISO week,
    wall-clock floor / ceil / round, checked arithmetic, zone changes and
    the ISO-8601 text.
  - `select.rs` — row and column selectors of the positional and label
    indexers, resolved to positions.
  - `reshape.rs` — dropping and renaming columns, dropping rows by label,
    gathering rows, head and tail, resetting the index, and checking the
    keys of a one-bar record.
  - `sort.rs` — the stable sort of rows by index label.
  - `mask.rs` — lining up the condition frame of `where` / `mask` with the
    frame: same shape, columns paired by name, same index, boolean only.
  - `construct.rs` — building a frame from named columns, the `columns`
    projection and argument, the `cumulators` argument, and the retention
    bound of a windowed frame.
  - `repeats.rs` — duplicate masks of columns and rows, dropping duplicate
    rows, distinct counts, value counts and modes.
  - `assign.rs` — setting one typed value at the cells a row mask or a
    boolean frame selects, all or nothing.
  - `cells.rs`, `dtype.rs` — CSV texts of cells and labels, the index
    column and the row layout; dtype names.
- `tests/` — tests of the library on concrete values.
- `app/` — reading CSV files from disk, and the float arms of parsing,
  aggregation and cell formatting (the library holds no floats).

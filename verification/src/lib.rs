//! Time-frame cumulation of OHLCV bars, CSV column inference, timestamps,
//! indexer selectors, frame reshaping and table text layout for the volas
//! data-frame library.

pub mod civil;
pub mod text;
pub mod error;
pub mod time_frame;
pub mod period_laws;
pub mod frame;
pub mod agg;
pub mod cumulate;
pub mod cumulate_laws;
pub mod resend;
pub mod one_shot;
pub mod idempotence;
pub mod reader;
pub mod render;
pub mod positions;
pub mod window_args;
pub mod html;
pub mod live;
pub mod timestamp;
pub mod select;
pub mod reshape;
pub mod dtype;
pub mod cells;
pub mod display;
pub mod mask;
pub mod assign;
pub mod construct;
pub mod repeats;
pub mod sort;

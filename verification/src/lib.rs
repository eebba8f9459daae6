//! Rules, candles, streams and orders for a binary options exchange.

pub mod announcement_laws;
pub mod answer_laws;
pub mod assets;
pub mod balance;
pub mod candle;
pub mod candle_laws;
pub mod chart_laws;
pub mod chart_stream;
pub mod clock;
pub mod deal_laws;
pub mod deals;
pub mod decimal;
pub mod dsl;
pub mod dsl_laws;
pub mod error;
pub mod frame_laws;
pub mod historical_data;
pub mod history_laws;
pub mod json;
pub mod lowering_laws;
pub mod market_laws;
pub mod matcher_laws;
pub mod merge_laws;
pub mod message;
pub mod number;
pub mod number_laws;
pub mod order_laws;
pub mod probe;
pub mod rule_answers;
pub mod rule_laws;
pub mod rules;
pub mod sort;
pub mod span_laws;
pub mod spelling_laws;
pub mod string_map;
pub mod subscription;
pub mod subscription_laws;
pub mod text;
pub mod trade_laws;
pub mod trades;
pub mod types;
pub mod virtual_market;
pub mod wire;
pub mod wire_laws;

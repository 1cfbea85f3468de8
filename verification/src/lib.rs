//! Term-frequency counting: Unicode-aware tokenization, stop-word filtering,
//! frequency tables that remember first-appearance order, and top-N ranking,
//! together with the request/reply protocol of the loader and counter services
//! and the orchestrator that sequences them.

pub mod model;
pub mod tokenizer;
pub mod counter;
pub mod ranking;
pub mod stop_words;
pub mod failure;
pub mod loader;
pub mod orchestrator;
pub mod pipeline;

//! Behaviour-based endpoint detection: the events a sensor sends, the rules that
//! read them, the engine that weighs and answers them, and what supervises it.
pub mod asmr;
pub mod config;
pub mod likelihood;
pub mod model;
pub mod numbers;
pub mod observer;
pub mod pipeline;
pub mod ports;
pub mod protocol;
pub mod ratio;
pub mod sigma;
pub mod supervision;
pub mod text;
pub mod text_laws;
pub mod textmap;

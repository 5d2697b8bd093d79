pub mod engine;
pub mod futu;
pub mod text;
pub mod time;
pub mod types;
pub mod risk;
pub mod protocol;
pub mod audit;
pub mod metrics;
pub mod secrets;
pub mod models;
pub mod strategies;
pub mod paper;
pub mod ai;
pub mod control;
pub mod config;

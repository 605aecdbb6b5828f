//! The logic of a personal macroeconomics dashboard.

pub mod agent;
pub mod budget;
pub mod calendar;
pub mod chat;
pub mod color;
pub mod country;
pub mod dashboard;
pub mod decimal;
pub mod display;
pub mod feeds;
pub mod html;
pub mod json;
pub mod kraken;
pub mod markdown;
pub mod order;
pub mod percent;
pub mod prompt;
pub mod range;
pub mod registry;
pub mod scalar;
pub mod search;
pub mod series;
pub mod stream;
pub mod table;
pub mod text;
pub mod tools;
pub mod utf8;
pub mod worker;
pub mod yahoo;

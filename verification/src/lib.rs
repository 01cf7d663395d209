//! Data model and client/server logic of a small full-stack employee
//! directory with a shared counter.

pub mod api;
pub mod counter;
pub mod data_page;
pub mod edit;
pub mod format;
pub mod table;
pub mod text;
pub mod theme;

pub use api::{ApiResponse, CounterState, Employee};

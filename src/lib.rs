//! Instrumentation passes for WebAssembly modules: gas metering and stack height limiting.
//!
//! Both passes work on [`wasm::Module`], the view of a module that they read and rewrite.
pub mod gas_metering;
pub mod stack_limiter;
pub mod wasm;

pub use stack_limiter::{compute_stack_cost, inject as inject_stack_limiter};

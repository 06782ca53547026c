//! The machine model: instructions, registers, caches, memory and branch
//! predictors.
pub mod vm_errors;
pub mod instructions;
pub mod registers;
pub mod branch_perceptor;
pub mod branch_predictor;
pub mod pipelines;
pub mod cache_stats;
pub mod cache_configs;
pub mod caches;
pub mod buffers;
pub mod memorys;

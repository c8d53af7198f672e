//! Sampling-profiler core: call-stack data, aggregation, flame graphs and reports.
#![allow(unused_imports)]

pub mod text;
pub mod winpath;
pub mod error;
pub mod types;
pub mod rank;
pub mod stackwalker;
pub mod analysis;
pub mod etw;
pub mod report;
pub mod config;
pub mod session;
pub mod cli;
pub mod profiler;

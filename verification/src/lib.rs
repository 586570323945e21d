//! Ranking WAV files by acoustic features: the decisions of the pipeline
//! (command line, configuration, file selection, sample decoding, analysis
//! windows, zero crossings, display names and ranking order) stated and
//! proved over plain values.

pub mod cli;
pub mod config;
pub mod features;
pub mod output;
pub mod rank;
pub mod scan;
pub mod text;
pub mod wav;

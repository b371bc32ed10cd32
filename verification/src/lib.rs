//! Verified core of an artifact cache server for CI runners.
pub mod clock;
pub mod seqs;
pub mod text;
pub mod auth;
pub mod db;
pub mod storage;
pub mod error;
pub mod pull;
pub mod push;
pub mod gc;
pub mod config;
pub mod laws;

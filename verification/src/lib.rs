//! A template-driven HTTP vulnerability scanner engine: request building,
//! request clustering, rate limiting, response matching and data extraction.

pub mod text;
pub mod time;
pub mod urls;
pub mod scanner;
pub mod cluster;
pub mod rate_limit;
pub mod regex_support;
pub mod template;
pub mod dsl;
pub mod matcher;
pub mod extractor;
pub mod raw_request;
pub mod cli;
pub mod engine;
pub mod output;

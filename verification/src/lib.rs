//! Indexing and query engine for repository context: ignore policy, scan
//! classification, index configuration, query planning, context packing,
//! and the text/graph helpers the pipeline is built from.

pub mod text;
pub mod matching;
pub mod ignore;
pub mod model;
pub mod planner;
pub mod context;
pub mod config;
pub mod digest;
pub mod repository;
pub mod history;
pub mod pattern;
pub mod parser;
pub mod indexing;
pub mod descriptor;
pub mod relations;
pub mod diff;
pub mod packages;
pub mod dense;
pub mod providers;
pub mod browse;
pub mod dataflow;
pub mod landmarks;
pub mod cochange;
pub mod testlinks;
pub mod callgraph;
pub mod imports;
pub mod alignment;
pub mod artifact;
pub mod joern;
pub mod knowledge;
pub mod atlas;
pub mod dataflow_import;
pub mod activation;
pub mod records;

//! Verified core of a command line client for a 3D model search service:
//! the data model, its CSV rendering, the rules that turn service replies
//! into results, and the decisions of the multi-step workflows.

pub mod text;
pub mod csv_text;
pub mod names;
pub mod model;
pub mod tables;
pub mod text_map;
pub mod bom;
pub mod client;
pub mod score_tables;
pub mod format;
pub mod report;
pub mod folders;
pub mod service;
pub mod labels;
pub mod upload;
pub mod configuration;
pub mod token;
pub mod graph;
pub mod cache;
pub mod selection;
pub mod equality;
pub mod matching;
pub mod listing;

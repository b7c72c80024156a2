//! A verified model of the query graph builder of a database query engine:
//! filter extraction and normalisation, write argument parsing, error reporting
//! and the planning of the nodes and edges that a query graph receives.

pub mod text;
pub mod constants;
pub mod values;
pub mod schema;
pub mod error;
pub mod filter;
pub mod filter_fold;
pub mod flatten;
pub mod filter_op;
pub mod filter_grouping;
pub mod relation_load_strategy;
pub mod scalar;
pub mod scalar_parser;
pub mod query_graph;
pub mod write_utils;
pub mod connect_nested;
pub mod extract;
pub mod unique;
pub mod builder;
pub mod document;
pub mod combinations;
pub mod write_args;
pub mod equality;
pub mod disconnect_nested;
pub mod upsert;
pub mod relations;
pub mod copies;
pub mod referential;
pub mod emulation;
pub mod delete_nested;
pub mod delete;
pub mod group_by;
pub mod limit;
pub mod set_nested;
pub mod query_args;
pub mod suffix_filter;
pub mod selection;
pub mod selection_spec;
pub mod aggregation_response;
pub mod shown;
pub mod connect_or_create;
pub mod update;
pub mod upsert_nested;

//! Dependency graphs of Maven projects and the facts derived from them: POM
//! dependency graphs, class-level data flows, library pairs found by a
//! Datalog analysis, jar contents, and SARIF path reports.
pub mod foreign;
pub mod text;
pub mod pomdep;
pub mod dot_graph;
pub mod dataflow;
pub mod utils;
pub mod dl_relation;
pub mod sarif;
pub mod jar_class_map;
pub mod mvn_reactor;
pub mod lib_edges;
pub mod rank_api;

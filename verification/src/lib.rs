//! Verified core of the concordia crossing workbench: input conventions and
//! common-lead provenance, point validation decisions, branch planning,
//! canonical run fingerprints, intersection bookkeeping and command-line
//! option parsing.

pub mod model;
pub mod text;
pub mod json;
pub mod geometry;
pub mod solve;
pub mod analysis;
pub mod web;
pub mod intersection;
pub mod options;
pub mod member_order;
pub mod fixtures;

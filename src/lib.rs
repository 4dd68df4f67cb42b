//! A capability-flow safety gate for composed sandboxed modules.
//!
//! A blueprint names modules and wires one module's imports to another's
//! exports. The analyzer classifies what each wire grants, propagates those
//! capabilities along the dependency graph to the least fixed point, and
//! reports every module that holds a dangerous combination. Around it stand
//! the pieces a runtime needs: module locators, cache layout and checksum
//! checks; interface descriptors; the wirer's decisions; middleware; and the
//! workflow engine's templating and typed-value/JSON marshalling.

pub mod text;
pub mod order;
pub mod capability;
pub mod depgraph;
pub mod blueprint;
pub mod analyzer;
pub mod rules;
pub mod value;
pub mod marshal;
pub mod jsontext;
pub mod workflow;
pub mod locator;
pub mod wit;
pub mod wirer;
pub mod middleware;
pub mod calendar;
pub mod agent;
pub mod contract_ui;

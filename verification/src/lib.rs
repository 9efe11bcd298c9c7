//! Verified logic of declarative VM build and test plans: plan documents, step
//! validation, input substitution, guest probes, step outputs and time budgets.
//!
//! Everything here computes on plain values. Running guests, reading files and
//! printing is left to the program around the library.

pub mod acceptance;
pub mod accounts;
pub mod asserts;
pub mod budget;
pub mod checks;
pub mod cloud_init;
pub mod courses;
pub mod decimals;
pub mod document;
pub mod documents;
pub mod env;
pub mod error;
pub mod expect;
pub mod flow;
pub mod globbing;
pub mod guest;
pub mod handover;
pub mod host;
pub mod includes;
pub mod inputs;
pub mod load;
pub mod local;
pub mod logging;
pub mod numbers;
pub mod ordered;
pub mod outputs;
pub mod packages;
pub mod pairs;
pub mod passes;
pub mod paths;
pub mod phases;
pub mod placing;
pub mod probe;
pub mod readings;
pub mod records;
pub mod reference;
pub mod references;
pub mod remote;
pub mod repeat;
pub mod run;
pub mod scope;
pub mod sections;
pub mod shell;
pub mod shutdown;
pub mod staging;
pub mod step;
pub mod step_rules;
pub mod streams;
pub mod strings;
pub mod template;
pub mod text;
pub mod uploads;
pub mod validate;
pub mod value;
pub mod verdicts;
pub mod waits;
pub mod yaml;

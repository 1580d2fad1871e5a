//! Extension and native-call bookkeeping for an embeddable scripting-engine
//! host: composing bundles of bootstrap sources, op tables and setup hooks,
//! and validating canonical op names.

pub mod extensions;
pub mod naming;

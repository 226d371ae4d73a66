//! A synthetic-check engine: multi-stage probes whose textual output is
//! validated by declarative matchers, with captured values propagated
//! between stages through a backreference store.

pub mod checks;
mod ext;
pub mod json;
pub mod num;
pub mod runner;
pub mod subst;

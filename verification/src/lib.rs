//! Verified core of the LLMBoard provider-preset framework.

pub mod text;
pub mod fmt;
pub mod dates;
pub mod json;
pub mod path;
pub mod expr;
pub mod preset;
pub mod validate;
pub mod template;
pub mod normalize;
pub mod keyed;
pub mod state;
pub mod usage;
pub mod provider;
pub mod capabilities;
pub mod ui;
pub mod engine;
pub mod snapshot;
pub mod backup;
pub mod export;

//! A minimalist-grammar derivation engine: merge and move over feature-annotated
//! syntactic objects, driven by a bounded search.

pub mod derivation;
pub mod error;
pub mod feature;
pub mod lexicon;
pub mod operations;
pub mod patterns;
pub mod syntax;
pub mod telemetry;

pub use derivation::{find_mergeable_pairs, step, Workspace};
pub use error::DerivationError;
pub use feature::{Category, Feature, LexItem};
pub use lexicon::{parse_sentence, test_lexicon};
pub use operations::{can_merge, merge, move_operation};
pub use patterns::{can_generate, generate_an_bn, generate_pattern, is_an_bn_pattern, is_an_bn_tokens};
pub use syntax::SyntacticObject;
pub use telemetry::{log_anomalies, mission_lexicon, mission_log_anomalies};

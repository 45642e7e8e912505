//! Reading and melting Imperator: Rome save files.

pub mod binary;
pub mod date;
pub mod date_order;
pub mod digits;
pub mod errors;
pub mod extraction;
pub mod flavor;
pub mod header;
pub mod melt;
pub mod melt_proofs;
pub mod melt_spec;
pub mod models;
pub mod tokens;
pub mod writer;

pub use date::ImperatorDate;
pub use errors::{ImperatorError, ImperatorErrorKind};
pub use extraction::Encoding;
pub use flavor::ImperatorFlavor;
pub use header::{SaveHeader, SaveHeaderKind};
pub use melt::{melt, MeltOptions, MeltedDocument};
pub use melt_spec::FailedResolveStrategy;
pub use tokens::{EnvTokens, TokenResolver, TokenTable};

pub mod error;
pub mod git;
pub mod package;
pub mod project;
pub mod resolve;
pub mod semver;
pub mod text;

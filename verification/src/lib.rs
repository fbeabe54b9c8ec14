//! Scans newly published packages of public registries for leaked AWS access keys:
//! the registry bookkeeping, match handling and report preparation, with their contracts.
pub mod text;
pub mod time;
pub mod links;
pub mod sources;
pub mod scanners;
pub mod aws;
pub mod reporter;
pub mod state;
pub mod paths;

//! What the window knows about a container: the logic of a desktop
//! application for Slipcase containers, with its contracts.
//!
//! The window opens a container, states the library's verdict on it, shows a
//! card for its payload and a tree for its metadata, and extracts, replaces
//! and packs payloads. What it decides and what it says is here; reading and
//! writing files, asking the platform, and drawing are the application's.

pub mod actions;
pub mod card;
pub mod corpus;
pub mod extraction;
pub mod naming;
pub mod opens_with;
pub mod policy;
pub mod potext;
pub mod provenance;
pub mod size;
pub mod system_theme;
pub mod text;
pub mod tree;
pub mod verdict;
pub mod watch;

pub use card::Payload;
pub use extraction::Extracted;
pub use policy::RequiredKeys;
pub use watch::Watch;

//! Core of a skill-based agent runtime: manifest discovery and parsing,
//! requirement-based eligibility gating, configuration overlays, scoped
//! environment injection with guaranteed restoration, and the decision
//! logic of remote-repository synchronization and the orchestrator.

pub mod commands;
pub mod discovery;
pub mod eligibility;
pub mod envguard;
pub mod frontmatter;
pub mod manifest;
pub mod orchestrator;
pub mod overlay;
pub mod prompt;
pub mod runmode;
pub mod scan;
pub mod skill;
pub mod sync;
pub mod text;

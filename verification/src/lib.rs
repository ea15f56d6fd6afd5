//! A verified core for an editor-based code-review workflow: the review data
//! model, diff-side resolution, the persisted review documents, and the
//! payloads of the GitHub / GitLab publication protocols.

pub mod config;
pub mod doc;
pub mod json;
pub mod publish;
pub mod resolve;
pub mod review;
pub mod store;
pub mod text;
pub mod url;

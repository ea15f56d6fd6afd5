//! The per-repository configuration record: which remote repository is being
//! reviewed, against which backend, and which pull/merge request is active.

use crate::review::{opt_string_view, GitBackend};
use vstd::prelude::*;

verus! {

/// The single source of truth for "which PR/MR am I reviewing right now".
#[derive(Clone, Debug)]
pub struct Config {
    pub owner: String,
    pub repo: String,
    pub backend: GitBackend,
    pub backend_url: Option<String>,
    pub active_pr: Option<u32>,
}

/// The mathematical value of a `Config`.
#[verifier::ext_equal]
pub struct ConfigView {
    pub owner: Seq<char>,
    pub repo: Seq<char>,
    pub backend: GitBackend,
    pub backend_url: Option<Seq<char>>,
    pub active_pr: Option<u32>,
}

impl View for Config {
    type V = ConfigView;

    open spec fn view(&self) -> ConfigView {
        ConfigView {
            owner: self.owner@,
            repo: self.repo@,
            backend: self.backend,
            backend_url: opt_string_view(self.backend_url),
            active_pr: self.active_pr,
        }
    }
}

impl Config {
    pub fn new(
        owner: String,
        repo: String,
        backend: GitBackend,
        backend_url: Option<String>,
        active_pr: Option<u32>,
    ) -> (c: Config)
        ensures
            c@ == (ConfigView {
                owner: owner@,
                repo: repo@,
                backend: backend,
                backend_url: opt_string_view(backend_url),
                active_pr: active_pr,
            }),
    {
        Config { owner, repo, backend, backend_url, active_pr }
    }
}

impl PartialEq for Config {
    /// Structural equality: every field.
    fn eq(&self, other: &Config) -> (r: bool) {
        let url_eq = match (&self.backend_url, &other.backend_url) {
            (None, None) => true,
            (Some(a), Some(b)) => *a == *b,
            _ => false,
        };
        let pr_eq = match (self.active_pr, other.active_pr) {
            (None, None) => true,
            (Some(a), Some(b)) => a == b,
            _ => false,
        };
        self.owner == other.owner && self.repo == other.repo && self.backend == other.backend
            && url_eq && pr_eq
    }
}

impl vstd::std_specs::cmp::PartialEqSpecImpl for Config {
    open spec fn obeys_eq_spec() -> bool {
        true
    }

    open spec fn eq_spec(&self, other: &Config) -> bool {
        self@ == other@
    }
}

} // verus!

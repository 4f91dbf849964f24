//! GitLab merge-request plumbing and workspace-file helpers, verified with Verus.
//!
//! - `text`: string operations on characters (trimming, splitting, searching,
//!   decimal numbers), each against a specification over `Seq<char>`.
//! - `order`: a verified stable sort.
//! - `trusted`: the few calls into `chrono` and std whose results are taken on trust.
//! - `types`: the plain data that merge requests and comments are described with.
//! - `gitlab`: remote-URL parsing, `glab` command lines and the reading of its output.
//! - `files`: path resolution and listings for the workspace file browser.

pub mod text;
pub mod order;
pub mod trusted;
pub mod types;
pub mod gitlab;
pub mod files;

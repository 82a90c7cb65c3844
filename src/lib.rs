//! Deploys a packaged project to a function platform and follows its log stream.
//!
//! The log follower is a state machine: [`tail::TailEngine`] decides what to ask
//! the log store next and which lines to print; the caller performs the queries,
//! the printing and the waiting.

pub mod credentials;
pub mod docker;
pub mod tail;
pub mod status;
pub mod target;
pub mod toml_depth;

pub use tail::{
    epoch_start,
    LogEvent, QueryError, QueryRequest, QueryResponse, RequestModel, TailAction, TailEngine,
    TailModel, PAGE_LIMIT, POLL_INTERVAL_MS, SAFETY_MARGIN_MS,
};
pub use docker::{build_args, build_volume_name, BuildOptions};
pub use target::{
    parse_arn, parse_arn_or_key, resolve_target, split_fields, TargetError,
};
pub use toml_depth::{toml_nesting_within_limit, MAX_TOML_NESTING};
pub use credentials::{choose_credentials, CredentialSource};
pub use status::CommandExt;

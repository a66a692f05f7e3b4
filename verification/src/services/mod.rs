//! The prio commands: the decisions each one makes between the git commands it runs.
pub mod common;
pub mod status;
pub mod apply;
pub mod mv;
pub mod stack;
pub mod suggestions;
pub mod sync;
pub mod abort;
pub mod recover;
pub mod work_branch_default;
pub mod setup;
pub mod unsetup;
pub mod pr;
pub mod push;
pub mod cp;
pub mod prs;
pub mod continuation;

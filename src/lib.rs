//! Declarative management of version-control hook scripts: the hook-name
//! set, the configuration store, the synchronizer's decisions, the
//! repository locator's paths and the dispatch rules that every generated
//! hook file follows.

pub mod config;
pub mod dispatch;
pub mod git;
pub mod hook_name;
pub mod sync;

pub use config::Config;
pub use dispatch::{dispatch_command, dispatch_exit, finish_marker, hook_script, start_marker, DispatchExit};
pub use git::{Git, GitError};
pub use hook_name::is_valid_hook_name;
pub use sync::{
    add_hook, init, install_hooks, list_hooks, remove_hook, uninstall_hooks, SyncError,
};

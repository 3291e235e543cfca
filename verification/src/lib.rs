//! A directory-jump resolver.
//!
//! Given a short keyword, the library decides which directory the user
//! means. It draws on three pieces of state:
//!
//! - the [`history`] ledger of visited directories, bounded and evicted by
//!   score;
//! - the [`alias`] registry of user-chosen names;
//! - the [`navigation`] stacks that make jumps undoable.
//!
//! The [`resolver`] lays a keyword out as a sequence of candidate
//! directories, following a fixed chain of strategies. The library itself
//! never touches the filesystem: the caller probes the candidates one by
//! one and reports back. [`filesystem`] models the filesystem as a pair of
//! functions and proves, over that model, which candidate wins.
//!
//! Every executable function carries a contract over the mathematical view
//! of its arguments (`Seq<char>` for a string, a sequence of visits for a
//! ledger, a `Map` for the aliases). Four small wrappers call outside code
//! (`str::to_lowercase`, `String::push`, `chrono::Utc::now` and
//! `dirs::home_dir`); their contracts are taken on trust, everything else is
//! proved.

pub mod platform;
pub mod text;
pub mod path;
pub mod clock;
pub mod history;
pub mod navigation;
pub mod alias;
pub mod matching;
pub mod resolver;
pub mod filesystem;
pub mod locations;
pub mod state;
pub mod command;

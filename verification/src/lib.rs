//! Watches remote mailboxes for change notifications and decides when a local
//! synchronisation pass has to run.
//!
//! The library reads the configuration, plans which mailboxes to watch, and
//! holds the rules of a watcher as state machines. It does no input or output
//! of its own: the caller connects, waits and runs commands, and tells the
//! library how that went.
//!
//! - [`text`]: characters, white space, and scanning.
//! - [`line`]: one line of a configuration text.
//! - [`config`]: stores, channels and groups, and lookup by name.
//! - [`parse`]: from a configuration text to a configuration.
//! - [`credential`]: the password of a store.
//! - [`connector`]: the steps that open a session.
//! - [`watcher`]: the life of the watcher of one mailbox.
//! - [`supervisor`]: the mailboxes to watch, and all their watchers.

pub mod config;
pub mod connector;
pub mod credential;
pub mod line;
pub mod parse;
pub mod supervisor;
pub mod text;
pub mod watcher;

//! Change detection for repositories polled through their remote reference
//! lists, with subscriber-filtered notifications.
pub mod dialogue;
pub mod diff;
pub mod events;
pub mod fanout;
pub mod laws;
pub mod markup;
pub mod message;
pub mod refs;
pub mod repository;
pub mod text;
pub mod updater;

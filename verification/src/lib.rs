//! A webhook-to-chat relay library.
//!
//! Receives a parsed push event (a repository, a sender, and an ordered list
//! of commits), formats a markdown message that links to the repository, the
//! sender's profile and each commit, and decides what the webhook handler
//! does with it: reject a malformed request, or deliver the formatted text to
//! a fixed destination channel, always reporting success to the caller.

pub mod dispatch;
pub mod event;
pub mod format;

//! The data carried by an inbound push-event notification.

use vstd::prelude::*;

verus! {

/// One commit of a push: its message text and its canonical URL.
pub struct Commit {
    pub message: String,
    pub url: String,
}

/// The repository that was pushed to.
pub struct Repository {
    pub full_name: String,
    pub html_url: String,
}

/// The account that triggered the push, with its profile URL.
pub struct Sender {
    pub login: String,
    pub html_url: String,
}

/// The pusher identity as the payload names it.
pub struct Pusher {
    pub name: String,
}

/// A push event as parsed from the webhook body: the repository, the
/// pusher and sender identities, and the ordered list of commits.
pub struct PushEvent {
    pub pusher: Pusher,
    pub commits: Vec<Commit>,
    pub repository: Repository,
    pub sender: Sender,
}

} // verus!

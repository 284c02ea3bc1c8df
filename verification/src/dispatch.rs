//! The webhook handler's decisions.
//!
//! The handler accepts one request body, already parsed (or not) into a
//! push event. A malformed body is rejected with a client error and
//! nothing is sent. A parsed event is turned into one outbound send
//! request to the fixed destination channel; the delivery outcome is
//! logged by the caller and never changes the reported status.

use vstd::prelude::*;
use crate::event::PushEvent;
use crate::format::format_push_message;
use crate::format::message_of;

verus! {

/// The dispatcher's fixed configuration: the destination channel
/// identifier, set once at startup and never changed.
pub struct DispatcherConfig {
    pub chat_id: i64,
}

impl DispatcherConfig {
    /// A configuration for the given destination channel.
    pub fn new(chat_id: i64) -> (c: DispatcherConfig)
        ensures
            c.chat_id == chat_id,
    {
        DispatcherConfig { chat_id }
    }
}

/// One outbound send request: the destination channel, the message text,
/// markup rendering enabled, link-preview expansion disabled.
pub struct OutboundMessage {
    pub chat_id: i64,
    pub text: String,
    pub markdown: bool,
    pub disable_link_preview: bool,
}

/// Build the send request for a push event: the formatted message, to the
/// configured channel, rendered as markup, with link previews disabled.
pub fn outbound_message(config: &DispatcherConfig, event: &PushEvent) -> (m: OutboundMessage)
    ensures
        m.chat_id == config.chat_id,
        m.text@ == message_of(*event),
        m.markdown,
        m.disable_link_preview,
{
    OutboundMessage {
        chat_id: config.chat_id,
        text: format_push_message(event),
        markdown: true,
        disable_link_preview: true,
    }
}

/// What the webhook handler does with one request.
pub enum WebhookAction {
    /// The body did not parse as a push event: report a client error and
    /// send nothing.
    Reject,
    /// The body parsed: deliver this message.
    Deliver(OutboundMessage),
}

/// Decide the handler's action. A malformed body (no push event) is
/// rejected and triggers no send; a parsed event is delivered as its
/// formatted message to the configured channel.
pub fn webhook_action(config: &DispatcherConfig, parsed: Option<PushEvent>) -> (a: WebhookAction)
    ensures
        parsed is None <==> a is Reject,
        parsed matches Some(e) ==> (a matches WebhookAction::Deliver(m)
            && m.chat_id == config.chat_id
            && m.text@ == message_of(e)
            && m.markdown
            && m.disable_link_preview),
{
    match parsed {
        None => WebhookAction::Reject,
        Some(event) => WebhookAction::Deliver(outbound_message(config, &event)),
    }
}

/// The HTTP status the webhook reports: a client error for a rejected
/// body, success for a delivered message — whatever the delivery outcome
/// was. A failed send is logged by the caller and swallowed, never
/// surfaced to the webhook's caller.
pub fn response_status(action: &WebhookAction, delivery_ok: bool) -> (s: u16)
    ensures
        action is Reject ==> s == 400,
        action is Deliver ==> s == 200,
{
    let status: u16 = match action {
        WebhookAction::Reject => 400,
        WebhookAction::Deliver(_) => 200,
    };
    status
}

} // verus!

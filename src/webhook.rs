use vstd::prelude::*;

verus! {

/// Severity of a notification sent to the configured webhook.
#[derive(Debug, Clone, Copy, PartialEq, Eq, Structural)]
pub enum NotificationLevel {
    Info,
    Warn,
    Error,
}

/// What a notification is about.
#[derive(Debug, Clone, Copy, PartialEq, Eq, Structural)]
pub enum NotificationCategory {
    TlsValidity,
    ServiceDiscoverFail,
}

/// A message for the webhook transport, which stands outside this library.
#[derive(Debug)]
pub struct Notification {
    pub level: NotificationLevel,
    pub category: NotificationCategory,
    pub msg: String,
}

} // verus!

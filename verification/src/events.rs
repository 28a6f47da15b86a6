//! Plain event values that a host shell reports to the application:
//! panel-container events and the browser-view notifications that
//! carry nothing but data.

use vstd::prelude::*;

verus! {

/// Emitted when a panel container is closed.
#[derive(Debug)]
pub enum ContainerEvent {
    Close,
}

/// Emitted when the browser is created.
#[derive(Debug)]
pub struct CreatedEvent;

/// Emitted when the title changes.
#[derive(Debug)]
pub struct TitleChangedEvent {
    /// The new title.
    pub title: String,
}

/// Emitted when the browser is about to display a tooltip.
#[derive(Debug)]
pub struct TooltipEvent {
    /// The tooltip text.
    pub text: String,
}

/// Emitted when the browser receives a status message.
#[derive(Debug)]
pub struct StatusMessageEvent {
    /// The status message text.
    pub text: String,
}

/// Emitted when preparing to open a popup browser window.
#[derive(Debug)]
pub struct BeforePopupEvent {
    /// The URL of the popup window.
    pub url: String,
}

/// Emitted when the loading state changes.
#[derive(Debug)]
pub struct LoadingStateChangedEvent {
    /// Whether the browser is loading a page.
    pub is_loading: bool,
    /// Whether the browser can go back in history.
    pub can_go_back: bool,
    /// Whether the browser can go forward in history.
    pub can_go_forward: bool,
}

} // verus!

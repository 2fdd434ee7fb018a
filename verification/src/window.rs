//! What the client hands to the display: notifications, and the lines of the
//! chat history that they become.

use vstd::prelude::*;

verus! {

/// A notification for the display.
#[derive(Debug, Clone, PartialEq, Eq)]
pub enum WindowEvent {
    /// A chat message is to be shown: its author, its content.
    DisplayMessage(String, String),
}

/// A notification as a mathematical value.
pub enum WindowEventView {
    DisplayMessage(Seq<char>, Seq<char>),
}

impl View for WindowEvent {
    type V = WindowEventView;

    open spec fn view(&self) -> WindowEventView {
        match self {
            WindowEvent::DisplayMessage(author, content) => WindowEventView::DisplayMessage(
                author@,
                content@,
            ),
        }
    }
}

/// One line of the chat history: its author, its content.
#[derive(Debug, Clone, PartialEq, Eq)]
pub struct Message(pub String, pub String);

impl Message {
    /// The line of the chat history that a notification adds.
    pub fn from_event(event: WindowEvent) -> (message: Message)
        ensures
            event@ == WindowEventView::DisplayMessage(message.0@, message.1@),
    {
        match event {
            WindowEvent::DisplayMessage(auth, cont) => Message(auth, cont),
        }
    }
}

} // verus!

//! The actions a native window system performs for the user interface, and
//! the events it sends back.

use vstd::prelude::*;

verus! {

/// The kind of view an action can create.
#[derive(Clone, Copy, PartialEq, Eq, Structural, Debug)]
pub enum ViewType {
    /// A plain container view.
    Empty,
    /// A button view.
    Button,
    /// A canvas view that can be drawn on.
    Canvas,
}

/// An action performed on a window.
#[derive(Clone, Copy, PartialEq, Eq, Structural, Debug)]
pub enum WindowAction {
    /// Ensures that this window is displayed on screen.
    Open,
    /// Sets the root view of the window to be the given view.
    SetRootView(usize),
}

/// An action performed on a view.
#[derive(Clone, Copy, PartialEq, Eq, Structural, Debug)]
pub enum ViewAction {
    /// Removes the view from its superview.
    RemoveFromSuperview,
    /// Adds the view with the given id as a subview of this view.
    AddSubView(usize),
}

/// An action that the native application can perform.
#[derive(Clone, Copy, PartialEq, Eq, Structural, Debug)]
pub enum AppAction {
    /// Creates a new window with the given id.
    CreateWindow(usize),
    /// Sends an action to a window.
    Window(usize, WindowAction),
    /// Creates a new view of the given type.
    CreateView(usize, ViewType),
    /// Performs an action on the given view.
    View(usize, ViewAction),
}

/// An event generated by the native user interface.
#[derive(Clone, PartialEq, Debug)]
pub enum AppEvent {
    /// The user has clicked on a view: the view id and the event name.
    Click(usize, String),
}

} // verus!

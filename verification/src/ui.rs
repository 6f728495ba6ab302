//! The abstract input surface of the interactive session: the events the
//! outer terminal loop hands to the dispatcher. Key capture and screen
//! rendering live outside the library.

use vstd::prelude::*;

verus! {

/// One turn of the input loop: either a user action, or a tick after the
/// bounded wait for input ran out, which lets the loop re-render.
#[derive(Debug)]
pub enum Event {
    Action(UiAction),
    Tick,
}

/// The abstract user actions; which key produces which action is the
/// outer loop's concern.
#[derive(Debug, Copy, Clone, PartialEq, Eq)]
pub enum UiAction {
    MoveUp,
    MoveDown,
    PageUp,
    PageDown,
    BeginFilter,
    InputChar(char),
    BackspaceFilter,
    ClearFilter,
    EditSelected,
    NewHost,
    DeleteSelected,
    LaunchSelected,
    FormNextField,
    FormPrevField,
    FormSubmit,
    FormCancel,
    Quit,
    Noop,
}

} // verus!

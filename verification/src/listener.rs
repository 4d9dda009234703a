//! The global input listener's decisions: the one-shot start guard
//! and the event-forwarding rule. The listening loop itself runs in
//! the shell and feeds events through `classify_event`.

use vstd::prelude::*;

verus! {

/// The idempotence guard of the background listener.
pub struct ListenerFlag {
    pub running: bool,
}

impl ListenerFlag {
    /// No listener runs at first.
    pub fn new() -> (r: ListenerFlag)
        ensures
            !r.running,
    {
        ListenerFlag { running: false }
    }

    /// Claims the right to start the listener: true exactly on the
    /// first call, and the flag stays set forever after.
    pub fn try_start(&mut self) -> (r: bool)
        ensures
            final(self).running,
            r == !old(self).running,
    {
        let was = self.running;
        self.running = true;
        !was
    }
}

/// A low-level input event, as the decision rule sees it. Pointer
/// coordinates stay with the shell: the rule only decides what is
/// forwarded.
pub enum InputEvent {
    PointerMoved,
    LeftPressed,
    RightPressed,
    /// A key press, with the key's printable name.
    KeyPressed(String),
    Other,
}

/// What the shell must do with one event.
pub enum ForwardAction {
    /// Remember the pointer position and forward nothing.
    TrackPointer,
    /// Forward a click of the named button at the last position.
    EmitClick(String),
    /// Forward the key's name.
    EmitKey(String),
    /// Forward nothing.
    Ignore,
}

/// The forwarding rule: pointer motion is only tracked, left and
/// right presses become clicks at the last tracked position, key
/// presses are forwarded by name, everything else is dropped.
pub fn classify_event(e: InputEvent) -> (r: ForwardAction)
    ensures
        e is PointerMoved ==> r is TrackPointer,
        e is LeftPressed ==> r is EmitClick && r->EmitClick_0@ == "left"@,
        e is RightPressed ==> r is EmitClick && r->EmitClick_0@ == "right"@,
        e matches InputEvent::KeyPressed(k) ==> r matches ForwardAction::EmitKey(n) && n@ == k@,
        e is Other ==> r is Ignore,
{
    match e {
        InputEvent::PointerMoved => ForwardAction::TrackPointer,
        InputEvent::LeftPressed => ForwardAction::EmitClick("left".to_owned()),
        InputEvent::RightPressed => ForwardAction::EmitClick("right".to_owned()),
        InputEvent::KeyPressed(k) => ForwardAction::EmitKey(k),
        InputEvent::Other => ForwardAction::Ignore,
    }
}

} // verus!

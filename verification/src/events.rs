//! How a window reacts to an event from the windowing system.
use vstd::prelude::*;

verus! {

/// The window events a window reacts to; everything else is `Other`.
#[derive(Copy, Clone, Debug, PartialEq, Eq, Structural)]
pub enum WindowEventKind {
    CloseRequested,
    Destroyed,
    Resized(u32, u32),
    RedrawRequested,
    Other,
}

/// What a window does with one event.
#[derive(Copy, Clone, Debug)]
pub struct EventPlan {
    /// Queue closing the window the event is for.
    pub close: bool,
    /// Resize the window's renderer to this size.
    pub resize: Option<(u32, u32)>,
    /// Draw a frame if one is due.
    pub redraw: bool,
    /// Hand the event on to the window's logic.
    pub forward: bool,
}

/// The plan for `kind`, an event for a window whose renderer is the event's
/// target exactly when `for_own_renderer` holds: close and destroy requests
/// queue a close and stop there; resizes and redraw requests reach the
/// renderer only when it is the target; every other event is handed on.
pub fn plan_window_event(kind: WindowEventKind, for_own_renderer: bool) -> (res: EventPlan)
    ensures
        (kind == WindowEventKind::CloseRequested || kind == WindowEventKind::Destroyed) ==> res == (EventPlan {
            close: true,
            resize: None,
            redraw: false,
            forward: false,
        }),
        (kind != WindowEventKind::CloseRequested && kind != WindowEventKind::Destroyed) ==> {
            &&& !res.close
            &&& res.forward
            &&& res.resize == match kind {
                WindowEventKind::Resized(w, h) => if for_own_renderer { Some((w, h)) } else { None },
                _ => None,
            }
            &&& res.redraw == (for_own_renderer && kind == WindowEventKind::RedrawRequested)
        },
{
    match kind {
        WindowEventKind::CloseRequested | WindowEventKind::Destroyed => {
            EventPlan { close: true, resize: None, redraw: false, forward: false }
        },
        WindowEventKind::Resized(w, h) => EventPlan {
            close: false,
            resize: if for_own_renderer { Some((w, h)) } else { None },
            redraw: false,
            forward: true,
        },
        WindowEventKind::RedrawRequested => EventPlan {
            close: false,
            resize: None,
            redraw: for_own_renderer,
            forward: true,
        },
        WindowEventKind::Other => EventPlan { close: false, resize: None, redraw: false, forward: true },
    }
}

} // verus!

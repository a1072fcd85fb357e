//! What the windows of the node editor and of the scene viewer do with each
//! window event.

use vstd::prelude::*;

verus! {

/// The window events the editor reacts to; sizes are in physical pixels.
#[derive(Debug, Clone, Copy, PartialEq, Eq, Structural)]
pub enum ShellEvent {
    CloseRequested,
    Resized { width: u32, height: u32 },
    RedrawRequested,
    Other,
}

/// What the window shell does, in order.
#[derive(Debug, Clone, Copy, PartialEq, Eq, Structural)]
pub enum ShellAction {
    Exit,
    ResizeSurface { width: u32, height: u32 },
    RequestRedraw,
    Render,
}

/// The actions for one event: nothing for another window; a redraw first if
/// the UI asked for one; then closing exits, a resize to a non-empty size
/// resizes the drawing surface (if there is one) and a redraw follows every
/// resize, and a redraw request renders a frame.
pub open spec fn shell_actions(
    for_this_window: bool,
    ui_wants_repaint: bool,
    has_surface: bool,
    event: ShellEvent,
) -> Seq<ShellAction> {
    if !for_this_window {
        Seq::empty()
    } else {
        let first = if ui_wants_repaint {
            seq![ShellAction::RequestRedraw]
        } else {
            Seq::empty()
        };
        first + match event {
            ShellEvent::CloseRequested => seq![ShellAction::Exit],
            ShellEvent::Resized { width, height } => if width != 0 && height != 0 && has_surface {
                seq![ShellAction::ResizeSurface { width, height }, ShellAction::RequestRedraw]
            } else {
                seq![ShellAction::RequestRedraw]
            },
            ShellEvent::RedrawRequested => seq![ShellAction::Render],
            ShellEvent::Other => Seq::empty(),
        }
    }
}

/// What the editor's window does, event by event: nothing for another
/// window; a redraw first whenever the UI asks for one; closing always ends
/// with exiting, and only closing exits; only a redraw request renders; a
/// surface is resized only to the new, non-empty size of a resize event and
/// only if a surface exists; a resize is always followed by a redraw.
pub proof fn lemma_shell_actions_laws(
    for_this_window: bool,
    ui_wants_repaint: bool,
    has_surface: bool,
    event: ShellEvent,
)
    ensures
        ({
            let actions = shell_actions(for_this_window, ui_wants_repaint, has_surface, event);
            &&& !for_this_window ==> actions.len() == 0
            &&& for_this_window && ui_wants_repaint ==> actions.len() > 0 && actions[0]
                == ShellAction::RequestRedraw
            &&& for_this_window && event == ShellEvent::CloseRequested ==> actions.len() > 0
                && actions.last() == ShellAction::Exit
            &&& actions.contains(ShellAction::Exit) ==> event == ShellEvent::CloseRequested
            &&& for_this_window && event == ShellEvent::RedrawRequested ==> actions.len() > 0
                && actions.last() == ShellAction::Render
            &&& actions.contains(ShellAction::Render) ==> event == ShellEvent::RedrawRequested
            &&& forall|w: u32, h: u32|
                #[trigger] actions.contains(ShellAction::ResizeSurface { width: w, height: h })
                    ==> has_surface && w != 0 && h != 0 && event == (ShellEvent::Resized {
                    width: w,
                    height: h,
                })
            &&& (for_this_window && has_surface && event is Resized && event->width != 0
                && event->height != 0) ==> actions.contains(
                ShellAction::ResizeSurface { width: event->width, height: event->height },
            )
            &&& (for_this_window && event is Resized) ==> actions.len() > 0 && actions.last()
                == ShellAction::RequestRedraw
        }),
{
    let actions = shell_actions(for_this_window, ui_wants_repaint, has_surface, event);
    if for_this_window {
        let first = if ui_wants_repaint {
            seq![ShellAction::RequestRedraw]
        } else {
            Seq::empty()
        };
        let rest = actions.subrange(first.len() as int, actions.len() as int);
        assert(actions =~= first + rest);
        assert forall|a: ShellAction| #[trigger] actions.contains(a) implies first.contains(a)
            || rest.contains(a) by {
            let k = choose|k: int| 0 <= k < actions.len() && actions[k] == a;
            if k >= first.len() {
                assert(rest[k - first.len()] == a);
            }
        }
        if let ShellEvent::Resized { width, height } = event {
            if has_surface && width != 0 && height != 0 {
                assert(actions[first.len() as int] == ShellAction::ResizeSurface { width, height });
            }
        }
    }
}

/// Decides what the window shell does with one event.
pub fn window_event_actions(
    for_this_window: bool,
    ui_wants_repaint: bool,
    has_surface: bool,
    event: ShellEvent,
) -> (actions: Vec<ShellAction>)
    ensures
        actions@ == shell_actions(for_this_window, ui_wants_repaint, has_surface, event),
{
    let mut actions: Vec<ShellAction> = Vec::new();
    if !for_this_window {
        return actions;
    }
    if ui_wants_repaint {
        actions.push(ShellAction::RequestRedraw);
    }
    let ghost first = actions@;
    match event {
        ShellEvent::CloseRequested => actions.push(ShellAction::Exit),
        ShellEvent::Resized { width, height } => {
            if width != 0 && height != 0 && has_surface {
                actions.push(ShellAction::ResizeSurface { width, height });
            }
            actions.push(ShellAction::RequestRedraw);
        },
        ShellEvent::RedrawRequested => actions.push(ShellAction::Render),
        ShellEvent::Other => {},
    }
    assert(actions@ =~= shell_actions(for_this_window, ui_wants_repaint, has_surface, event));
    actions
}

/// The actions of the scene viewer's window for one event: closing exits; a
/// resize to a non-empty size resizes the surface, once the renderer state
/// exists; a redraw request renders a frame, once the state exists, and then
/// asks for the next redraw, so that the scene keeps animating.
pub open spec fn scene_actions(has_state: bool, has_window: bool, event: ShellEvent) -> Seq<
    ShellAction,
> {
    match event {
        ShellEvent::CloseRequested => seq![ShellAction::Exit],
        ShellEvent::Resized { width, height } => if has_state && width > 0 && height > 0 {
            seq![ShellAction::ResizeSurface { width, height }]
        } else {
            Seq::empty()
        },
        ShellEvent::RedrawRequested => (if has_state {
            seq![ShellAction::Render]
        } else {
            Seq::empty()
        }) + (if has_window {
            seq![ShellAction::RequestRedraw]
        } else {
            Seq::empty()
        }),
        ShellEvent::Other => Seq::empty(),
    }
}

/// Decides what the scene viewer's window does with one event.
pub fn scene_event_actions(has_state: bool, has_window: bool, event: ShellEvent) -> (actions: Vec<
    ShellAction,
>)
    ensures
        actions@ == scene_actions(has_state, has_window, event),
{
    let mut actions: Vec<ShellAction> = Vec::new();
    match event {
        ShellEvent::CloseRequested => actions.push(ShellAction::Exit),
        ShellEvent::Resized { width, height } => {
            if has_state && width > 0 && height > 0 {
                actions.push(ShellAction::ResizeSurface { width, height });
            }
        },
        ShellEvent::RedrawRequested => {
            if has_state {
                actions.push(ShellAction::Render);
            }
            if has_window {
                actions.push(ShellAction::RequestRedraw);
            }
        },
        ShellEvent::Other => {},
    }
    assert(actions@ =~= scene_actions(has_state, has_window, event));
    actions
}

} // verus!

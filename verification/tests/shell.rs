use nodes::shell::{scene_event_actions, window_event_actions, ShellAction, ShellEvent};

#[test]
fn ignores_other_windows() {
    assert!(window_event_actions(false, true, true, ShellEvent::CloseRequested).is_empty());
}

#[test]
fn reacts_to_window_events() {
    assert_eq!(window_event_actions(true, false, true, ShellEvent::CloseRequested), vec![ShellAction::Exit]);
    assert_eq!(
        window_event_actions(true, true, true, ShellEvent::RedrawRequested),
        vec![ShellAction::RequestRedraw, ShellAction::Render]
    );
    assert_eq!(
        window_event_actions(true, false, true, ShellEvent::Resized { width: 800, height: 600 }),
        vec![ShellAction::ResizeSurface { width: 800, height: 600 }, ShellAction::RequestRedraw]
    );
    assert_eq!(
        window_event_actions(true, false, true, ShellEvent::Resized { width: 0, height: 600 }),
        vec![ShellAction::RequestRedraw]
    );
    assert_eq!(
        window_event_actions(true, false, false, ShellEvent::Resized { width: 8, height: 6 }),
        vec![ShellAction::RequestRedraw]
    );
    assert!(window_event_actions(true, false, true, ShellEvent::Other).is_empty());
}

#[test]
fn scene_window_reacts_to_events() {
    assert_eq!(scene_event_actions(true, true, ShellEvent::CloseRequested), vec![ShellAction::Exit]);
    assert_eq!(
        scene_event_actions(true, true, ShellEvent::Resized { width: 640, height: 480 }),
        vec![ShellAction::ResizeSurface { width: 640, height: 480 }]
    );
    assert!(scene_event_actions(true, true, ShellEvent::Resized { width: 640, height: 0 }).is_empty());
    assert!(scene_event_actions(false, true, ShellEvent::Resized { width: 640, height: 480 }).is_empty());
    assert_eq!(
        scene_event_actions(true, true, ShellEvent::RedrawRequested),
        vec![ShellAction::Render, ShellAction::RequestRedraw]
    );
    assert_eq!(scene_event_actions(false, true, ShellEvent::RedrawRequested), vec![ShellAction::RequestRedraw]);
    assert!(scene_event_actions(true, false, ShellEvent::Other).is_empty());
}

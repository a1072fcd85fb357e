use nodes::game::{GameCore, Renderer, UiState};
use nodes::platform::AssetError;

#[test]
fn counts_one_tick_per_update() {
    let mut core = GameCore::new();
    assert_eq!(core.tick(), 0);
    for expected in 1..=5u64 {
        core.update();
        assert_eq!(core.tick(), expected);
    }
}

#[test]
fn frame_hooks_change_nothing() {
    let core = GameCore::new();
    let mut renderer = Renderer::new();
    renderer.draw_frame(&core);
    assert_eq!(renderer, Renderer);
    let mut ui = UiState::new();
    ui.update(&core);
    assert_eq!(ui, UiState);
    assert_eq!(core.tick(), 0);
}

#[test]
fn asset_errors_keep_their_message() {
    let error = AssetError::new("missing assets/node_templates/ore_source.json");
    assert_eq!(error.message(), "missing assets/node_templates/ore_source.json");
    let owned = AssetError::new(String::from("denied"));
    assert_eq!(owned.message(), "denied");
    assert_eq!(owned.clone(), owned);
}

//! Tests for the UI state.

use lrle::ui::{Ui, UiResponse};

#[test]
fn test_ui_starts_visible() {
    let ui = Ui::new();
    assert!(ui.panel_visible);
}

#[test]
fn test_ui_toggle() {
    let mut ui = Ui::new();
    ui.handle_toggle(false);
    assert!(ui.panel_visible);
    ui.handle_toggle(true);
    assert!(!ui.panel_visible);
    ui.handle_toggle(true);
    assert!(ui.panel_visible);
}

#[test]
fn test_ui_response_default() {
    let response = UiResponse::default();
    assert!(!response.reset_camera);
}

//! State of the control-panel overlay and what it asks of the
//! application. Drawing the panel belongs to the windowing layer; the
//! state transitions live here.

use vstd::prelude::*;

verus! {

/// UI state.
pub struct Ui {
    /// Whether the side panel is visible.
    pub panel_visible: bool,
}

impl Ui {
    /// A UI with the panel shown.
    pub fn new() -> (r: Ui)
        ensures
            r.panel_visible,
    {
        Ui { panel_visible: true }
    }

    /// Applies one frame's toggle input: a press of the toggle key flips
    /// the panel's visibility, anything else leaves it alone.
    pub fn handle_toggle(&mut self, toggle_pressed: bool)
        ensures
            final(self).panel_visible == (old(self).panel_visible != toggle_pressed),
    {
        if toggle_pressed {
            self.panel_visible = !self.panel_visible;
        }
    }
}

impl Default for Ui {
    /// Same as [`Ui::new`].
    fn default() -> (r: Ui)
        ensures
            r.panel_visible,
    {
        Ui::new()
    }
}

/// What the UI asked the application to do this frame.
#[derive(Clone, Copy, Debug, PartialEq, Eq, Structural)]
pub struct UiResponse {
    /// The user pressed the reset-camera control.
    pub reset_camera: bool,
}

impl Default for UiResponse {
    /// A response asking for nothing.
    fn default() -> (r: UiResponse)
        ensures
            !r.reset_camera,
    {
        UiResponse { reset_camera: false }
    }
}

} // verus!

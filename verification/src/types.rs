use vstd::prelude::*;

verus! {

/// Where an element is pinned inside its parent.
#[derive(Clone, Copy, Debug, PartialEq, Eq, Structural)]
pub enum Anchor {
    TopLeft,
    TopCenter,
    TopRight,
    Center,
    BottomLeft,
    BottomCenter,
    BottomRight,
}

impl Default for Anchor {
    fn default() -> (r: Self)
        ensures
            r == Anchor::TopLeft,
    {
        Anchor::TopLeft
    }
}

#[derive(Clone, Copy, Debug, PartialEq, Eq, Structural)]
pub enum TextAlign {
    Left,
    Center,
    Right,
}

impl Default for TextAlign {
    fn default() -> (r: Self)
        ensures
            r == TextAlign::Left,
    {
        TextAlign::Left
    }
}

#[derive(Clone, Copy, Debug, PartialEq, Eq, Structural)]
pub enum TextValign {
    Top,
    Middle,
    Bottom,
}

impl Default for TextValign {
    fn default() -> (r: Self)
        ensures
            r == TextValign::Top,
    {
        TextValign::Top
    }
}

#[derive(Clone, Copy, Debug, PartialEq, Eq, Structural)]
pub enum GradientDirection {
    Horizontal,
    Vertical,
    Diagonal,
}

impl Default for GradientDirection {
    fn default() -> (r: Self)
        ensures
            r == GradientDirection::Horizontal,
    {
        GradientDirection::Horizontal
    }
}

#[derive(Clone, Copy, Debug, PartialEq, Eq, Structural)]
pub enum AnimationType {
    /// No animation (serialised as `None`).
    NoAnimation,
    PulseColor,
    Blink,
    Wave,
    Ripple,
    Typewriter,
    MatrixRain,
    Glitch,
}

impl Default for AnimationType {
    fn default() -> (r: Self)
        ensures
            r == AnimationType::NoAnimation,
    {
        AnimationType::NoAnimation
    }
}

/// What a UI layer draws.
#[derive(Clone, Copy, Debug, PartialEq, Eq, Structural)]
pub enum LayerKind {
    Fill,
    Border,
    Text,
}

/// Colours a UI layer takes on while hovered or pressed, when enabled.
#[derive(Clone, Copy, Debug, PartialEq, Eq)]
pub struct LayerStateOverride {
    pub enabled: bool,
    pub fg_color: [u8; 3],
    pub bg_color: [u8; 3],
}

impl Default for LayerStateOverride {
    /// Disabled, white on dark grey.
    fn default() -> (r: Self)
        ensures
            !r.enabled,
            r.fg_color == [255u8, 255u8, 255u8],
            r.bg_color == [50u8, 50u8, 50u8],
    {
        LayerStateOverride { enabled: false, fg_color: [255, 255, 255], bg_color: [50, 50, 50] }
    }
}

/// The editor the studio shows.
#[derive(Clone, Copy, Debug, PartialEq, Eq, Structural)]
pub enum EditorMode {
    UiDesigner,
    LevelEditor,
    ObjectEditor,
    TextureEditor,
}

/// Whether the studio redraws on every frame: while the frame counter
/// shows, while playing, and in the UI designer, whose scenes animate. The
/// other editors redraw on input and a few times a second.
pub fn needs_continuous_repaint(show_fps: bool, is_playing: bool, mode: EditorMode) -> (r: bool)
    ensures
        r == (show_fps || is_playing || mode == EditorMode::UiDesigner),
{
    show_fps || is_playing || mode == EditorMode::UiDesigner
}

/// The size of a runtime room.
#[derive(Clone, Copy, Debug, PartialEq, Eq, Structural)]
pub struct RoomDimensions {
    pub width: u32,
    pub length: u32,
    pub height: u32,
}

/// A runtime room's identity and size.
#[derive(Clone, Debug)]
pub struct RoomInfo {
    pub id: String,
    pub name: String,
    pub dimensions: RoomDimensions,
}

} // verus!

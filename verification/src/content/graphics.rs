use vstd::prelude::*;

verus! {

/// Display settings: the window resolution and whether it is fullscreen.
#[derive(Debug, Clone, Copy, PartialEq, Eq)]
pub struct GraphicsSettings {
    /// Width and height in pixels.
    pub resolution: (u32, u32),
    /// Whether the window covers the whole screen.
    pub fullscreen: bool,
}

impl Default for GraphicsSettings {
    /// 1920 by 1080, windowed.
    fn default() -> (r: Self)
        ensures
            r.resolution == (1920u32, 1080u32),
            !r.fullscreen,
    {
        GraphicsSettings { resolution: (1920, 1080), fullscreen: false }
    }
}

impl GraphicsSettings {
    /// Settings with the given resolution and fullscreen flag.
    pub fn new(resolution: (u32, u32), fullscreen: bool) -> (r: Self)
        ensures
            r.resolution == resolution,
            r.fullscreen == fullscreen,
    {
        GraphicsSettings { resolution, fullscreen }
    }
}

} // verus!

//! What the port draws over the world: the cockpit art, the HUD's readouts
//! and boxes, the briefing screen, and the sky's stars, in 8-bit indexed
//! colour.

pub mod camera;
pub mod cockpit;
pub mod hud;
pub mod brief;
pub mod level;
pub mod scene;
pub mod raster;

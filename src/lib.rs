//! Texture bookkeeping and pixel conversion for drawing an immediate-mode GUI
//! inside a 2D game engine's frame loop.
pub mod frame;
pub mod image;
pub mod painter;
pub mod textures;

pub use image::{Rgba, RgbaImage, rgba_bytes, write_patch};
pub use textures::{ImageDelta, TextureId, TextureStore, TexturesDelta};
pub use painter::{Painter, TextureError};
pub use frame::{frame_step, store_copied_text, FrameStep, SurfaceStatus};

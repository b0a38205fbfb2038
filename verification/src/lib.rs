//! An immediate mode layer for drawing in two dimensions.
//!
//! The images of the sprites are packed into one atlas (`assets`, `packing`,
//! `bitmap`). What is drawn in a frame is collected by kind and by layer or
//! stroke width, and can be given a color or a border after it was drawn
//! (`queue`, `buckets`, `records`, `layout`). What the graphics card needs to
//! draw a batch (`mesh`) is kept under the content hash of the batch, so that
//! a batch that does not change from frame to frame is built once (`cache`).
//!
//! Every number is an exact fraction (`maths`): the rendering backend rounds
//! once, when it hands the numbers to its graphics API.

pub mod assets;
pub mod bitmap;
pub mod buckets;
pub mod cache;
pub mod layout;
pub mod maths;
pub mod mesh;
pub mod packing;
pub mod queue;
pub mod records;
pub mod tools;

pub use assets::AssetsMgr;
pub use assets::AssetsMgrBuilder;
pub use assets::AssetsMgrError;
pub use assets::FontId;
pub use assets::Rect;
pub use assets::SpriteId;
pub use cache::VbCache;
pub use layout::LineLayout;
pub use layout::RectLayout;
pub use layout::SpriteLayout;
pub use layout::TextLayout;
pub use mesh::ColorVertex;
pub use mesh::LineVertex;
pub use mesh::TexVertex;
pub use queue::CmdQueue;
pub use queue::Colorize;
pub use queue::Contour;
pub use queue::LayoutTune;

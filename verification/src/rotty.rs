//! Styled text blocks, the cell grid they are painted into, and the
//! differential renderer that turns two grids into terminal commands.

pub mod block;
pub mod buffer;
pub mod render;
pub mod style;

pub use block::Block;
pub use block::Image;
pub use block::JoinDir;
pub use block::TextAlign;
pub use style::Color;

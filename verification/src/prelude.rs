pub use crate::canvas::Canvas;
pub use crate::config::Event;
pub use crate::config::RunResponse;
pub use crate::gesture::Gesture;
pub use crate::util::color_from_rgb;

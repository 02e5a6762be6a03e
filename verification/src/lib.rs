//! Parallel `apply` and `fold` over shaped, strided windows of `i64`.
//!
//! A large window is cut in two again and again, along the axis whose
//! neighbours lie farthest apart in storage, until the parts are small; the
//! parts are then worked on concurrently. A function that may not be shared
//! between workers is run by the caller alone.

pub mod apply;
pub mod capability;
pub mod fold;
pub mod index;
pub mod partition;
pub mod window;

pub use crate::apply::apply;
pub use crate::capability::Local;
pub use crate::capability::Shared;
pub use crate::fold::fold;
pub use crate::partition::choose_axis;
pub use crate::partition::plan;
pub use crate::partition::Step;
pub use crate::partition::SPLIT_SIZE;
pub use crate::window::Window;
pub use crate::window::WindowMut;

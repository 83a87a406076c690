//! Physical frame allocator for the early boot stage of a kernel.
//!
//! Frames are handed out from a list of available memory regions with a bump
//! pointer, skipping every frame that an occupied region covers. Freed frames
//! are recycled through a bounded stack. The region lists start in bounded
//! storage and move to growable storage once a heap exists.

pub mod area_frame_allocator;
pub mod frame;
pub mod laws;
pub mod static_array_stack;
pub mod vector_array;

pub use area_frame_allocator::{AllocatorView, AreaFrameAllocator};
pub use frame::{Frame, FrameRange, PhysicalMemoryArea, PAGE_SIZE};
pub use static_array_stack::StaticArrayStack;
pub use vector_array::VectorArray;

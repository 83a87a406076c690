//! Frames, frame ranges and memory region descriptors.

use vstd::prelude::*;

verus! {

/// The size in bytes of one physical frame.
pub const PAGE_SIZE: usize = 4096;

/// A bound strictly above every frame number that a region can reach: the last
/// byte of a region lies below `2 * usize::MAX`.
pub open spec fn frame_limit() -> int {
    usize::MAX as int / 2048 + 1
}

/// A physical memory frame, identified by its number.
#[derive(Clone, Copy, Debug, PartialEq, Eq, Structural)]
pub struct Frame {
    pub number: usize,
}

impl Frame {
    /// The frame that holds the byte at `addr`.
    pub fn containing_address(addr: usize) -> (r: Frame)
        ensures
            r.number == addr as int / PAGE_SIZE as int,
    {
        Frame { number: addr / PAGE_SIZE }
    }
}

/// An inclusive range of frames, `start` through `end`.
#[derive(Clone, Copy, Debug, PartialEq, Eq, Structural)]
pub struct FrameRange {
    pub start: Frame,
    pub end: Frame,
}

impl FrameRange {
    pub fn new(start: Frame, end: Frame) -> (r: FrameRange)
        ensures
            r == (FrameRange { start, end }),
    {
        FrameRange { start, end }
    }
}

/// A region of physical memory: its first byte, its size in bytes, and its
/// kind. Kind 1 is usable memory; any other kind is present but never handed
/// out.
#[derive(Clone, Copy, Debug, PartialEq, Eq, Structural)]
pub struct PhysicalMemoryArea {
    pub base_addr: usize,
    pub size_in_bytes: usize,
    pub typ: u32,
}

impl PhysicalMemoryArea {
    pub fn new(base_addr: usize, size_in_bytes: usize, typ: u32) -> (r: PhysicalMemoryArea)
        ensures
            r == (PhysicalMemoryArea { base_addr, size_in_bytes, typ }),
    {
        PhysicalMemoryArea { base_addr, size_in_bytes, typ }
    }

    /// The frame that holds the region's first byte.
    pub open spec fn first_frame(self) -> int {
        self.base_addr as int / PAGE_SIZE as int
    }

    /// The frame that holds the region's last byte (meaningful for a region of
    /// positive size).
    pub open spec fn last_frame(self) -> int {
        (self.base_addr + self.size_in_bytes - 1) / PAGE_SIZE as int
    }

    /// The region has positive size and frame `f` holds one of its bytes.
    pub open spec fn spans(self, f: int) -> bool {
        self.size_in_bytes > 0 && self.first_frame() <= f <= self.last_frame()
    }

    /// The region is usable memory of positive size.
    pub open spec fn is_usable(self) -> bool {
        self.typ == 1 && self.size_in_bytes > 0
    }

    pub fn start_frame(&self) -> (r: usize)
        ensures
            r == self.first_frame(),
    {
        Frame::containing_address(self.base_addr).number
    }

    pub fn end_frame(&self) -> (r: usize)
        requires
            self.size_in_bytes > 0,
        ensures
            r == self.last_frame(),
            r < frame_limit(),
    {
        let last: u128 = self.base_addr as u128 + self.size_in_bytes as u128 - 1;
        let r: u128 = last / (PAGE_SIZE as u128);
        assert(r < frame_limit()) by (nonlinear_arith)
            requires
                r == last / 4096,
                last <= 2 * usize::MAX - 1,
                usize::MAX >= 0,
        ;
        r as usize
    }

    pub fn contains_frame(&self, f: usize) -> (r: bool)
        ensures
            r == self.spans(f as int),
    {
        self.size_in_bytes > 0 && self.start_frame() <= f && f <= self.end_frame()
    }
}

} // verus!

use vstd::prelude::*;

verus! {

/// Keeps the text that the GUI copied during a frame, unless it copied
/// nothing, in which case the clipboard keeps what it held.
pub fn store_copied_text(clipboard: &mut String, copied: String)
    ensures
        final(clipboard)@ == (if copied@.len() == 0 {
            old(clipboard)@
        } else {
            copied@
        }),
{
    if !copied.as_str().is_empty() {
        *clipboard = copied;
    }
}

/// What came of asking the window surface for the texture of the next frame.
#[derive(Clone, Copy, Debug, PartialEq, Eq, Structural)]
pub enum SurfaceStatus {
    /// A texture to draw into was handed out.
    Acquired,
    /// No texture came in time.
    Timeout,
    /// The surface changed (a minimised window, for one) and must be set up again.
    Outdated,
    /// The swap chain was lost and must be made again.
    Lost,
    /// No memory was left for a new frame.
    OutOfMemory,
}

/// Whether the surface can be used again on a later frame after this status.
pub open spec fn is_recoverable(status: SurfaceStatus) -> bool {
    status != SurfaceStatus::OutOfMemory
}

/// What to do with a frame, given the surface's answer.
#[derive(Clone, Copy, Debug, PartialEq, Eq, Structural)]
pub enum FrameStep {
    /// Draw the frame.
    Draw,
    /// Drop the frame without a word: the condition passes by itself, and
    /// reporting it every frame would flood the log.
    Skip,
    /// Pass the surface's error on to the caller.
    Fail,
}

/// Decides what becomes of a frame: it is drawn on a texture that was handed
/// out, dropped silently on a condition that the surface recovers from, and
/// failed with the surface's error otherwise.
pub fn frame_step(status: SurfaceStatus) -> (r: FrameStep)
    ensures
        status == SurfaceStatus::Acquired ==> r == FrameStep::Draw,
        status != SurfaceStatus::Acquired && is_recoverable(status) ==> r == FrameStep::Skip,
        !is_recoverable(status) ==> r == FrameStep::Fail,
{
    match status {
        SurfaceStatus::Acquired => FrameStep::Draw,
        SurfaceStatus::Timeout | SurfaceStatus::Outdated | SurfaceStatus::Lost => FrameStep::Skip,
        SurfaceStatus::OutOfMemory => FrameStep::Fail,
    }
}

} // verus!

//! Decisions of the interactive viewer: which key asks for which capture,
//! when a capture may start, and when a frame may be drawn.
//!
//! The window event loop (in the application) performs the actions; a
//! capture runs on another thread and reports back when it is done.
use vstd::prelude::*;

verus! {

/// The keys the viewer reacts to for captures.
#[derive(Clone, Copy, Debug, PartialEq, Eq)]
pub enum CaptureKey {
    /// `P`: an 8K capture.
    P,
    /// `O`: a 16K capture.
    O,
    /// `I`: a 128K capture.
    I,
    /// Any other key.
    Other,
}

/// A capture the user asked for.
#[derive(Clone, Copy, Debug, PartialEq, Eq)]
pub struct CaptureRequest {
    pub width: u32,
    pub height: u32,
    /// Largest tile side to render at once.
    pub max_tile: u32,
    /// File the capture is saved to.
    pub file_name: &'static str,
}

/// The capture that a key press asks for: `P` 7680 x 4320, `O` 15360 x
/// 8640, `I` 122880 x 69120, all in tiles of at most 4096; other keys ask
/// for nothing.
pub fn capture_request(key: CaptureKey) -> (r: Option<CaptureRequest>)
    ensures
        key == CaptureKey::P ==> (r matches Some(c) && c.width == 7680 && c.height == 4320
            && c.max_tile == 4096 && c.file_name@ == "black_hole_8k.png"@),
        key == CaptureKey::O ==> (r matches Some(c) && c.width == 15360 && c.height == 8640
            && c.max_tile == 4096 && c.file_name@ == "black_hole_16k.png"@),
        key == CaptureKey::I ==> (r matches Some(c) && c.width == 122880 && c.height == 69120
            && c.max_tile == 4096 && c.file_name@ == "black_hole_128k.png"@),
        key == CaptureKey::Other ==> r is None,
{
    match key {
        CaptureKey::P => Some(
            CaptureRequest { width: 7680, height: 4320, max_tile: 4096, file_name: "black_hole_8k.png" },
        ),
        CaptureKey::O => Some(
            CaptureRequest { width: 15360, height: 8640, max_tile: 4096, file_name: "black_hole_16k.png" },
        ),
        CaptureKey::I => Some(
            CaptureRequest {
                width: 122880,
                height: 69120,
                max_tile: 4096,
                file_name: "black_hole_128k.png",
            },
        ),
        CaptureKey::Other => None,
    }
}

/// Size of the window surface for a window of `width` x `height`: each side
/// at least one pixel.
pub fn surface_extent(width: u32, height: u32) -> (r: (u32, u32))
    ensures
        r.0 == if width == 0 { 1 } else { width },
        r.1 == if height == 0 { 1 } else { height },
{
    (if width == 0 { 1 } else { width }, if height == 0 { 1 } else { height })
}

/// What happened in the event loop.
#[derive(Clone, Copy, Debug, PartialEq, Eq)]
pub enum ViewerEvent {
    /// A key that asks for a capture was pressed.
    CaptureKey(CaptureRequest),
    /// The capture thread reported its result.
    CaptureDone,
    /// The window asks for a frame.
    RedrawRequested,
    /// The event loop is about to wait; `frame_due` tells whether a frame
    /// interval has passed since the last frame.
    Idle { frame_due: bool },
}

/// What the event loop has to do.
#[derive(Clone, Copy, Debug, PartialEq, Eq)]
pub enum ViewerAction {
    /// Start the requested capture on a worker thread.
    StartCapture(CaptureRequest),
    /// A capture is already running; tell the user and do nothing.
    RejectCapture,
    /// Report the capture's result, restart the frame clock and ask for a redraw.
    ResumeRendering,
    /// Draw a frame.
    RenderFrame,
    /// Ask the window for a redraw.
    RequestRedraw,
    /// Nothing to do.
    Wait,
}

/// The viewer's capture state: whether a capture is running.
pub struct ViewerState {
    pub capturing: bool,
}

impl ViewerState {
    /// A viewer with no capture running.
    pub fn new() -> (r: ViewerState)
        ensures
            !r.capturing,
    {
        ViewerState { capturing: false }
    }

    /// Takes one event and returns the action for it.  At most one capture
    /// runs at a time, and no frame is drawn or requested while it runs.
    pub fn step(&mut self, event: ViewerEvent) -> (action: ViewerAction)
        ensures
            match event {
                ViewerEvent::CaptureKey(req) => if old(self).capturing {
                    action == ViewerAction::RejectCapture && final(self).capturing
                } else {
                    action == ViewerAction::StartCapture(req) && final(self).capturing
                },
                ViewerEvent::CaptureDone => action == ViewerAction::ResumeRendering
                    && !final(self).capturing,
                ViewerEvent::RedrawRequested => final(self).capturing == old(self).capturing
                    && action == if old(self).capturing {
                    ViewerAction::Wait
                } else {
                    ViewerAction::RenderFrame
                },
                ViewerEvent::Idle { frame_due } => final(self).capturing == old(self).capturing
                    && action == if !old(self).capturing && frame_due {
                    ViewerAction::RequestRedraw
                } else {
                    ViewerAction::Wait
                },
            },
    {
        match event {
            ViewerEvent::CaptureKey(req) => {
                if self.capturing {
                    ViewerAction::RejectCapture
                } else {
                    self.capturing = true;
                    ViewerAction::StartCapture(req)
                }
            },
            ViewerEvent::CaptureDone => {
                self.capturing = false;
                ViewerAction::ResumeRendering
            },
            ViewerEvent::RedrawRequested => {
                if self.capturing {
                    ViewerAction::Wait
                } else {
                    ViewerAction::RenderFrame
                }
            },
            ViewerEvent::Idle { frame_due } => {
                if !self.capturing && frame_due {
                    ViewerAction::RequestRedraw
                } else {
                    ViewerAction::Wait
                }
            },
        }
    }
}

} // verus!

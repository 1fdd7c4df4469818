use raytrace_tiles::matrix::transpose_4x4;
use raytrace_tiles::viewer::{
    capture_request, surface_extent, CaptureKey, CaptureRequest, ViewerAction, ViewerEvent,
    ViewerState,
};

#[test]
fn keys_map_to_captures() {
    assert_eq!(
        capture_request(CaptureKey::P),
        Some(CaptureRequest { width: 7680, height: 4320, max_tile: 4096, file_name: "black_hole_8k.png" })
    );
    assert_eq!(
        capture_request(CaptureKey::O),
        Some(CaptureRequest { width: 15360, height: 8640, max_tile: 4096, file_name: "black_hole_16k.png" })
    );
    assert_eq!(
        capture_request(CaptureKey::I),
        Some(CaptureRequest {
            width: 122880,
            height: 69120,
            max_tile: 4096,
            file_name: "black_hole_128k.png"
        })
    );
    assert_eq!(capture_request(CaptureKey::Other), None);
}

#[test]
fn only_one_capture_runs_at_a_time() {
    let req = capture_request(CaptureKey::P).unwrap();
    let mut v = ViewerState::new();
    assert_eq!(v.step(ViewerEvent::CaptureKey(req)), ViewerAction::StartCapture(req));
    assert!(v.capturing);
    assert_eq!(v.step(ViewerEvent::CaptureKey(req)), ViewerAction::RejectCapture);
    assert_eq!(v.step(ViewerEvent::CaptureDone), ViewerAction::ResumeRendering);
    assert!(!v.capturing);
    assert_eq!(v.step(ViewerEvent::CaptureKey(req)), ViewerAction::StartCapture(req));
}

#[test]
fn no_frames_while_capturing() {
    let req = capture_request(CaptureKey::O).unwrap();
    let mut v = ViewerState::new();
    assert_eq!(v.step(ViewerEvent::RedrawRequested), ViewerAction::RenderFrame);
    assert_eq!(v.step(ViewerEvent::Idle { frame_due: true }), ViewerAction::RequestRedraw);
    assert_eq!(v.step(ViewerEvent::Idle { frame_due: false }), ViewerAction::Wait);
    v.step(ViewerEvent::CaptureKey(req));
    assert_eq!(v.step(ViewerEvent::RedrawRequested), ViewerAction::Wait);
    assert_eq!(v.step(ViewerEvent::Idle { frame_due: true }), ViewerAction::Wait);
}

#[test]
fn surface_is_never_empty() {
    assert_eq!(surface_extent(0, 0), (1, 1));
    assert_eq!(surface_extent(1000, 0), (1000, 1));
    assert_eq!(surface_extent(640, 480), (640, 480));
}

#[test]
fn transpose_swaps_rows_and_columns() {
    let m = [
        [1.0f32, 2.0, 3.0, 4.0],
        [5.0, 6.0, 7.0, 8.0],
        [9.0, 10.0, 11.0, 12.0],
        [13.0, 14.0, 15.0, 16.0],
    ];
    let t = transpose_4x4(m);
    assert_eq!(t[0], [1.0, 5.0, 9.0, 13.0]);
    assert_eq!(t[3], [4.0, 8.0, 12.0, 16.0]);
    assert_eq!(transpose_4x4(t), m);
}

use ambilight::color::Rgb;
use ambilight::frame::Frame;
use ambilight::reducer::{EdgeColors, StripTopology};
use ambilight::session::{FrameError, FramePipeline};
use ambilight::wire::encode_frame;

fn rgb(r: u8, g: u8, b: u8) -> Rgb {
    Rgb { r, g, b }
}

#[test]
fn wire_single_led_per_edge() {
    let e = EdgeColors {
        bottom: vec![rgb(1, 2, 3)],
        right: vec![rgb(4, 5, 6)],
        top: vec![rgb(7, 8, 9)],
        left: vec![rgb(10, 11, 12)],
    };
    assert_eq!(encode_frame(&e), vec![b'A', b'd', b'a', 1, 2, 3, 4, 5, 6, 7, 8, 9, 10, 11, 12]);
}

#[test]
fn wire_reverses_right_and_top() {
    let e = EdgeColors {
        bottom: vec![rgb(1, 1, 1), rgb(2, 2, 2)],
        right: vec![rgb(3, 3, 3), rgb(4, 4, 4)],
        top: vec![rgb(5, 5, 5), rgb(6, 6, 6), rgb(7, 7, 7)],
        left: vec![rgb(8, 8, 8), rgb(9, 9, 9)],
    };
    assert_eq!(
        encode_frame(&e),
        vec![
            b'A', b'd', b'a', 1, 1, 1, 2, 2, 2, 4, 4, 4, 3, 3, 3, 7, 7, 7, 6, 6, 6, 5, 5, 5, 8, 8,
            8, 9, 9, 9
        ]
    );
}

#[test]
fn wire_empty_edges_is_header() {
    let e = EdgeColors { bottom: vec![], right: vec![], top: vec![], left: vec![] };
    assert_eq!(encode_frame(&e), b"Ada".to_vec());
}

#[test]
fn pipeline_frames_each_frame() {
    let t = StripTopology::new(2, 2, 1, 1).unwrap();
    let mut p = FramePipeline::new(t, false);
    // 2 x 2 frame, one pixel per cell: (0,0)=10, (1,0)=20, (0,1)=30, (1,1)=40 in red.
    let data: Vec<u8> = vec![10, 0, 0, 255, 20, 0, 0, 255, 30, 0, 0, 255, 40, 0, 0, 255];
    let f = Frame { data: &data, width: 2, height: 2, row_pitch: 8 };
    let bytes = p.on_frame(&f).unwrap();
    // bottom [30, 40], right [20, 40] reversed, top [10, 20] reversed, left [10, 30]
    assert_eq!(
        bytes,
        vec![b'A', b'd', b'a', 30, 0, 0, 40, 0, 0, 40, 0, 0, 20, 0, 0, 20, 0, 0, 10, 0, 0, 10, 0, 0, 30, 0, 0]
    );
    assert!(p.edges.top.is_empty() && p.edges.right.is_empty());
    // the next frame is processed on its own, with nothing carried over
    let again = p.on_frame(&f).unwrap();
    assert_eq!(again, bytes);
}

#[test]
fn pipeline_rejects_malformed_frame() {
    let t = StripTopology::standard();
    let mut p = FramePipeline::new(t, true);
    let data = vec![0u8; 100];
    let short = Frame { data: &data, width: 56, height: 36, row_pitch: 224 };
    assert_eq!(p.on_frame(&short), Err(FrameError::Malformed));
    let tiny_data = vec![0u8; 4 * 10 * 10];
    let tiny = Frame { data: &tiny_data, width: 10, height: 10, row_pitch: 40 };
    assert_eq!(p.on_frame(&tiny), Err(FrameError::Malformed));
}

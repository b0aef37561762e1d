use ambilight::color::{boost_saturation, Rgb};
use ambilight::frame::{band_average, Frame};
use ambilight::reducer::{led_color, reduce, EdgeColors, Side, StripTopology};

fn rgb(r: u8, g: u8, b: u8) -> Rgb {
    Rgb { r, g, b }
}

/// A frame of `width` x `height` pixels with `pad` bytes after each row,
/// colored by `color(x, y)`; alpha and padding bytes are 0xEE.
fn build_frame(width: usize, height: usize, pad: usize, color: impl Fn(usize, usize) -> Rgb) -> (Vec<u8>, usize) {
    let pitch = width * 4 + pad;
    let mut data = vec![0xEE_u8; pitch * height];
    for y in 0..height {
        for x in 0..width {
            let c = color(x, y);
            let k = y * pitch + x * 4;
            data[k] = c.r;
            data[k + 1] = c.g;
            data[k + 2] = c.b;
        }
    }
    (data, pitch)
}

#[test]
fn boost_raises_mid_channel() {
    let mut p = rgb(150, 10, 20);
    boost_saturation(&mut p);
    assert_eq!(p, rgb(190, 10, 20));
}

#[test]
fn boost_leaves_dark_channel() {
    let mut p = rgb(40, 10, 20);
    boost_saturation(&mut p);
    assert_eq!(p, rgb(40, 10, 20));
}

#[test]
fn boost_leaves_bright_channel() {
    let mut p = rgb(220, 10, 20);
    boost_saturation(&mut p);
    assert_eq!(p, rgb(220, 10, 20));
}

#[test]
fn boost_edges_of_range() {
    let mut a = rgb(50, 0, 0);
    boost_saturation(&mut a);
    assert_eq!(a, rgb(50, 0, 0));
    let mut b = rgb(0, 200, 0);
    boost_saturation(&mut b);
    assert_eq!(b, rgb(0, 240, 0));
    let mut c = rgb(0, 0, 51);
    boost_saturation(&mut c);
    assert_eq!(c, rgb(0, 0, 91));
}

#[test]
fn boost_ties_take_last_channel() {
    let mut p = rgb(100, 100, 100);
    boost_saturation(&mut p);
    assert_eq!(p, rgb(100, 100, 140));
    let mut q = rgb(120, 120, 3);
    boost_saturation(&mut q);
    assert_eq!(q, rgb(120, 160, 3));
}

#[test]
fn band_average_floors_the_mean() {
    // 2 x 1 band: red 1 and 2 -> mean 1.5 -> 1; green 10 and 13 -> 11.
    let (data, pitch) = build_frame(2, 1, 0, |x, _| if x == 0 { rgb(1, 10, 0) } else { rgb(2, 13, 255) });
    let f = Frame { data: &data, width: 2, height: 1, row_pitch: pitch };
    assert_eq!(band_average(&f, 0, 0, 2, 1), rgb(1, 11, 127));
}

#[test]
fn band_average_skips_row_padding() {
    let (data, pitch) = build_frame(2, 2, 8, |x, y| rgb((x + 2 * y) as u8 * 10, 0, 0));
    let f = Frame { data: &data, width: 2, height: 2, row_pitch: pitch };
    // values 0, 10, 20, 30 -> mean 15
    assert_eq!(band_average(&f, 0, 0, 2, 2), rgb(15, 0, 0));
    assert_eq!(band_average(&f, 1, 1, 1, 1), rgb(30, 0, 0));
}

#[test]
fn solid_frame_gives_solid_edges() {
    let c = rgb(12, 34, 56);
    let t = StripTopology::new(4, 4, 1, 2).unwrap();
    let (data, pitch) = build_frame(9, 10, 4, |_, _| c);
    let f = Frame { data: &data, width: 9, height: 10, row_pitch: pitch };
    let e = reduce(&f, &t, false);
    assert_eq!(e.top, vec![c; 4]);
    assert_eq!(e.bottom, vec![c; 4]);
    assert_eq!(e.left, vec![c; 4]);
    assert_eq!(e.right, vec![c; 4]);
}

#[test]
fn solid_frame_standard_layout_with_boost() {
    let c = rgb(150, 34, 56);
    let t = StripTopology::standard();
    let (data, pitch) = build_frame(56, 36, 0, |_, _| c);
    let f = Frame { data: &data, width: 56, height: 36, row_pitch: pitch };
    let e = reduce(&f, &t, true);
    let boosted = rgb(190, 34, 56);
    assert_eq!(e.top, vec![boosted; 28]);
    assert_eq!(e.bottom, vec![boosted; 28]);
    assert_eq!(e.left, vec![boosted; 18]);
    assert_eq!(e.right, vec![boosted; 18]);
}

#[test]
fn tagged_cells_keep_index_order() {
    // 4 x 4 grid of 2 x 2 pixel cells, one distinct color per cell.
    let t = StripTopology::new(4, 4, 1, 1).unwrap();
    let tag = |cx: usize, cy: usize| rgb((cx * 40) as u8, (cy * 40) as u8, (cx + 4 * cy) as u8);
    let (data, pitch) = build_frame(8, 8, 0, |x, y| tag(x / 2, y / 2));
    let f = Frame { data: &data, width: 8, height: 8, row_pitch: pitch };
    let e = reduce(&f, &t, false);
    for i in 0..4 {
        assert_eq!(e.top[i], tag(i, 0));
        assert_eq!(e.bottom[i], tag(i, 3));
        assert_eq!(e.left[i], tag(0, i));
        assert_eq!(e.right[i], tag(3, i));
    }
}

#[test]
fn oversampled_bands_average_their_cells() {
    // Top LEDs merge the first two cell rows; left LEDs the first two columns.
    let t = StripTopology::new(4, 4, 2, 2).unwrap();
    let tag = |cx: usize, cy: usize| rgb((cx * 10) as u8, (cy * 10) as u8, 0);
    let (data, pitch) = build_frame(4, 4, 0, |x, y| tag(x, y));
    let f = Frame { data: &data, width: 4, height: 4, row_pitch: pitch };
    assert_eq!(led_color(&f, &t, Side::Top, 1), rgb(10, 5, 0));
    assert_eq!(led_color(&f, &t, Side::Bottom, 2), rgb(20, 25, 0));
    assert_eq!(led_color(&f, &t, Side::Left, 3), rgb(5, 30, 0));
    assert_eq!(led_color(&f, &t, Side::Right, 0), rgb(25, 0, 0));
}

#[test]
fn remainder_pixels_are_ignored() {
    // 5 x 5 frame on a 2 x 2 grid: cells are 2 x 2, column 4 and row 4 unused.
    let t = StripTopology::new(2, 2, 1, 1).unwrap();
    let (data, pitch) = build_frame(5, 5, 0, |x, y| if x == 4 || y == 4 { rgb(255, 255, 255) } else { rgb(0, 0, 0) });
    let f = Frame { data: &data, width: 5, height: 5, row_pitch: pitch };
    let e = reduce(&f, &t, false);
    assert_eq!(e.top, vec![rgb(0, 0, 0); 2]);
    assert_eq!(e.right, vec![rgb(0, 0, 0); 2]);
}

#[test]
fn topology_rejects_overlapping_oversample() {
    assert!(StripTopology::new(3, 4, 2, 1).is_none());
    assert!(StripTopology::new(4, 3, 1, 2).is_none());
    assert!(StripTopology::new(4, 4, 0, 1).is_none());
    assert!(StripTopology::new(4, 4, 2, 2).is_some());
}

#[test]
fn topology_checks_frame_fit() {
    let t = StripTopology::new(4, 4, 1, 1).unwrap();
    let data = vec![0u8; 64];
    let small = Frame { data: &data, width: 3, height: 4, row_pitch: 12 };
    assert!(!t.check_fits(&small));
    let short = Frame { data: &data, width: 4, height: 5, row_pitch: 16 };
    assert!(!t.check_fits(&short));
    let ok = Frame { data: &data, width: 4, height: 4, row_pitch: 16 };
    assert!(t.check_fits(&ok));
    let narrow_pitch = Frame { data: &data, width: 4, height: 4, row_pitch: 15 };
    assert!(!narrow_pitch.check_well_formed());
}

#[test]
fn edge_buffers_release() {
    let t = StripTopology::standard();
    let mut e = EdgeColors::with_capacity(&t);
    e.top.push(rgb(1, 2, 3));
    e.left.push(rgb(1, 2, 3));
    e.release();
    assert!(e.top.is_empty() && e.bottom.is_empty() && e.left.is_empty() && e.right.is_empty());
}

#[test]
fn standard_layout_averages_two_tagged_cells() {
    // 56 x 36 frame: 2 x 2 pixel cells on the 28 x 18 grid, each cell its own color.
    let t = StripTopology::standard();
    let tag = |cx: usize, cy: usize| rgb((cx * 9) as u8, (cy * 14) as u8, ((cx + cy) % 7) as u8);
    let (data, pitch) = build_frame(56, 36, 4, |x, y| tag(x / 2, y / 2));
    let f = Frame { data: &data, width: 56, height: 36, row_pitch: pitch };
    let e = reduce(&f, &t, false);
    let m = |a: Rgb, b: Rgb| {
        rgb(
            ((a.r as u16 + b.r as u16) / 2) as u8,
            ((a.g as u16 + b.g as u16) / 2) as u8,
            ((a.b as u16 + b.b as u16) / 2) as u8,
        )
    };
    for i in 0..28 {
        assert_eq!(e.top[i], m(tag(i, 0), tag(i, 1)));
        assert_eq!(e.bottom[i], m(tag(i, 16), tag(i, 17)));
    }
    for j in 0..18 {
        assert_eq!(e.left[j], m(tag(0, j), tag(1, j)));
        assert_eq!(e.right[j], m(tag(26, j), tag(27, j)));
    }
}

use std::io::Cursor;

use ambilight::frame::Frame;
use ambilight::preview::{placeholder_image, preview_from_rgba, preview_image, PreviewImage, PreviewSlots};

fn picture(tag: u8) -> PreviewImage {
    PreviewImage { width: 1, height: 1, pixels: vec![tag, tag, tag, 255] }
}

#[test]
fn second_publish_replaces_first() {
    let mut slots = PreviewSlots::new();
    slots.open(11);
    slots.open(22);
    assert!(slots.publish(11, picture(1)));
    assert!(slots.publish(11, picture(2)));
    let got = slots.take(11).unwrap();
    assert_eq!(got.pixels, vec![2, 2, 2, 255]);
    assert!(slots.take(11).is_none());
}

#[test]
fn slots_are_independent_per_monitor() {
    let mut slots = PreviewSlots::new();
    slots.open(1);
    slots.open(2);
    slots.open(3);
    assert!(slots.publish(3, picture(7)));
    assert!(slots.take(1).is_none());
    assert!(slots.take(2).is_none());
    assert_eq!(slots.take(3).unwrap().pixels, vec![7, 7, 7, 255]);
}

#[test]
fn publish_to_missing_slot_is_refused() {
    let mut slots = PreviewSlots::new();
    slots.open(5);
    assert!(!slots.publish(6, picture(3)));
    assert!(slots.take(6).is_none());
    assert!(slots.take(5).is_none());
}

#[test]
fn empty_slot_yields_nothing() {
    let mut slots = PreviewSlots::new();
    slots.open(0);
    assert!(slots.take(0).is_none());
    assert!(slots.publish(0, picture(4)));
    assert!(slots.take(0).is_some());
    assert!(slots.take(0).is_none());
}

#[test]
fn reopening_keeps_pending_picture() {
    let mut slots = PreviewSlots::new();
    slots.open(9);
    assert!(slots.publish(9, picture(8)));
    slots.open(9);
    assert_eq!(slots.take(9).unwrap().pixels, vec![8, 8, 8, 255]);
}

#[test]
fn closing_one_slot_keeps_the_others() {
    let mut slots = PreviewSlots::new();
    slots.open(1);
    slots.open(2);
    slots.open(3);
    assert!(slots.publish(1, picture(1)));
    assert!(slots.publish(3, picture(3)));
    slots.close(2);
    assert!(!slots.publish(2, picture(2)));
    assert_eq!(slots.take(1).unwrap().pixels, vec![1, 1, 1, 255]);
    assert_eq!(slots.take(3).unwrap().pixels, vec![3, 3, 3, 255]);
    slots.close(1);
    assert!(slots.take(1).is_none());
    assert!(slots.publish(3, picture(4)));
}

#[test]
fn preview_drops_row_padding() {
    // 2 x 2 frame with 4 bytes of padding per row
    let data: Vec<u8> = vec![
        1, 2, 3, 4, 5, 6, 7, 8, 99, 99, 99, 99, //
        9, 10, 11, 12, 13, 14, 15, 16, 99, 99, 99, 99,
    ];
    let f = Frame { data: &data, width: 2, height: 2, row_pitch: 12 };
    let p = preview_image(&f);
    assert_eq!(p.width, 2);
    assert_eq!(p.height, 2);
    assert_eq!(p.pixels, (1..=16).collect::<Vec<u8>>());
}

#[test]
fn rgba_preview_checks_length() {
    assert!(preview_from_rgba(2, 1, vec![0; 8]).is_some());
    assert!(preview_from_rgba(2, 1, vec![0; 7]).is_none());
    assert!(preview_from_rgba(0, 0, vec![]).is_some());
}

#[test]
fn placeholder_decodes_jpeg() {
    let img = image::RgbImage::from_pixel(3, 2, image::Rgb([200, 100, 50]));
    let mut encoded = Cursor::new(Vec::new());
    image::DynamicImage::ImageRgb8(img).write_to(&mut encoded, image::ImageFormat::Jpeg).unwrap();
    let p = placeholder_image(encoded.get_ref()).unwrap();
    assert_eq!(p.width, 3);
    assert_eq!(p.height, 2);
    assert_eq!(p.pixels.len(), 24);
    assert_eq!(p.pixels[3], 255);
}

#[test]
fn placeholder_rejects_garbage() {
    assert!(placeholder_image(&[1, 2, 3, 4, 5]).is_none());
    assert!(placeholder_image(&[]).is_none());
}

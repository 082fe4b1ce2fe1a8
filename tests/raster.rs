use evoshader::{encode_image, Resolution};

const PNG_SIGNATURE: [u8; 8] = [137, 80, 78, 71, 13, 10, 26, 10];

#[test]
fn resolution_holds_its_dimensions() {
    let r = Resolution::new(10, 20);
    assert_eq!((r.0, r.1), (10, 20));
}

#[test]
fn test_encode() {
    let data: Vec<u8> = (0..10 * 10 * 3).map(|i| ((i as f32 / 300.0) * 255.0).floor() as u8).collect();
    let png = encode_image(&Resolution::new(10, 10), &data);
    assert_eq!(&png[..8], &PNG_SIGNATURE);
    assert_ne!(png, data);
}

#[test]
fn encode_image_ignores_bytes_past_the_image() {
    let pixels: Vec<u8> = (0..2 * 3 * 3).map(|i| (i * 13 % 256) as u8).collect();
    let exact = encode_image(&Resolution::new(2, 3), &pixels);
    let mut longer = pixels.clone();
    longer.extend_from_slice(&[1, 2, 3, 4]);
    assert_eq!(encode_image(&Resolution::new(2, 3), &longer), exact);
    let single = encode_image(&Resolution::new(1, 1), &[9, 8, 7, 6]);
    assert_eq!(single, encode_image(&Resolution::new(1, 1), &[9, 8, 7]));
    assert_eq!(&single[..8], &PNG_SIGNATURE);
}

#[test]
fn encode_image_depends_on_the_pixels() {
    let a = encode_image(&Resolution::new(1, 2), &[0, 0, 0, 255, 255, 255]);
    let b = encode_image(&Resolution::new(1, 2), &[255, 255, 255, 0, 0, 0]);
    let c = encode_image(&Resolution::new(2, 1), &[0, 0, 0, 255, 255, 255]);
    assert_ne!(a, b);
    assert_ne!(a, c);
}

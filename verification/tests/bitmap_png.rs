use trywin::bitmap::{rgba_bytes, swizzle_pixel, Bitmap};
use trywin::world::World;
use trywin::{Color, Error};

#[test]
fn swizzle_exchanges_red_and_blue_and_forces_alpha() {
    // raw 0x00RRGGBB capture words become 0xAABBGGRR pixels
    assert_eq!(swizzle_pixel(0x00112233), 0xff332211);
    assert_eq!(swizzle_pixel(0x00ff0000), 0xff0000ff);
    assert_eq!(swizzle_pixel(0x000000ff), 0xffff0000);
    assert_eq!(swizzle_pixel(0), 0xff000000);
    assert_eq!(swizzle_pixel(0x00ffffff), 0xffffffff);
}

#[test]
fn rgba_bytes_flattens_little_endian() {
    let v = vec![0x44332211u32, 0x88776655u32];
    assert_eq!(rgba_bytes(&v), vec![0x11, 0x22, 0x33, 0x44, 0x55, 0x66, 0x77, 0x88]);
}

#[test]
fn png_data_round_trips_through_a_decoder() {
    let bm = Bitmap { width: 2, height: 2, data: vec![0xff0000ff, 0xff00ff00, 0xffff0000, 0xff332211] };
    let bytes = bm.png_data().unwrap();
    // a real PNG stream comes back, not the input bytes
    assert_eq!(&bytes[..8], &[0x89, b'P', b'N', b'G', 0x0d, 0x0a, 0x1a, 0x0a]);
    let decoder = png::Decoder::new(std::io::Cursor::new(bytes));
    let mut reader = decoder.read_info().unwrap();
    let mut buf = vec![0u8; reader.output_buffer_size().unwrap()];
    let info = reader.next_frame(&mut buf).unwrap();
    assert_eq!(info.width, 2);
    assert_eq!(info.height, 2);
    assert_eq!(&buf[..info.buffer_size()], rgba_bytes(&bm.data).as_slice());
}

#[test]
fn png_data_refuses_degenerate_bitmaps() {
    let empty = Bitmap { width: 0, height: 0, data: vec![] };
    assert_eq!(empty.png_data(), Err(Error::UnsupportedBitmapFormat));
    let misshapen = Bitmap { width: 2, height: 2, data: vec![0; 3] };
    assert_eq!(misshapen.png_data(), Err(Error::UnsupportedBitmapFormat));
}

#[test]
fn snapshot_captures_background_pixels() {
    let mut w = World::new();
    let m = w.new_main().unwrap();
    w.bounds(m, None, Some((3, 2))).unwrap();
    w.background(m, Color(255, 0, 0, 255)).unwrap();
    let bm = w.snapshot(m).unwrap();
    assert_eq!((bm.width, bm.height), (3, 2));
    assert_eq!(bm.data, vec![0xff0000ff; 6]);
}

#[test]
fn snapshot_without_background_is_white() {
    let mut w = World::new();
    let m = w.new_main().unwrap();
    w.bounds(m, None, Some((1, 1))).unwrap();
    let bm = w.snapshot(m).unwrap();
    assert_eq!(bm.data, vec![0xffffffff]);
}

#[test]
fn snapshot_refuses_degenerate_surface() {
    let mut w = World::new();
    let m = w.new_main().unwrap();
    w.bounds(m, None, Some((0, 5))).unwrap();
    assert!(matches!(w.snapshot(m), Err(Error::UnsupportedBitmapFormat)));
}

use twobit::codec::{convert, encode, identify, pack_ids, EncodeError};
use twobit::raster::Image;
use twobit::palette::{build_palette, Palette, TooManyColors};
use twobit::pixel::Pixel;

fn red() -> Pixel {
    Pixel::new(255, 0, 0, 255)
}

fn green() -> Pixel {
    Pixel::new(0, 255, 0, 255)
}

fn blue() -> Pixel {
    Pixel::new(0, 0, 255, 255)
}

fn white() -> Pixel {
    Pixel::new(255, 255, 255, 255)
}

fn clear() -> Pixel {
    Pixel::transparent()
}

fn image(width: u32, height: u32, pixels: Vec<Pixel>) -> Image {
    Image::new(width, height, pixels).unwrap()
}

fn unpack(bytes: &[u8], n: usize) -> Vec<u8> {
    (0..n).map(|i| (bytes[i / 4] >> (2 * (i % 4))) & 3).collect()
}

#[test]
fn pack_order_first_pixel_lowest_bits() {
    assert_eq!(pack_ids(&vec![1, 2, 3, 0]), vec![0b00_11_10_01]);
}

#[test]
fn pack_partial_byte_zero_filled() {
    let out = pack_ids(&vec![2, 1, 0]);
    assert_eq!(out.len(), 1);
    assert_eq!(out[0] >> 6, 0);
    assert_eq!(out[0] & 0b11_1111, 0b00_01_10);
    assert_eq!(out, vec![0b0000_0110]);
}

#[test]
fn pack_keeps_low_two_bits() {
    assert_eq!(pack_ids(&vec![5, 6, 7, 8, 3]), vec![0b00_11_10_01, 0b0000_0011]);
}

#[test]
fn pack_empty() {
    assert_eq!(pack_ids(&vec![]), Vec::<u8>::new());
}

#[test]
fn single_opaque_pixel_is_six_bytes() {
    let out = convert(&image(1, 1, vec![Pixel::new(10, 20, 30, 255)])).unwrap();
    assert_eq!(out.len(), 6);
    assert_eq!(out, vec![1, 1, 10, 20, 30, 0b01]);
}

#[test]
fn empty_image_is_header_only() {
    let out = convert(&image(0, 0, vec![])).unwrap();
    assert_eq!(out, vec![0, 0]);
}

#[test]
fn transparent_image_has_no_color_table() {
    let out = convert(&image(2, 2, vec![clear(); 4])).unwrap();
    assert_eq!(out, vec![2, 2, 0]);
}

#[test]
fn transparent_id_is_zero_wherever_it_appears() {
    let img = image(3, 1, vec![red(), clear(), green()]);
    let palette = build_palette(&img).unwrap();
    assert_eq!(palette.lookup(&clear()), Some(0));
    assert_eq!(identify(&img, &palette), vec![1, 0, 2]);
    let out = convert(&img).unwrap();
    assert_eq!(out, vec![3, 1, 255, 0, 0, 0, 255, 0, 0b00_10_00_01]);
}

#[test]
fn ids_follow_first_appearance() {
    let img = image(2, 2, vec![blue(), red(), blue(), green()]);
    let palette = build_palette(&img).unwrap();
    assert_eq!(palette.len(), 4);
    assert_eq!(palette.color(0), Some(clear()));
    assert_eq!(palette.color(1), Some(blue()));
    assert_eq!(palette.color(2), Some(red()));
    assert_eq!(palette.color(3), Some(green()));
    assert_eq!(palette.color(4), None);
    assert_eq!(palette.lookup(&white()), None);
}

#[test]
fn four_colors_with_transparent_give_three_triples() {
    let img = image(2, 2, vec![clear(), red(), green(), blue()]);
    let out = convert(&img).unwrap();
    assert_eq!(out.len(), 2 + 9 + 1);
    assert_eq!(&out[2..11], &[255, 0, 0, 0, 255, 0, 0, 0, 255]);
    assert_eq!(out[11], 0b11_10_01_00);
}

#[test]
fn four_opaque_colors_overflow() {
    let img = image(4, 1, vec![red(), green(), blue(), white()]);
    assert_eq!(build_palette(&img).unwrap_err(), TooManyColors { x: 3, y: 0 });
    assert_eq!(convert(&img), Err(EncodeError::TooManyColors { x: 3, y: 0 }));
}

#[test]
fn fifth_color_reports_first_position() {
    let pixels = vec![clear(), red(), red(), green(), blue(), white()];
    let img = image(3, 2, pixels);
    assert_eq!(convert(&img), Err(EncodeError::TooManyColors { x: 2, y: 1 }));
}

#[test]
fn output_length_formula() {
    let pixels: Vec<Pixel> = (0..15).map(|i| if i % 3 == 0 { red() } else { green() }).collect();
    let img = image(5, 3, pixels);
    let out = convert(&img).unwrap();
    assert_eq!(out.len(), 2 + 3 * 2 + (15 + 3) / 4);
}

#[test]
fn identifiers_round_trip() {
    let pixels = vec![red(), clear(), green(), green(), red(), blue(), clear()];
    let img = image(7, 1, pixels);
    let palette = build_palette(&img).unwrap();
    let out = encode(&img, &palette).unwrap();
    let ids = identify(&img, &palette);
    assert_eq!(ids, vec![1, 0, 2, 2, 1, 3, 0]);
    assert_eq!(unpack(&out[2 + 9..], 7), ids);
}

#[test]
fn unknown_color_encodes_as_zero() {
    let palette = build_palette(&image(1, 1, vec![red()])).unwrap();
    let other = image(2, 1, vec![blue(), red()]);
    assert_eq!(encode(&other, &palette).unwrap(), vec![2, 1, 255, 0, 0, 0b01_00]);
}

#[test]
fn wide_image_is_refused() {
    let img = image(256, 1, vec![red(); 256]);
    assert_eq!(convert(&img), Err(EncodeError::DimensionOverflow { width: 256, height: 1 }));
    let palette = Palette::new();
    assert_eq!(encode(&img, &palette), Err(EncodeError::DimensionOverflow { width: 256, height: 1 }));
}

#[test]
fn colors_checked_before_size() {
    let mut pixels = vec![clear(); 300];
    pixels[1] = red();
    pixels[2] = green();
    pixels[3] = blue();
    pixels[4] = white();
    let img = image(1, 300, pixels);
    assert_eq!(convert(&img), Err(EncodeError::TooManyColors { x: 0, y: 4 }));
}

#[test]
fn tall_image_within_palette_is_refused() {
    let mut pixels = vec![clear(); 300];
    pixels[7] = red();
    let img = image(1, 300, pixels);
    assert_eq!(convert(&img), Err(EncodeError::DimensionOverflow { width: 1, height: 300 }));
}

#[test]
fn largest_image_is_accepted() {
    let out = convert(&image(255, 255, vec![red(); 255 * 255])).unwrap();
    assert_eq!(out.len(), 2 + 3 + (255 * 255 + 3) / 4);
    assert_eq!(out[5], 0b01_01_01_01);
    assert_eq!(*out.last().unwrap(), 0b00_00_00_01);
}

#[test]
fn image_needs_one_pixel_per_cell() {
    assert!(Image::new(2, 2, vec![red(); 3]).is_none());
    let img = Image::new(2, 1, vec![red(), green()]).unwrap();
    assert_eq!((img.width, img.height, img.pixels.len()), (2, 1, 2));
}

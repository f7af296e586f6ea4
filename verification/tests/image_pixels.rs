use tuna::image::{Color, Image, Palette};
use tuna::pixels::{image_from_rgba, image_from_samples, load_png, nearest_color, png_of_image, rgba_pixels, PixelLayout, PngError};

fn pixels_of(img: &Image) -> Vec<Vec<Color>> {
    (0..img.height()).map(|r| (0..img.width()).map(|c| img.get(c, r)).collect()).collect()
}

fn sample_image() -> Image {
    let mut img = Image::new(3, 2);
    img.set(0, 0, Color::C1);
    img.set(1, 0, Color::C2);
    img.set(2, 0, Color::C3);
    img.set(0, 1, Color::C4);
    img.set(2, 1, Color::Cf);
    img
}

#[test]
fn a_new_image_is_transparent() {
    let img = Image::new(4, 3);
    assert_eq!(img.width(), 4);
    assert_eq!(img.height(), 3);
    assert!(pixels_of(&img).iter().all(|row| row.iter().all(|&c| c == Color::C0)));
}

#[test]
fn flips_and_rotations() {
    let img = sample_image();
    let h = img.flip_horz();
    assert_eq!(
        pixels_of(&h),
        vec![vec![Color::C3, Color::C2, Color::C1], vec![Color::Cf, Color::C0, Color::C4]]
    );
    let v = img.flip_vert();
    assert_eq!(
        pixels_of(&v),
        vec![vec![Color::C4, Color::C0, Color::Cf], vec![Color::C1, Color::C2, Color::C3]]
    );
    let cw = img.rotate_cw();
    assert_eq!((cw.width(), cw.height()), (2, 3));
    assert_eq!(
        pixels_of(&cw),
        vec![vec![Color::C4, Color::C1], vec![Color::C0, Color::C2], vec![Color::Cf, Color::C3]]
    );
    let ccw = img.rotate_ccw();
    assert_eq!(
        pixels_of(&ccw),
        vec![vec![Color::C3, Color::Cf], vec![Color::C2, Color::C0], vec![Color::C1, Color::C4]]
    );
}

#[test]
fn flipping_twice_and_rotating_back_give_the_image_again() {
    let img = sample_image();
    assert_eq!(pixels_of(&img.flip_horz().flip_horz()), pixels_of(&img));
    assert_eq!(pixels_of(&img.flip_vert().flip_vert()), pixels_of(&img));
    assert_eq!(pixels_of(&img.rotate_cw().rotate_ccw()), pixels_of(&img));
    assert_eq!(pixels_of(&img.rotate_ccw().rotate_cw()), pixels_of(&img));
}

#[test]
fn cropping_keeps_the_top_left_corner_and_pads_with_transparency() {
    let img = sample_image();
    let small = img.crop(2, 1);
    assert_eq!(pixels_of(&small), vec![vec![Color::C1, Color::C2]]);
    let big = img.crop(4, 3);
    assert_eq!(
        pixels_of(&big),
        vec![
            vec![Color::C1, Color::C2, Color::C3, Color::C0],
            vec![Color::C4, Color::C0, Color::Cf, Color::C0],
            vec![Color::C0, Color::C0, Color::C0, Color::C0],
        ]
    );
}

#[test]
fn fill_rect_is_clipped_to_the_image() {
    let mut img = Image::new(3, 3);
    img.fill_rect(-1, 1, 3, 5, Color::C5);
    assert_eq!(
        pixels_of(&img),
        vec![
            vec![Color::C0, Color::C0, Color::C0],
            vec![Color::C5, Color::C5, Color::C0],
            vec![Color::C5, Color::C5, Color::C0],
        ]
    );
}

#[test]
fn drawing_skips_transparent_pixels() {
    let mut img = Image::new(3, 2);
    img.fill_rect(0, 0, 3, 2, Color::C7);
    let mut src = Image::new(2, 2);
    src.set(0, 0, Color::C9);
    img.draw(&src, 1, 0);
    assert_eq!(
        pixels_of(&img),
        vec![vec![Color::C7, Color::C9, Color::C7], vec![Color::C7, Color::C7, Color::C7]]
    );
}

#[test]
fn rgba_data_lists_each_pixels_palette_entry() {
    let mut img = Image::new(2, 1);
    img.set(0, 0, Color::C3);
    img.set(1, 0, Color::C0);
    let data = img.rgba_data(&Palette::default());
    assert_eq!(data, vec![255, 0, 0, 255, 0, 0, 0, 0]);
}

#[test]
fn samples_are_read_in_each_layout() {
    let rgb = vec![1, 2, 3, 4, 5, 6, 7];
    assert_eq!(rgba_pixels(PixelLayout::Rgb, &rgb), Some(vec![(1, 2, 3, 255), (4, 5, 6, 255)]));
    let rgba = vec![1, 2, 3, 4, 5, 6, 7, 8];
    assert_eq!(rgba_pixels(PixelLayout::Rgba, &rgba), Some(vec![(1, 2, 3, 4), (5, 6, 7, 8)]));
    let ga = vec![9, 100, 10, 200];
    assert_eq!(rgba_pixels(PixelLayout::GrayscaleAlpha, &ga), Some(vec![(9, 9, 9, 100), (10, 10, 10, 200)]));
    let g = vec![0, 128];
    assert_eq!(rgba_pixels(PixelLayout::Grayscale, &g), Some(vec![(0, 0, 0, 255), (128, 128, 128, 255)]));
    assert_eq!(rgba_pixels(PixelLayout::Indexed, &g), None);
}

#[test]
fn nearest_color_prefers_the_first_of_equally_near_entries() {
    let palette = Palette::default();
    assert_eq!(nearest_color(&palette, (250, 5, 5, 255)), Color::C3);
    assert_eq!(nearest_color(&palette, (0, 0, 0, 10)), Color::C0);
    assert_eq!(nearest_color(&palette, (130, 130, 130, 255)), Color::Ce);
    let mut twins = Vec::new();
    for _ in 0..16 {
        twins.push((10, 20, 30, 40));
    }
    let twins = Palette::from_entries(twins);
    assert_eq!(nearest_color(&twins, (0, 0, 0, 0)), Color::C0);
}

#[test]
fn an_image_is_read_back_from_its_rgba_data() {
    let img = sample_image();
    let palette = Palette::default();
    let data = img.rgba_data(&palette);
    let back = image_from_samples(&palette, img.width(), img.height(), PixelLayout::Rgba, &data).unwrap();
    assert_eq!(pixels_of(&back), pixels_of(&img));
    assert!(image_from_samples(&palette, 3, 2, PixelLayout::Indexed, &data).is_none());
}

#[test]
fn image_from_rgba_reads_rows_in_order() {
    let palette = Palette::default();
    let pixels = vec![(0, 0, 0, 255), (255, 255, 255, 255), (0, 0, 255, 255), (0, 0, 0, 0)];
    let img = image_from_rgba(&palette, 2, 2, &pixels);
    assert_eq!(pixels_of(&img), vec![vec![Color::C1, Color::Cf], vec![Color::C9, Color::C0]]);
}

fn encode(width: u32, height: u32, color: png::ColorType, data: &[u8], palette: Option<Vec<u8>>) -> Vec<u8> {
    let mut out = Vec::new();
    {
        let mut encoder = png::Encoder::new(&mut out, width, height);
        encoder.set_color(color);
        encoder.set_depth(png::BitDepth::Eight);
        if let Some(p) = palette {
            encoder.set_palette(p);
        }
        let mut writer = encoder.write_header().unwrap();
        writer.write_image_data(data).unwrap();
        writer.finish().unwrap();
    }
    out
}

#[test]
fn png_files_are_read_into_the_nearest_palette_colors() {
    let palette = Palette::default();
    let bytes = encode(2, 1, png::ColorType::Rgb, &[250, 0, 0, 0, 0, 250], None);
    let img = load_png(&palette, &bytes).unwrap();
    assert_eq!(pixels_of(&img), vec![vec![Color::C3, Color::C9]]);
    let gray = encode(1, 2, png::ColorType::GrayscaleAlpha, &[255, 255, 0, 0], None);
    let img = load_png(&palette, &gray).unwrap();
    assert_eq!(pixels_of(&img), vec![vec![Color::Cf], vec![Color::C0]]);
}

#[test]
fn png_errors() {
    let palette = Palette::default();
    assert_eq!(load_png(&palette, &vec![1, 2, 3]).err(), Some(PngError::Undecodable));
    let indexed = encode(1, 1, png::ColorType::Indexed, &[0], Some(vec![1, 2, 3]));
    assert_eq!(load_png(&palette, &indexed).err(), Some(PngError::UnsupportedLayout));
}

#[test]
fn an_image_written_as_png_reads_back() {
    let img = sample_image();
    let palette = Palette::default();
    let bytes = png_of_image(&img, &palette).unwrap();
    let back = load_png(&palette, &bytes).unwrap();
    assert_eq!(pixels_of(&back), pixels_of(&img));
}

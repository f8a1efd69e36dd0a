use image_processor::{
    apply_edge_detection, apply_grayscale, decode_payload, edge_detect, encode_payload, payload_of,
    ErrorKind, LumaGrid, Rgba, RgbaGrid,
};

const HEADER: &str = "data:image/png;base64,";

fn png_payload(img: &image::DynamicImage) -> String {
    let mut out = std::io::Cursor::new(Vec::new());
    img.write_to(&mut out, image::ImageOutputFormat::Png).unwrap();
    format!("{}{}", HEADER, base64::encode(out.into_inner()))
}

fn open_payload(payload: &str) -> image::DynamicImage {
    assert!(payload.starts_with(HEADER));
    let bytes = base64::decode(&payload[HEADER.len()..]).unwrap();
    image::load_from_memory(&bytes).unwrap()
}

fn gray_step_image() -> image::DynamicImage {
    let buf = image::ImageBuffer::from_fn(6, 5, |x, _y| image::Luma([if x < 3 { 20u8 } else { 220 }]));
    image::DynamicImage::ImageLuma8(buf)
}

#[test]
fn payload_of_strips_the_header() {
    assert_eq!(payload_of("data:image/png;base64,QUJD"), b"QUJD");
    assert_eq!(payload_of("QUJD"), b"QUJD");
    assert_eq!(payload_of("a,b,c"), b"b");
    assert_eq!(payload_of("a,"), b"");
    assert_eq!(payload_of(""), b"");
}

#[test]
fn invalid_base64_is_a_payload_error() {
    let e = decode_payload("data:image/png;base64,@@not base64@@").err().unwrap();
    assert_eq!(e.kind, ErrorKind::PayloadDecode);
    assert!(!e.detail.is_empty());
    let e = apply_edge_detection("%%%").err().unwrap();
    assert_eq!(e.kind, ErrorKind::PayloadDecode);
}

#[test]
fn bytes_that_are_no_image_are_an_image_error() {
    // "hello world" in base64
    let e = decode_payload("aGVsbG8gd29ybGQ=").err().unwrap();
    assert_eq!(e.kind, ErrorKind::ImageDecode);
    let e = apply_grayscale("data:text/plain;base64,aGVsbG8gd29ybGQ=").err().unwrap();
    assert_eq!(e.kind, ErrorKind::ImageDecode);
}

#[test]
fn decode_payload_reads_the_pixels() {
    let img = gray_step_image();
    let decoded = decode_payload(&png_payload(&img)).ok().unwrap();
    assert_eq!(decoded.image().to_luma8(), img.to_luma8());
}

#[test]
fn encoded_payload_round_trips() {
    let (w, h) = (4u32, 3u32);
    let mut pixels = Vec::new();
    for y in 0..h {
        for x in 0..w {
            pixels.push(Rgba {
                r: (x * 60) as u8,
                g: (y * 80) as u8,
                b: (x * y * 20) as u8,
                a: 255 - (x * 10) as u8,
            });
        }
    }
    let grid = RgbaGrid { width: w, height: h, pixels };
    let payload = encode_payload(&grid).ok().unwrap();
    assert!(payload.starts_with(HEADER));
    assert_ne!(payload.len(), HEADER.len());
    let decoded = decode_payload(&payload).ok().unwrap().image().to_rgba8();
    assert_eq!(decoded.dimensions(), (w, h));
    for y in 0..h {
        for x in 0..w {
            let p = grid.get(x, y);
            assert_eq!(decoded.get_pixel(x, y).0, [p.r, p.g, p.b, p.a]);
        }
    }
    assert_eq!(open_payload(&payload).to_rgba8(), decoded);
}

#[test]
fn empty_grid_cannot_be_encoded() {
    let grid = RgbaGrid { width: 0, height: 3, pixels: Vec::new() };
    let e = encode_payload(&grid).err().unwrap();
    assert_eq!(e.kind, ErrorKind::ImageEncode);
}

#[test]
fn float_image_gray_cannot_be_written() {
    let buf = image::ImageBuffer::from_fn(2, 2, |_x, _y| image::Rgb([0.5f32, 0.25, 0.75]));
    let img = image::DynamicImage::ImageRgb32F(buf);
    let mut out = std::io::Cursor::new(Vec::new());
    img.write_to(&mut out, image::ImageOutputFormat::OpenExr).unwrap();
    let payload = format!("{}{}", "data:image/x-exr;base64,", base64::encode(out.into_inner()));
    let e = apply_grayscale(&payload).err().unwrap();
    assert_eq!(e.kind, ErrorKind::ImageEncode);
}

#[test]
fn edge_detection_payload_matches_the_core() {
    let img = gray_step_image();
    let out = apply_edge_detection(&png_payload(&img)).ok().unwrap();
    let result = open_payload(&out).to_rgba8();
    let luma = img.to_luma8();
    let grid = LumaGrid::from_raw(6, 5, luma.into_raw()).unwrap();
    let expected = edge_detect(&grid);
    assert_eq!(result.dimensions(), (6, 5));
    for y in 0..5 {
        for x in 0..6 {
            let p = expected.get(x, y);
            assert_eq!(result.get_pixel(x, y).0, [p.r, p.g, p.b, p.a]);
        }
    }
    assert_eq!(result.get_pixel(2, 2).0, [255, 255, 255, 255]);
    assert_eq!(result.get_pixel(0, 0).0, [0, 0, 0, 255]);
}

#[test]
fn grayscale_payload_is_gray() {
    let buf = image::ImageBuffer::from_fn(3, 2, |x, y| image::Rgb([(x * 90) as u8, (y * 120) as u8, 40u8]));
    let img = image::DynamicImage::ImageRgb8(buf);
    let out = apply_grayscale(&png_payload(&img)).ok().unwrap();
    let result = open_payload(&out);
    assert_eq!(result.to_luma8(), img.grayscale().to_luma8());
    let rgb = result.to_rgb8();
    for p in rgb.pixels() {
        assert_eq!(p.0[0], p.0[1]);
        assert_eq!(p.0[1], p.0[2]);
    }
}

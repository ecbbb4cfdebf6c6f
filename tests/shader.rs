use duku::error::Error;
use duku::jpeg::jpeg_texture;
use duku::jpeg::load_jpeg;
use duku::jpeg::ColorSpace;
use duku::jpeg::DecodedJpeg;
use duku::jpeg::Format;
use duku::jpeg::PixelKind;
use duku::shader::desc;
use duku::shader::encode_u32;
use duku::shader::fragment_source;
use duku::shader::is_depth_fragment;
use duku::shader::shader_binary;
use duku::shader::title;
use duku::shader::vertex_source;

#[test]
fn encode_u32_is_big_endian() {
    assert_eq!(encode_u32(0x5a45ffff), [0x5a, 0x45, 0xff, 0xff]);
    assert_eq!(encode_u32(1), [0, 0, 0, 1]);
    assert_eq!(encode_u32(0x01020304), [1, 2, 3, 4]);
}

#[test]
fn shader_file_layout() {
    let bin = shader_binary(&[9, 9, 9], &[7], [1, 2, 3, 4]);
    assert_eq!(
        bin,
        vec![0x5a, 0x45, 0xff, 0xff, 1, 2, 3, 4, 0, 0, 0, 3, 0, 0, 0, 1, 9, 9, 9, 7]
    );
}

#[test]
fn titles_and_descriptions_are_colored() {
    assert_eq!(title("USAGE", true), "USAGE");
    assert_eq!(title("USAGE", false), "\x1B[97mUSAGE\x1B[0m");
    assert_eq!(desc("shows help", false), "\x1B[90mshows help\x1B[0m");
    assert_eq!(desc("shows help", true), "shows help");
}

#[test]
fn depth_fragments_write_no_color() {
    assert!(is_depth_fragment("void fragment() {}"));
    assert!(!is_depth_fragment("void fragment() { out_color = vec4(1.0); }"));
    assert!(is_depth_fragment(""));
    assert!(is_depth_fragment("out_colo"));
}

#[test]
fn stage_sources_wrap_user_code() {
    assert_eq!(
        vertex_source("OBJ", "VERT", "CODE"),
        "#version 450\nOBJ\nVERT\nCODE\nvoid main() { vertex(); }"
    );
    assert_eq!(
        fragment_source("OBJ", "COLOR", "DEPTH", "out_color = x;"),
        "#version 450\nOBJ\nCOLOR\nout_color = x;\nvoid main() { fragment(); }"
    );
    assert_eq!(
        fragment_source("OBJ", "COLOR", "DEPTH", "x"),
        "#version 450\nOBJ\nDEPTH\nx\nvoid main() { fragment(); }"
    );
}

#[test]
fn rgb_jpeg_maps_to_color_space() {
    let decoded = DecodedJpeg { pixels: vec![1, 2, 3], width: 1, height: 1, kind: PixelKind::Rgb };
    let t = jpeg_texture(decoded, ColorSpace::Linear).ok().unwrap();
    assert_eq!(t.format, Format::Rgb);
    assert_eq!(t.data, vec![1, 2, 3]);
    let decoded = DecodedJpeg { pixels: vec![1, 2, 3], width: 1, height: 1, kind: PixelKind::Rgb };
    assert_eq!(jpeg_texture(decoded, ColorSpace::Srgb).ok().unwrap().format, Format::Srgb);
}

#[test]
fn gray_jpeg_is_unsupported() {
    let decoded = DecodedJpeg { pixels: vec![1], width: 1, height: 1, kind: PixelKind::Luma };
    assert_eq!(jpeg_texture(decoded, ColorSpace::Srgb).err(), Some(Error::UnsupportedFormat));
}

#[test]
fn garbage_is_not_a_jpeg() {
    assert_eq!(load_jpeg(&[0, 1, 2, 3], ColorSpace::Srgb).err(), Some(Error::InvalidJpeg));
}

/// A 16 x 16 RGB baseline JPEG image.
const SMALL_JPEG: [u8; 543] = [
    0xff, 0xd8, 0xff, 0xe0, 0x00, 0x10, 0x4a, 0x46, 0x49, 0x46, 0x00, 0x01, 0x01, 0x01, 0x00, 0x01,
    0x00, 0x01, 0x00, 0x00, 0xff, 0xdb, 0x00, 0x43, 0x00, 0x03, 0x02, 0x02, 0x02, 0x02, 0x02, 0x03,
    0x02, 0x02, 0x02, 0x03, 0x03, 0x03, 0x03, 0x04, 0x06, 0x04, 0x04, 0x04, 0x04, 0x04, 0x08, 0x06,
    0x06, 0x05, 0x06, 0x09, 0x08, 0x0a, 0x0a, 0x09, 0x08, 0x09, 0x09, 0x0a, 0x0c, 0x0f, 0x0c, 0x0a,
    0x0b, 0x0e, 0x0b, 0x09, 0x09, 0x0d, 0x11, 0x0d, 0x0e, 0x0f, 0x10, 0x10, 0x11, 0x10, 0x0a, 0x0c,
    0x12, 0x13, 0x12, 0x10, 0x13, 0x0f, 0x10, 0x10, 0x10, 0xff, 0xdb, 0x00, 0x43, 0x01, 0x03, 0x03,
    0x03, 0x04, 0x03, 0x04, 0x08, 0x04, 0x04, 0x08, 0x10, 0x0b, 0x09, 0x0b, 0x10, 0x10, 0x10, 0x10,
    0x10, 0x10, 0x10, 0x10, 0x10, 0x10, 0x10, 0x10, 0x10, 0x10, 0x10, 0x10, 0x10, 0x10, 0x10, 0x10,
    0x10, 0x10, 0x10, 0x10, 0x10, 0x10, 0x10, 0x10, 0x10, 0x10, 0x10, 0x10, 0x10, 0x10, 0x10, 0x10,
    0x10, 0x10, 0x10, 0x10, 0x10, 0x10, 0x10, 0x10, 0x10, 0x10, 0x10, 0x10, 0x10, 0x10, 0xff, 0xc0,
    0x00, 0x11, 0x08, 0x00, 0x10, 0x00, 0x10, 0x03, 0x01, 0x22, 0x00, 0x02, 0x11, 0x01, 0x03, 0x11,
    0x01, 0xff, 0xc4, 0x00, 0x16, 0x00, 0x01, 0x01, 0x01, 0x00, 0x00, 0x00, 0x00, 0x00, 0x00, 0x00,
    0x00, 0x00, 0x00, 0x00, 0x00, 0x00, 0x07, 0x04, 0x05, 0xff, 0xc4, 0x00, 0x24, 0x10, 0x00, 0x01,
    0x04, 0x01, 0x04, 0x02, 0x02, 0x03, 0x00, 0x00, 0x00, 0x00, 0x00, 0x00, 0x00, 0x00, 0x01, 0x02,
    0x03, 0x04, 0x06, 0x05, 0x07, 0x08, 0x12, 0x13, 0x11, 0x22, 0x00, 0x14, 0x09, 0x31, 0x32, 0xff,
    0xc4, 0x00, 0x15, 0x01, 0x01, 0x01, 0x00, 0x00, 0x00, 0x00, 0x00, 0x00, 0x00, 0x00, 0x00, 0x00,
    0x00, 0x00, 0x00, 0x00, 0x00, 0x06, 0xff, 0xc4, 0x00, 0x23, 0x11, 0x00, 0x01, 0x02, 0x05, 0x03,
    0x05, 0x00, 0x00, 0x00, 0x00, 0x00, 0x00, 0x00, 0x00, 0x00, 0x00, 0x01, 0x02, 0x11, 0x03, 0x04,
    0x05, 0x06, 0x21, 0x00, 0x12, 0x31, 0x15, 0x16, 0x61, 0x81, 0xe1, 0xff, 0xda, 0x00, 0x0c, 0x03,
    0x01, 0x00, 0x02, 0x11, 0x03, 0x11, 0x00, 0x3f, 0x00, 0x14, 0xa6, 0xd2, 0x6a, 0x1b, 0x73, 0xc1,
    0xe6, 0x13, 0x12, 0xd4, 0x95, 0x1c, 0xf3, 0x11, 0x63, 0xe4, 0x25, 0x65, 0xbe, 0xba, 0x5a, 0xec,
    0x69, 0x45, 0x40, 0xb1, 0xe5, 0x20, 0xb2, 0x54, 0xa5, 0x1f, 0xd2, 0xca, 0xb8, 0xfa, 0xf2, 0x20,
    0xab, 0x96, 0x3d, 0x97, 0x6c, 0x93, 0x35, 0xe6, 0x9b, 0x77, 0xd7, 0xe6, 0x6d, 0xa7, 0x17, 0x81,
    0xa5, 0x57, 0x1c, 0x7f, 0x1c, 0xea, 0x71, 0xe2, 0x4b, 0x39, 0xd7, 0xe3, 0x22, 0x53, 0xf2, 0x1a,
    0x69, 0xde, 0xd4, 0x71, 0x4a, 0x38, 0xb4, 0x82, 0xe8, 0x4b, 0x89, 0x2a, 0x71, 0x69, 0x1e, 0xcd,
    0x2d, 0x21, 0x3b, 0xf1, 0xef, 0xb9, 0x1a, 0x74, 0xac, 0xee, 0xa1, 0x5a, 0x75, 0x8e, 0xd5, 0x48,
    0xac, 0x65, 0x5b, 0x85, 0x8b, 0x81, 0x85, 0x7b, 0x21, 0x29, 0x98, 0x67, 0xa9, 0x6b, 0x94, 0xb9,
    0x49, 0x65, 0x4f, 0xb9, 0xc8, 0x85, 0x29, 0x11, 0x4b, 0x81, 0x2a, 0xf0, 0x7a, 0xd9, 0xf2, 0x3c,
    0x80, 0x7e, 0x55, 0xbe, 0x0d, 0xf6, 0x62, 0xa1, 0x40, 0xcc, 0xe8, 0xe6, 0x9a, 0x3d, 0x5c, 0xb7,
    0x43, 0xb3, 0xd7, 0x7a, 0x65, 0x58, 0xb1, 0xd9, 0x51, 0x21, 0x88, 0xbf, 0x64, 0xb8, 0xd3, 0xf1,
    0xc3, 0x68, 0x04, 0x29, 0xc0, 0xd0, 0xfe, 0xbb, 0x3c, 0x02, 0xe0, 0x3c, 0x54, 0x07, 0xb4, 0xbd,
    0xd9, 0x7b, 0x54, 0xe6, 0x27, 0xfb, 0x6e, 0xdf, 0x94, 0x60, 0x14, 0x82, 0x62, 0x13, 0x8d, 0xb8,
    0x52, 0x98, 0x28, 0x37, 0x05, 0x89, 0x72, 0x79, 0x60, 0xe4, 0x32, 0x89, 0x6f, 0xc3, 0x82, 0x8e,
    0xa7, 0x52, 0x8c, 0xea, 0x20, 0x8d, 0xbe, 0x78, 0x19, 0x1f, 0x07, 0xad, 0x7f, 0xff, 0xd9,
];

#[test]
fn small_rgb_jpeg_decodes() {
    let t = load_jpeg(&SMALL_JPEG, ColorSpace::Linear).ok().unwrap();
    assert_eq!(t.width, 16);
    assert_eq!(t.height, 16);
    assert_eq!(t.format, Format::Rgb);
    assert_eq!(t.data.len(), 16 * 16 * 3);
    let s = load_jpeg(&SMALL_JPEG, ColorSpace::Srgb).ok().unwrap();
    assert_eq!(s.format, Format::Srgb);
}

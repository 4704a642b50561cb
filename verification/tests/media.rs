use nessemble::media::color::{isqrt, match_nes_color, palette_entry, two_bit_color};
use nessemble::media::png::{decode_png, decode_png_rgba, png_to_palette, png_to_tiles, Png, PngError};
use nessemble::media::rle::rle_encode;
use nessemble::media::wav::{wav_to_dpcm, WavError};
use std::io::Cursor;

fn png_bytes(w: u32, h: u32, f: impl Fn(u32, u32) -> [u8; 3]) -> Vec<u8> {
    let img = image::RgbImage::from_fn(w, h, |x, y| image::Rgb(f(x, y)));
    let mut buf = Vec::new();
    image::DynamicImage::ImageRgb8(img)
        .write_to(&mut Cursor::new(&mut buf), image::ImageFormat::Png)
        .unwrap();
    buf
}

#[test]
fn rle_splits_runs_from_literals() {
    assert_eq!(rle_encode(&[1, 2, 2, 2, 2, 3, 4]), vec![0x81, 1, 4, 2, 0x82, 3, 4, 0xFF]);
    assert_eq!(rle_encode(&[7, 7, 8]), vec![0x83, 7, 7, 8, 0xFF]);
    assert_eq!(rle_encode(&[]), vec![0xFF]);
}

#[test]
fn rle_splits_long_runs_into_maximal_chunks() {
    assert_eq!(rle_encode(&[5; 300]), vec![0x7F, 5, 0x7F, 5, 46, 5, 0xFF]);
}

#[test]
fn two_bit_gray_levels() {
    assert_eq!(two_bit_color(0, 0, 0), 0);
    assert_eq!(two_bit_color(0x55, 0x55, 0x55), 1);
    assert_eq!(two_bit_color(0xAA, 0xAA, 0xAA), 2);
    assert_eq!(two_bit_color(255, 255, 255), 3);
    assert_eq!(two_bit_color(0x2A, 0x2A, 0x2A), 0);
}

#[test]
fn nes_colors_match_the_nearest_entry() {
    assert_eq!(match_nes_color(255, 255, 255), 0x30);
    assert_eq!(match_nes_color(0, 0, 0), 0x0F);
    assert_eq!(match_nes_color(0x00, 0x00, 0xFC), 0x01);
    assert_eq!(palette_entry(0), 0x7C7C7C);
    assert_eq!(isqrt(0), 0);
    assert_eq!(isqrt(26), 5);
    assert_eq!(isqrt(0x100000), 1024);
}

#[test]
fn a_png_decodes_to_its_pixels() {
    let bytes = png_bytes(2, 1, |x, _| if x == 0 { [1, 2, 3] } else { [4, 5, 6] });
    let png = decode_png(&bytes).unwrap();
    assert_eq!((png.width, png.height), (2, 1));
    assert_eq!(png.rgb, vec![1, 2, 3, 4, 5, 6]);
    let rgba = decode_png_rgba(&bytes).unwrap();
    assert_eq!(rgba.rgba, vec![1, 2, 3, 255, 4, 5, 6, 255]);
    assert_eq!(decode_png(b"not a png").err(), Some(PngError));
}

#[test]
fn tiles_are_two_bitplanes_per_tile() {
    let white = Png { width: 8, height: 8, rgb: vec![255; 8 * 8 * 3] };
    assert_eq!(png_to_tiles(&white, 0, None), vec![0xFF; 16]);
    let bytes = png_bytes(16, 8, |x, _| if x < 8 { [0, 0, 0] } else { [0x55, 0x55, 0x55] });
    let png = decode_png(&bytes).unwrap();
    let tiles = png_to_tiles(&png, 0, None);
    assert_eq!(tiles.len(), 32);
    assert_eq!(&tiles[..16], &[0u8; 16]);
    assert_eq!(&tiles[16..24], &[0xFFu8; 8]);
    assert_eq!(&tiles[24..], &[0u8; 8]);
    assert_eq!(png_to_tiles(&png, 1, None), tiles[16..].to_vec());
    assert_eq!(png_to_tiles(&png, 0, Some(1)), tiles[..16].to_vec());
    assert!(png_to_tiles(&png, 2, None).is_empty());
}

#[test]
fn a_palette_keeps_changes_up_to_four() {
    let png = Png {
        width: 6,
        height: 1,
        rgb: vec![255, 255, 255, 255, 255, 255, 0, 0, 0, 0, 0, 0xFC, 0xBC, 0xBC, 0xBC, 0, 0, 0],
    };
    assert_eq!(png_to_palette(&png), vec![0x30, 0x0F, 0x01, 0x10]);
}

fn wav(samples: &[u8], channels: u16) -> Vec<u8> {
    let mut body = b"WAVE".to_vec();
    body.extend_from_slice(b"fmt ");
    body.extend_from_slice(&16u32.to_le_bytes());
    body.extend_from_slice(&1u16.to_le_bytes());
    body.extend_from_slice(&channels.to_le_bytes());
    body.extend_from_slice(&8000u32.to_le_bytes());
    body.extend_from_slice(&8000u32.to_le_bytes());
    body.extend_from_slice(&1u16.to_le_bytes());
    body.extend_from_slice(&8u16.to_le_bytes());
    body.extend_from_slice(b"data");
    body.extend_from_slice(&(samples.len() as u32).to_le_bytes());
    body.extend_from_slice(samples);
    let mut out = b"RIFF".to_vec();
    out.extend_from_slice(&(body.len() as u32).to_le_bytes());
    out.extend_from_slice(&body);
    out
}

#[test]
fn wav_encodes_to_delta_bits() {
    let mut samples = vec![255u8; 4];
    samples.extend_from_slice(&[0; 4]);
    samples.extend_from_slice(&[128; 8]);
    assert_eq!(wav_to_dpcm(&wav(&samples, 1), 20), Ok(vec![15, 85]));
}

#[test]
fn wav_errors() {
    assert_eq!(wav_to_dpcm(b"RIFF", 20), Err(WavError::ShortRead));
    assert_eq!(wav_to_dpcm(b"RIFX\0\0\0\0WAVE", 20), Err(WavError::NotWav));
    assert_eq!(wav_to_dpcm(&wav(&[1, 2], 2), 20), Err(WavError::NotMono));
    assert_eq!(wav_to_dpcm(b"RIFF\0\0\0\0WAVE", 20), Ok(vec![]));
}

fn rle_decode(st: &[u8]) -> Vec<u8> {
    let mut out = Vec::new();
    let mut i = 0;
    while i < st.len() && st[i] != 0xFF {
        let h = st[i];
        if h < 0x80 {
            out.extend(std::iter::repeat(st[i + 1]).take(h as usize));
            i += 2;
        } else {
            let n = (h - 0x80) as usize;
            out.extend_from_slice(&st[i + 1..i + 1 + n]);
            i += 1 + n;
        }
    }
    out
}

#[test]
fn rle_round_trips_when_nothing_is_dropped() {
    let mut data = vec![1u8, 2, 3, 3, 3, 3, 9, 9, 4];
    data.extend(std::iter::repeat(7u8).take(300));
    data.extend([5, 6, 5, 6]);
    assert_eq!(rle_decode(&rle_encode(&data)), data);
    assert_eq!(rle_decode(&rle_encode(&[])), Vec::<u8>::new());
    // 126 bytes of alternating short runs: the short run that finds a full
    // buffer is dropped, so the round trip loses it.
    let long: Vec<u8> = (0..128u32).map(|i| (i % 2) as u8).collect();
    assert_ne!(rle_decode(&rle_encode(&long)), long);
}

#[test]
fn zero_bit_samples_give_no_bytes() {
    let mut b: Vec<u8> = b"RIFF\0\0\0\0WAVEfmt ".to_vec();
    b.extend_from_slice(&16u32.to_le_bytes());
    b.extend_from_slice(&[1, 0, 1, 0, 0x44, 0xAC, 0, 0, 0, 0, 0, 0, 1, 0, 0, 0]);
    b.extend_from_slice(b"data");
    b.extend_from_slice(&2u32.to_le_bytes());
    b.extend_from_slice(&[7, 9]);
    assert_eq!(wav_to_dpcm(&b, 20), Ok(vec![]));
}

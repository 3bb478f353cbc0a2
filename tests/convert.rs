use record_screen::convert::argb_to_i420;

fn solid(width: usize, height: usize, bgra: [u8; 4]) -> Vec<u8> {
    let mut v = Vec::new();
    for _ in 0..width * height {
        v.extend_from_slice(&bgra);
    }
    v
}

fn i420_size(width: usize, height: usize) -> usize {
    width * height + 2 * ((width + 1) / 2) * ((height + 1) / 2)
}

#[test]
fn solid_red_four_by_two() {
    let src = solid(4, 2, [0, 0, 255, 255]);
    let mut dest = Vec::new();
    argb_to_i420(4, 2, 16, &src, &mut dest);
    assert_eq!(dest.len(), 8 + 2 * 2);
    assert_eq!(&dest[..8], &[76u8; 8]);
    assert_eq!(&dest[8..10], &[84u8, 84]);
    assert_eq!(&dest[10..12], &[255u8, 255]);
}

#[test]
fn planar_size_for_many_geometries() {
    for &(w, h) in &[(0usize, 0usize), (1, 1), (2, 2), (3, 3), (4, 2), (5, 7), (16, 9), (1, 6)] {
        let src = solid(w, h, [10, 20, 30, 255]);
        let mut dest = Vec::new();
        argb_to_i420(w, h, 4 * w, &src, &mut dest);
        assert_eq!(dest.len(), i420_size(w, h));
    }
}

#[test]
fn white_black_green_blue_pixels() {
    // one pixel each; every block holds a single pixel
    let cases: [([u8; 4], [u8; 3]); 4] = [
        ([255, 255, 255, 255], [255, 128, 128]),
        ([0, 0, 0, 255], [0, 128, 128]),
        ([0, 255, 0, 255], [149, 43, 21]),
        ([255, 0, 0, 255], [29, 255, 107]),
    ];
    for (bgra, yuv) in cases.iter() {
        let mut dest = Vec::new();
        argb_to_i420(1, 1, 4, bgra, &mut dest);
        assert_eq!(dest, yuv.to_vec());
    }
}

#[test]
fn chroma_is_block_mean_with_odd_width() {
    // blue, black, white in one row: the first block averages two pixels,
    // the second covers the single pixel left at the edge
    let src = vec![255, 0, 0, 255, 0, 0, 0, 255, 255, 255, 255, 255];
    let mut dest = Vec::new();
    argb_to_i420(3, 1, 12, &src, &mut dest);
    assert_eq!(dest, vec![29, 0, 255, 191, 128, 117, 128]);
}

#[test]
fn chroma_mean_over_full_block() {
    // red, green / blue, white: U = (84 + 43 + 255 + 128) / 4, V = (255 + 21 + 107 + 128) / 4
    let src = vec![0, 0, 255, 255, 0, 255, 0, 255, 255, 0, 0, 255, 255, 255, 255, 255];
    let mut dest = Vec::new();
    argb_to_i420(2, 2, 8, &src, &mut dest);
    assert_eq!(dest, vec![76, 149, 29, 255, 127, 127]);
}

#[test]
fn row_padding_is_skipped() {
    // rows of two pixels, each followed by eight bytes of padding
    let mut src = Vec::new();
    for _ in 0..2 {
        src.extend_from_slice(&[0, 0, 255, 255, 0, 0, 255, 255]);
        src.extend_from_slice(&[9, 9, 9, 9, 9, 9, 9, 9]);
    }
    let mut dest = Vec::new();
    argb_to_i420(2, 2, 16, &src, &mut dest);
    assert_eq!(dest, vec![76, 76, 76, 76, 84, 255]);
}

#[test]
fn output_buffer_is_overwritten() {
    let mut dest = vec![1u8; 100];
    let src = solid(2, 2, [0, 0, 0, 255]);
    argb_to_i420(2, 2, 8, &src, &mut dest);
    assert_eq!(dest, vec![0, 0, 0, 0, 128, 128]);
    let src = solid(2, 2, [255, 255, 255, 255]);
    argb_to_i420(2, 2, 8, &src, &mut dest);
    assert_eq!(dest, vec![255, 255, 255, 255, 128, 128]);
}

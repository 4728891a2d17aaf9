use snaking_qr::geometry::{grid_size, image_size, required_cells};
use snaking_qr::packer::{get_chunk_from_color, get_color_chunk, payload_is_sentinel_free, stream_byte, SENTINEL};
use snaking_qr::raster::Raster;
use snaking_qr::renderer::{create_snaking_qr_grid, draw_rectangle};
use snaking_qr::sampler::decode_snaking_qr_grid;
use snaking_qr::traversal::{traversal_cell, traversal_coordinates};
use snaking_qr::CodecError;

#[test]
fn round_trip_simple_payload() {
    let payload = b"AB";
    let img = create_snaking_qr_grid(payload, 2).unwrap();
    let decoded = decode_snaking_qr_grid(&img, 2).unwrap();
    assert_eq!(decoded, payload.to_vec());
}

#[test]
fn round_trip_many_lengths_and_cell_sizes() {
    let base: Vec<u8> = (0u8..=255u8).filter(|b| *b != SENTINEL).collect();
    for len in [0usize, 1, 2, 3, 4, 5, 8, 9, 10, 31, 100, 255] {
        for cell in [1u32, 2, 3, 7] {
            let payload: Vec<u8> = base.iter().cycle().take(len).cloned().collect();
            let img = create_snaking_qr_grid(&payload, cell).unwrap();
            let decoded = decode_snaking_qr_grid(&img, cell).unwrap();
            assert_eq!(decoded, payload, "len {} cell {}", len, cell);
        }
    }
}

#[test]
fn concrete_scenario_two_bytes_cell_two() {
    // payload "AB", cell size 2: required cells 5, grid side 3, image 6x6.
    assert_eq!(required_cells(2), 5);
    assert_eq!(grid_size(2), 3);
    assert_eq!(image_size(2, 2), 6);
    let img = create_snaking_qr_grid(b"AB", 2).unwrap();
    assert_eq!(img.width(), 6);
    assert_eq!(img.height(), 6);
    // The first visited cell is (2, 2); it holds ('A', 'B', sentinel).
    assert_eq!(img.pixel(4, 4), (b'A', b'B', SENTINEL));
    let decoded = decode_snaking_qr_grid(&img, 2).unwrap();
    assert_eq!(decoded, b"AB".to_vec());
}

#[test]
fn empty_payload_cell_one() {
    // payload "", cell size 1: required cells 4, grid side 2, image 2x2.
    assert_eq!(required_cells(0), 4);
    assert_eq!(grid_size(0), 2);
    assert_eq!(image_size(0, 1), 2);
    let img = create_snaking_qr_grid(b"", 1).unwrap();
    assert_eq!(img.width(), 2);
    assert_eq!(img.height(), 2);
    let decoded = decode_snaking_qr_grid(&img, 1).unwrap();
    assert_eq!(decoded, Vec::<u8>::new());
}

#[test]
fn grid_size_is_monotonic() {
    let mut last = 0usize;
    for len in 0usize..200 {
        let g = grid_size(len);
        assert!(g >= last, "grid size shrank at length {}", len);
        assert!(g >= 2);
        last = g;
    }
}

#[test]
fn marker_cells_are_fixed() {
    for payload in [&b""[..], &b"x"[..], &b"hello world"[..], &[1u8, 2, 3, 4, 5, 6, 7][..]] {
        let cell = 3u32;
        let img = create_snaking_qr_grid(payload, cell).unwrap();
        let side = img.width();
        // Top-left marker: green. Top-right: red. Bottom-left: yellow.
        assert_eq!(img.pixel(0, 0), (0, 255, 0));
        assert_eq!(img.pixel(side - 1, 0), (255, 0, 0));
        assert_eq!(img.pixel(0, side - 1), (255, 255, 0));
    }
}

#[test]
fn traversal_covers_grid_once() {
    for grid in 1usize..=6 {
        let coords = traversal_coordinates(grid);
        assert_eq!(coords.len(), grid * grid);
        let mut seen = vec![false; grid * grid];
        for (row, col) in &coords {
            assert!(*row < grid && *col < grid);
            assert!(!seen[row * grid + col], "cell visited twice");
            seen[row * grid + col] = true;
        }
    }
}

#[test]
fn traversal_order_is_boustrophedon_from_bottom() {
    let coords = traversal_coordinates(3);
    let expected: Vec<(usize, usize)> = vec![
        (2, 2),
        (2, 1),
        (2, 0),
        (1, 0),
        (1, 1),
        (1, 2),
        (0, 2),
        (0, 1),
        (0, 0),
    ];
    assert_eq!(coords, expected);
    assert_eq!(traversal_cell(3, 0), (2, 2));
    assert_eq!(traversal_cell(3, 5), (1, 2));
}

#[test]
fn sentinel_ends_decoding_immediately() {
    // Hand-built 3x3 image with cell size 1. Non-marker cells in traversal
    // order are (2,2), (2,1), (1,0), (1,1), (1,2), (0,1).
    let mut img = Raster::new(3, 3);
    img.set_pixel(2, 2, (10, 20, 30));
    img.set_pixel(1, 2, (40, SENTINEL, 99));
    img.set_pixel(0, 1, (7, 7, 7));
    let decoded = decode_snaking_qr_grid(&img, 1).unwrap();
    assert_eq!(decoded, vec![10, 20, 30, 40]);
}

#[test]
fn decode_without_sentinel_reads_everything() {
    let mut img = Raster::new(2, 2);
    img.set_pixel(1, 1, (1, 2, 3));
    let decoded = decode_snaking_qr_grid(&img, 1).unwrap();
    assert_eq!(decoded, vec![1, 2, 3]);
}

#[test]
fn zero_cell_size_is_rejected() {
    assert!(matches!(create_snaking_qr_grid(b"abc", 0), Err(CodecError::ZeroCellSize)));
    let img = Raster::new(4, 4);
    assert_eq!(decode_snaking_qr_grid(&img, 0), Err(CodecError::ZeroCellSize));
}

#[test]
fn sentinel_in_payload_is_rejected() {
    let payload = [b'a', SENTINEL, b'b'];
    assert!(matches!(create_snaking_qr_grid(&payload, 1), Err(CodecError::SentinelInPayload)));
}

#[test]
fn misaligned_width_is_rejected() {
    let img = Raster::new(5, 5);
    assert_eq!(decode_snaking_qr_grid(&img, 2), Err(CodecError::MisalignedImageWidth));
}

#[test]
fn non_square_image_is_rejected() {
    let img = Raster::new(4, 6);
    assert_eq!(decode_snaking_qr_grid(&img, 2), Err(CodecError::NonSquareImage));
}

#[test]
fn color_chunks_pad_with_sentinel() {
    assert_eq!(get_color_chunk(b"AB", 0), (b'A', b'B', SENTINEL));
    assert_eq!(get_color_chunk(b"ABCD", 3), (b'D', SENTINEL, SENTINEL));
    assert_eq!(get_color_chunk(b"", 0), (SENTINEL, SENTINEL, SENTINEL));
    assert_eq!(stream_byte(b"xyz", 1), b'y');
    assert_eq!(stream_byte(b"xyz", 3), SENTINEL);
}

#[test]
fn chunk_reads_back_as_text() {
    assert_eq!(get_chunk_from_color([b'A', b'B', b'C']), "ABC");
    assert_eq!(get_chunk_from_color([104, 105, 33]), "hi!");
}

#[test]
fn sentinel_scan_finds_sentinel() {
    assert!(payload_is_sentinel_free(b"clean"));
    assert!(!payload_is_sentinel_free(&[1, 2, SENTINEL]));
    assert!(payload_is_sentinel_free(b""));
}

#[test]
fn fresh_raster_is_black_and_writable() {
    let mut img = Raster::new(3, 5);
    assert_eq!(img.width(), 3);
    assert_eq!(img.height(), 5);
    assert_eq!(img.pixel(0, 0), (0, 0, 0));
    assert_eq!(img.pixel(2, 4), (0, 0, 0));
    img.set_pixel(1, 3, (9, 8, 7));
    assert_eq!(img.pixel(1, 3), (9, 8, 7));
    assert_eq!(img.pixel(1, 2), (0, 0, 0));
}

#[test]
fn draw_rectangle_paints_solid_clipped_block() {
    let mut img = Raster::new(4, 4);
    draw_rectangle(&mut img, (5, 6, 7), 2, 2, 3);
    for x in 0..4u32 {
        for y in 0..4u32 {
            let expected = if x >= 2 && y >= 2 { (5, 6, 7) } else { (0, 0, 0) };
            assert_eq!(img.pixel(x, y), expected, "pixel ({}, {})", x, y);
        }
    }
}

#[test]
fn blocks_are_solid_in_encoded_image() {
    let img = create_snaking_qr_grid(b"solid blocks", 4).unwrap();
    let side = img.width();
    for bx in 0..side / 4 {
        for by in 0..side / 4 {
            let first = img.pixel(bx * 4, by * 4);
            for dx in 0..4 {
                for dy in 0..4 {
                    assert_eq!(img.pixel(bx * 4 + dx, by * 4 + dy), first);
                }
            }
        }
    }
}

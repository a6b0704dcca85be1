use sprite_lay::coord::coord_from_bits;
use sprite_lay::error::LayError;
use sprite_lay::layout::SpriteT;
use sprite_lay::parse::{parse_lay, sprite_variant};

fn header(sc: u32, cc: u32) -> Vec<u8> {
    let mut v = Vec::new();
    v.extend_from_slice(&sc.to_le_bytes());
    v.extend_from_slice(&cc.to_le_bytes());
    v
}

fn sprite_rec(id: u8, aux: u8, flags: u8, tag: u8, off: u32, cnt: u32) -> Vec<u8> {
    let mut v = vec![id, aux, flags, tag];
    v.extend_from_slice(&off.to_le_bytes());
    v.extend_from_slice(&cnt.to_le_bytes());
    v
}

fn chunk_rec(img_x: f32, img_y: f32, chunk_x: f32, chunk_y: f32) -> Vec<u8> {
    let mut v = Vec::new();
    for f in [img_x, img_y, chunk_x, chunk_y] {
        v.extend_from_slice(&f.to_le_bytes());
    }
    v
}

fn one_base_sprite() -> Vec<u8> {
    sprite_rec(1, 0, 0, 0x00, 0, 0)
}

#[test]
fn raw_path_taken_at_threshold() {
    // First word is exactly 65536: still the raw path, so the parser wants
    // 65536 sprite records and runs out of bytes instead of inflating.
    let data = header(65536, 0);
    assert_eq!(parse_lay(&data).unwrap_err(), LayError::Truncated);
}

#[test]
fn compressed_path_taken_above_threshold() {
    // First word is 65537: the compressed path, and the garbage that
    // follows is no zlib stream.
    let mut data = header(65537, 0);
    data.extend_from_slice(&[0u8; 24]);
    assert_eq!(parse_lay(&data).unwrap_err(), LayError::Decompress);
}

#[test]
fn compressed_stream_parses_like_raw() {
    let mut raw = header(2, 1);
    raw.extend_from_slice(&sprite_rec(1, 0, 0, 0x00, 0, 1));
    raw.extend_from_slice(&sprite_rec(5, 0, 0, 0x20, 1, 2));
    raw.extend_from_slice(&chunk_rec(7.0, -9.0, 3.0, 4.0));

    let mut enc = libflate::zlib::Encoder::new(Vec::new()).unwrap();
    std::io::Write::write_all(&mut enc, &raw).unwrap();
    let compressed = enc.finish().into_result().unwrap();

    // The zlib framing must read as an implausibly large sprite count,
    // or detection would not pick the compressed path.
    let first = u32::from_le_bytes([compressed[0], compressed[1], compressed[2], compressed[3]]);
    assert!(first > 65536);

    let a = parse_lay(&raw).unwrap();
    let b = parse_lay(&compressed).unwrap();
    assert_eq!(a.sprites, b.sprites);
    assert_eq!(a.sub_map, b.sub_map);
    assert_eq!(a.chunks, b.chunks);
    assert_eq!(a.base_dep, b.base_dep);
    assert_eq!(a.sprite_w, b.sprite_w);
    assert_eq!(a.sprite_h, b.sprite_h);
    assert_eq!(a.sprite_xy_min, b.sprite_xy_min);
    assert_eq!(a.sprite_xy_max, b.sprite_xy_max);
}

#[test]
fn zero_sprites_rejected() {
    let data = header(0, 7);
    assert_eq!(parse_lay(&data).unwrap_err(), LayError::NoSprites);

    // The verdict stands whatever follows the header.
    let mut data = header(0, 3);
    data.extend_from_slice(&[0xAB; 40]);
    assert_eq!(parse_lay(&data).unwrap_err(), LayError::NoSprites);
}

#[test]
fn unknown_sprite_type_rejected() {
    let mut data = header(1, 0);
    data.extend_from_slice(&sprite_rec(1, 0, 0, 0x70, 0, 0));
    assert_eq!(parse_lay(&data).unwrap_err(), LayError::UnknownSpriteType(0x70));
}

#[test]
fn all_known_sprite_types_accepted() {
    for tag in [0x00u8, 0x20, 0x30, 0x40, 0x50, 0x60] {
        let mut data = header(1, 0);
        data.extend_from_slice(&sprite_rec(9, 4, 0, tag, 0, 0));
        let lay = parse_lay(&data).unwrap();
        let expected = match tag {
            0x00 => SpriteT::Base,
            0x20 => SpriteT::Sub,
            0x50 => SpriteT::Overlay,
            t => SpriteT::Dep {
                exact_type: t,
                depends_on: 4,
            },
        };
        assert_eq!(lay.sprites[0].sprite_type, expected);
    }
}

#[test]
fn sprite_variant_matches_tag_table() {
    assert_eq!(sprite_variant(0x00, 9).unwrap(), SpriteT::Base);
    assert_eq!(sprite_variant(0x20, 9).unwrap(), SpriteT::Sub);
    assert_eq!(
        sprite_variant(0x30, 9).unwrap(),
        SpriteT::Dep {
            exact_type: 0x30,
            depends_on: 9
        }
    );
    assert_eq!(
        sprite_variant(0x60, 2).unwrap(),
        SpriteT::Dep {
            exact_type: 0x60,
            depends_on: 2
        }
    );
    assert_eq!(sprite_variant(0x50, 0).unwrap(), SpriteT::Overlay);
    assert_eq!(sprite_variant(0x10, 0).unwrap_err(), LayError::UnknownSpriteType(0x10));
}

#[test]
fn sprite_fields_read_in_order() {
    let mut data = header(1, 0);
    data.extend_from_slice(&sprite_rec(42, 0, 0, 0x00, 7, 9));
    let lay = parse_lay(&data).unwrap();
    assert_eq!(lay.sprites[0].id, 42);
    assert_eq!(lay.sprites[0].chunk_offset, 7);
    assert_eq!(lay.sprites[0].chunk_count, 9);
}

#[test]
fn fractional_coordinate_rejected() {
    let mut data = header(1, 1);
    data.extend_from_slice(&one_base_sprite());
    data.extend_from_slice(&chunk_rec(1.5, 0.0, 0.0, 0.0));
    assert_eq!(parse_lay(&data).unwrap_err(), LayError::FractionalCoord);
}

#[test]
fn non_finite_coordinate_rejected() {
    let mut data = header(1, 1);
    data.extend_from_slice(&one_base_sprite());
    data.extend_from_slice(&chunk_rec(f32::NAN, 0.0, 0.0, 0.0));
    assert_eq!(parse_lay(&data).unwrap_err(), LayError::NonFiniteCoord);

    let mut data = header(1, 1);
    data.extend_from_slice(&one_base_sprite());
    data.extend_from_slice(&chunk_rec(0.0, f32::INFINITY, 0.0, 0.0));
    assert_eq!(parse_lay(&data).unwrap_err(), LayError::NonFiniteCoord);
}

#[test]
fn negative_whole_coordinate_truncates() {
    let mut data = header(1, 1);
    data.extend_from_slice(&one_base_sprite());
    data.extend_from_slice(&chunk_rec(-3.0, 0.0, 1.0, 2.0));
    let lay = parse_lay(&data).unwrap();
    assert_eq!(lay.chunks[0].img_x, -3);
    assert_eq!(lay.chunks[0].img_y, 0);
    assert_eq!(lay.chunks[0].chunk_x, 1);
    assert_eq!(lay.chunks[0].chunk_y, 2);
}

#[test]
fn coordinate_bit_patterns() {
    assert_eq!(coord_from_bits(1.5f32.to_bits()).unwrap_err(), LayError::FractionalCoord);
    assert_eq!(coord_from_bits(f32::NAN.to_bits()).unwrap_err(), LayError::NonFiniteCoord);
    assert_eq!(coord_from_bits(f32::INFINITY.to_bits()).unwrap_err(), LayError::NonFiniteCoord);
    assert_eq!(
        coord_from_bits(f32::NEG_INFINITY.to_bits()).unwrap_err(),
        LayError::NonFiniteCoord
    );
    assert_eq!(coord_from_bits((-3.0f32).to_bits()).unwrap(), -3);
    assert_eq!(coord_from_bits(0.0f32.to_bits()).unwrap(), 0);
    assert_eq!(coord_from_bits((-0.0f32).to_bits()).unwrap(), 0);
    assert_eq!(coord_from_bits(12345.0f32.to_bits()).unwrap(), 12345);
    // The smallest subnormal lies strictly between 0 and 1.
    assert_eq!(coord_from_bits(1u32).unwrap_err(), LayError::FractionalCoord);
    // Whole values beyond the i32 range saturate, as Rust's cast does.
    assert_eq!(coord_from_bits(2147483648.0f32.to_bits()).unwrap(), i32::MAX);
    assert_eq!(coord_from_bits((-2147483648.0f32).to_bits()).unwrap(), i32::MIN);
    assert_eq!(coord_from_bits(3e9f32.to_bits()).unwrap(), i32::MAX);
    assert_eq!(coord_from_bits((-3e9f32).to_bits()).unwrap(), i32::MIN);
    assert_eq!(coord_from_bits(1e20f32.to_bits()).unwrap(), i32::MAX);
    assert_eq!(coord_from_bits(2147483520.0f32.to_bits()).unwrap(), 2147483520);
}

#[test]
fn sub_sprites_indexed_and_base_detected() {
    let mut data = header(2, 0);
    data.extend_from_slice(&sprite_rec(1, 0, 0, 0x00, 0, 0));
    data.extend_from_slice(&sprite_rec(5, 0, 0, 0x20, 0, 0));
    let lay = parse_lay(&data).unwrap();
    assert_eq!(lay.sub_map.len(), 1);
    assert_eq!(lay.sub_map.get(&5), Some(&1));
    assert_eq!(lay.base_dep, Some(0));
}

#[test]
fn duplicate_sub_id_last_write_wins() {
    let mut data = header(3, 0);
    data.extend_from_slice(&sprite_rec(1, 0, 0, 0x00, 0, 0));
    data.extend_from_slice(&sprite_rec(5, 0, 0, 0x20, 0, 0));
    data.extend_from_slice(&sprite_rec(5, 0, 0, 0x20, 0, 0));
    let lay = parse_lay(&data).unwrap();
    assert_eq!(lay.sub_map.len(), 1);
    assert_eq!(lay.sub_map.get(&5), Some(&2));
}

#[test]
fn base_elsewhere_goes_undetected() {
    let mut data = header(2, 0);
    data.extend_from_slice(&sprite_rec(1, 0, 16, 0x50, 0, 0));
    data.extend_from_slice(&sprite_rec(2, 0, 0, 0x00, 0, 0));
    let lay = parse_lay(&data).unwrap();
    assert_eq!(lay.base_dep, None);
}

#[test]
fn bounding_box_and_canvas_size() {
    let mut data = header(1, 2);
    data.extend_from_slice(&one_base_sprite());
    data.extend_from_slice(&chunk_rec(-10.0, -5.0, 0.0, 0.0));
    data.extend_from_slice(&chunk_rec(20.0, 15.0, 0.0, 0.0));
    let lay = parse_lay(&data).unwrap();
    assert_eq!(lay.sprite_xy_min, (-10, -5));
    assert_eq!(lay.sprite_xy_max, (20, 15));
    assert_eq!(lay.sprite_w, 62);
    assert_eq!(lay.sprite_h, 52);
}

#[test]
fn bounding_box_always_holds_origin() {
    let mut data = header(1, 1);
    data.extend_from_slice(&one_base_sprite());
    data.extend_from_slice(&chunk_rec(5.0, 5.0, 0.0, 0.0));
    let lay = parse_lay(&data).unwrap();
    assert_eq!(lay.sprite_xy_min, (0, 0));
    assert_eq!(lay.sprite_xy_max, (5, 5));
    assert_eq!(lay.sprite_w, 37);
    assert_eq!(lay.sprite_h, 37);
}

#[test]
fn parse_is_repeatable() {
    let mut data = header(2, 1);
    data.extend_from_slice(&sprite_rec(1, 0, 0, 0x00, 0, 1));
    data.extend_from_slice(&sprite_rec(8, 0, 0, 0x20, 1, 0));
    data.extend_from_slice(&chunk_rec(-4.0, 6.0, 1.0, 2.0));
    let a = parse_lay(&data).unwrap();
    let b = parse_lay(&data).unwrap();
    assert_eq!(a.sprites, b.sprites);
    assert_eq!(a.sub_map, b.sub_map);
    assert_eq!(a.chunks, b.chunks);
    assert_eq!(a.base_dep, b.base_dep);
    assert_eq!(a.sprite_w, b.sprite_w);
    assert_eq!(a.sprite_h, b.sprite_h);
    assert_eq!(a.sprite_xy_min, b.sprite_xy_min);
    assert_eq!(a.sprite_xy_max, b.sprite_xy_max);
}

#[test]
fn truncated_streams_rejected() {
    assert_eq!(parse_lay(&vec![1, 0]).unwrap_err(), LayError::Truncated);
    assert_eq!(parse_lay(&vec![1, 0, 0, 0, 0]).unwrap_err(), LayError::Truncated);
    // A sprite record cut short.
    let mut data = header(1, 0);
    data.extend_from_slice(&[1, 0, 0, 0x00, 0, 0]);
    assert_eq!(parse_lay(&data).unwrap_err(), LayError::Truncated);
    // A chunk record cut short.
    let mut data = header(1, 1);
    data.extend_from_slice(&one_base_sprite());
    data.extend_from_slice(&[0u8; 8]);
    assert_eq!(parse_lay(&data).unwrap_err(), LayError::Truncated);
}

#[test]
fn truncation_reported_before_bad_tag_in_same_record() {
    // The whole 12-byte record is read before its discriminant is judged.
    let mut data = header(1, 0);
    data.extend_from_slice(&[1, 0, 0, 0x70]);
    assert_eq!(parse_lay(&data).unwrap_err(), LayError::Truncated);
}

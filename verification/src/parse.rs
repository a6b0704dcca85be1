use crate::coord::{coord_from_bits, f32_is_finite, f32_is_integral, f32_int_value, sat_i32};
use crate::error::LayError;
use crate::flate::{inflate_zlib, zlib_inflated};
use crate::layout::{
    assemble, base_dep_of, bbox_of, canvas_len, lemma_bbox_bounds, sub_map_of, Chunk, LayModel,
    ParsedLay, Sprite, SpriteT,
};
use crate::wire::{le32_at, read_u32_at};
use std::collections::HashMap;
use vstd::prelude::*;

verus! {

broadcast use vstd::std_specs::hash::group_hash_axioms;

/// Raw sprite counts stay at or below this value; a larger leading word is
/// taken as evidence that the stream is compressed.
pub const SPRITES_MAX_RAW: u32 = 65536;

/// The six type discriminants a sprite record may carry.
pub open spec fn tag_known(tag: u8) -> bool {
    tag == 0x00 || tag == 0x20 || tag == 0x30 || tag == 0x40 || tag == 0x50 || tag == 0x60
}

/// The variant a known discriminant denotes; the dependent variants keep
/// the discriminant itself and take their dependency from the auxiliary
/// byte.
pub open spec fn spec_variant(tag: u8, aux: u8) -> SpriteT
    recommends
        tag_known(tag),
{
    if tag == 0x00 {
        SpriteT::Base
    } else if tag == 0x20 {
        SpriteT::Sub
    } else if tag == 0x50 {
        SpriteT::Overlay
    } else {
        SpriteT::Dep { exact_type: tag, depends_on: aux }
    }
}

/// The sprite encoded by the 12-byte record at `off`: id byte, auxiliary
/// byte, flags byte, discriminant byte, then two little-endian u32 words.
pub open spec fn spec_sprite_at(s: Seq<u8>, off: int) -> Sprite
    recommends
        0 <= off,
        off + 12 <= s.len(),
        tag_known(s[off + 3]),
{
    Sprite {
        sprite_type: spec_variant(s[off + 3], s[off + 1]),
        id: s[off],
        chunk_offset: le32_at(s, off + 4) as usize,
        chunk_count: le32_at(s, off + 8) as usize,
    }
}

/// Decodes `n` sprite records starting at `off`, reporting the first
/// failure in reading order: a record cut short before an unknown
/// discriminant, and either before anything later in the table.
pub open spec fn spec_sprites(s: Seq<u8>, off: int, n: nat) -> Result<Seq<Sprite>, LayError>
    decreases n,
{
    if n == 0 {
        Ok(Seq::empty())
    } else if off + 12 > s.len() {
        Err(LayError::Truncated)
    } else if !tag_known(s[off + 3]) {
        Err(LayError::UnknownSpriteType(s[off + 3]))
    } else {
        match spec_sprites(s, off + 12, (n - 1) as nat) {
            Ok(rest) => Ok(seq![spec_sprite_at(s, off)] + rest),
            Err(e) => Err(e),
        }
    }
}

/// Bit pattern of coordinate field `j` (of four) of the chunk record at
/// `off`.
pub open spec fn field_bits(s: Seq<u8>, off: int, j: int) -> u32 {
    le32_at(s, off + 4 * j) as u32
}

/// What is wrong with one encoded coordinate, if anything: non-finite
/// values are reported before fractional ones.
pub open spec fn coord_err(b: u32) -> Option<LayError> {
    if !f32_is_finite(b) {
        Some(LayError::NonFiniteCoord)
    } else if !f32_is_integral(b) {
        Some(LayError::FractionalCoord)
    } else {
        None
    }
}

/// The integer a valid encoded coordinate stands for, truncated into i32
/// range.
pub open spec fn coord_val(b: u32) -> int {
    sat_i32(f32_int_value(b))
}

/// The first complaint about the chunk record at `off`, checking its four
/// coordinate fields in on-disk order.
pub open spec fn chunk_err_at(s: Seq<u8>, off: int) -> Option<LayError> {
    if coord_err(field_bits(s, off, 0)) is Some {
        coord_err(field_bits(s, off, 0))
    } else if coord_err(field_bits(s, off, 1)) is Some {
        coord_err(field_bits(s, off, 1))
    } else if coord_err(field_bits(s, off, 2)) is Some {
        coord_err(field_bits(s, off, 2))
    } else {
        coord_err(field_bits(s, off, 3))
    }
}

/// The chunk encoded by the 16-byte record at `off`, all four coordinates
/// valid.
pub open spec fn spec_chunk_at(s: Seq<u8>, off: int) -> Chunk
    recommends
        0 <= off,
        off + 16 <= s.len(),
        chunk_err_at(s, off) is None,
{
    Chunk {
        img_x: coord_val(field_bits(s, off, 0)) as i32,
        img_y: coord_val(field_bits(s, off, 1)) as i32,
        chunk_x: coord_val(field_bits(s, off, 2)) as i32,
        chunk_y: coord_val(field_bits(s, off, 3)) as i32,
    }
}

/// Decodes `n` chunk records starting at `off`, reporting the first
/// failure in reading order.
pub open spec fn spec_chunks(s: Seq<u8>, off: int, n: nat) -> Result<Seq<Chunk>, LayError>
    decreases n,
{
    if n == 0 {
        Ok(Seq::empty())
    } else if off + 16 > s.len() {
        Err(LayError::Truncated)
    } else {
        match chunk_err_at(s, off) {
            Some(e) => Err(e),
            None => match spec_chunks(s, off + 16, (n - 1) as nat) {
                Ok(rest) => Ok(seq![spec_chunk_at(s, off)] + rest),
                Err(e) => Err(e),
            },
        }
    }
}

/// The meaning of one uncompressed layout stream: an 8-byte header holding
/// the sprite and chunk counts, the sprite table, the emptiness check, the
/// chunk table, then assembly of the final layout.
pub open spec fn spec_parse_stream(s: Seq<u8>) -> Result<LayModel, LayError> {
    if s.len() < 8 {
        Err(LayError::Truncated)
    } else {
        let sc = le32_at(s, 0);
        let cc = le32_at(s, 4);
        match spec_sprites(s, 8, sc) {
            Err(e) => Err(e),
            Ok(sprites) => if sprites.len() == 0 {
                Err(LayError::NoSprites)
            } else {
                match spec_chunks(s, 8 + 12 * (sc as int), cc) {
                    Err(e) => Err(e),
                    Ok(chunks) => Ok(assemble(sprites, chunks)),
                }
            },
        }
    }
}

/// Container detection: a leading little-endian word above the plausible
/// sprite-count ceiling marks the stream as zlib-compressed.
pub open spec fn lay_compressed(s: Seq<u8>) -> bool
    recommends
        s.len() >= 4,
{
    le32_at(s, 0) > SPRITES_MAX_RAW
}

/// The meaning of a whole lay file: too short to detect is a transport
/// error; a compressed stream is inflated first (a failing inflation is a
/// decompression error); the result is read as an uncompressed stream.
pub open spec fn spec_parse_lay(s: Seq<u8>) -> Result<LayModel, LayError> {
    if s.len() < 4 {
        Err(LayError::Truncated)
    } else if lay_compressed(s) {
        match zlib_inflated(s) {
            Some(t) => spec_parse_stream(t),
            None => Err(LayError::Decompress),
        }
    } else {
        spec_parse_stream(s)
    }
}

/// Classifies one sprite record's discriminant byte: exactly the six known
/// values are accepted, and any other is an unknown-type error naming the
/// byte.
pub fn sprite_variant(tag: u8, aux: u8) -> (r: Result<SpriteT, LayError>)
    ensures
        tag_known(tag) ==> r == Ok::<SpriteT, LayError>(spec_variant(tag, aux)),
        !tag_known(tag) ==> r == Err::<SpriteT, LayError>(LayError::UnknownSpriteType(tag)),
{
    match tag {
        0x00 => Ok(SpriteT::Base),
        0x20 => Ok(SpriteT::Sub),
        0x30 | 0x40 | 0x60 => Ok(SpriteT::Dep { exact_type: tag, depends_on: aux }),
        0x50 => Ok(SpriteT::Overlay),
        _ => Err(LayError::UnknownSpriteType(tag)),
    }
}

/// Reads the table of `sc` sprite records that starts at offset 8,
/// building the sprite sequence and its sub-sprite index together.
#[verifier::loop_isolation(false)]
fn parse_sprites(data: &Vec<u8>, sc: u32) -> (r: Result<
    (Vec<Sprite>, HashMap<u8, usize>),
    LayError,
>)
    requires
        data@.len() >= 8,
    ensures
        r matches Ok(pair) ==> {
            &&& spec_sprites(data@, 8, sc as nat) == Ok::<Seq<Sprite>, LayError>(pair.0@)
            &&& pair.0@.len() == sc
            &&& pair.1@ == sub_map_of(pair.0@)
        },
        r matches Err(e) ==> spec_sprites(data@, 8, sc as nat) == Err::<Seq<Sprite>, LayError>(e),
{
    let ghost s = data@;
    let mut sprites: Vec<Sprite> = Vec::new();
    let mut sub_map: HashMap<u8, usize> = HashMap::new();
    let mut off: usize = 8;
    let mut i: u32 = 0;
    while i < sc
        invariant
            i <= sc,
            off == 8 + 12 * (i as int),
            off <= data.len(),
            sprites@.len() == i as nat,
            sub_map@ == sub_map_of(sprites@),
            (match spec_sprites(s, off as int, (sc - i) as nat) {
                Ok(rest) => spec_sprites(s, 8, sc as nat) == Ok::<Seq<Sprite>, LayError>(
                    sprites@ + rest,
                ),
                Err(e) => spec_sprites(s, 8, sc as nat) == Err::<Seq<Sprite>, LayError>(e),
            }),
        decreases sc - i,
    {
        if data.len() - off < 12 {
            return Err(LayError::Truncated);
        }
        let id0: u8 = data[off];
        let aux: u8 = data[off + 1];
        let tag: u8 = data[off + 3];
        let variant: SpriteT = match sprite_variant(tag, aux) {
            Ok(v) => v,
            Err(e) => {
                return Err(e);
            },
        };
        let co: u32 = read_u32_at(data, off + 4);
        let cn: u32 = read_u32_at(data, off + 8);
        let sp = Sprite {
            sprite_type: variant,
            id: id0,
            chunk_offset: co as usize,
            chunk_count: cn as usize,
        };
        let ghost pre = sprites@;
        if tag == 0x20 {
            sub_map.insert(id0, sprites.len());
        }
        sprites.push(sp);
        proof {
            let off0 = off as int;
            let n0 = (sc - i) as nat;
            assert(sp == spec_sprite_at(s, off0));
            assert(sprites@.drop_last() =~= pre);
            match spec_sprites(s, off0 + 12, (n0 - 1) as nat) {
                Ok(rest) => {
                    assert(pre + (seq![sp] + rest) =~= sprites@ + rest);
                },
                Err(_) => {},
            }
        }
        off = off + 12;
        i = i + 1;
    }
    proof {
        assert(sprites@ + Seq::<Sprite>::empty() =~= sprites@);
        assert(spec_sprites(s, 8, sc as nat) == Ok::<Seq<Sprite>, LayError>(sprites@));
    }
    Ok((sprites, sub_map))
}

/// Reads the table of `cc` chunk records that starts at offset `start`,
/// accumulating the bounding box of the placement offsets from zero.
/// Returns the chunks with the box as `((min_x, min_y), (max_x, max_y))`.
#[verifier::loop_isolation(false)]
fn parse_chunks(data: &Vec<u8>, start: usize, cc: u32) -> (r: Result<
    (Vec<Chunk>, (i32, i32), (i32, i32)),
    LayError,
>)
    requires
        start <= data@.len(),
    ensures
        r matches Ok(t) ==> {
            &&& spec_chunks(data@, start as int, cc as nat) == Ok::<Seq<Chunk>, LayError>(t.0@)
            &&& t.1.0 as int == bbox_of(t.0@).min_x
            &&& t.1.1 as int == bbox_of(t.0@).min_y
            &&& t.2.0 as int == bbox_of(t.0@).max_x
            &&& t.2.1 as int == bbox_of(t.0@).max_y
        },
        r matches Err(e) ==> spec_chunks(data@, start as int, cc as nat) == Err::<
            Seq<Chunk>,
            LayError,
        >(e),
{
    let ghost s = data@;
    let mut chunks: Vec<Chunk> = Vec::new();
    let mut min_x: i32 = 0;
    let mut min_y: i32 = 0;
    let mut max_x: i32 = 0;
    let mut max_y: i32 = 0;
    let mut off: usize = start;
    let ghost coff0 = start as int;
    let mut j: u32 = 0;
    while j < cc
        invariant
            j <= cc,
            off == coff0 + 16 * (j as int),
            off <= data.len(),
            chunks@.len() == j as nat,
            min_x as int == bbox_of(chunks@).min_x,
            min_y as int == bbox_of(chunks@).min_y,
            max_x as int == bbox_of(chunks@).max_x,
            max_y as int == bbox_of(chunks@).max_y,
            (match spec_chunks(s, off as int, (cc - j) as nat) {
                Ok(rest) => spec_chunks(s, coff0, cc as nat) == Ok::<Seq<Chunk>, LayError>(
                    chunks@ + rest,
                ),
                Err(e) => spec_chunks(s, coff0, cc as nat) == Err::<Seq<Chunk>, LayError>(e),
            }),
        decreases cc - j,
    {
        if data.len() - off < 16 {
            return Err(LayError::Truncated);
        }
        let b0: u32 = read_u32_at(data, off);
        let cx0: i32 = match coord_from_bits(b0) {
            Ok(v) => v,
            Err(e) => {
                return Err(e);
            },
        };
        let b1: u32 = read_u32_at(data, off + 4);
        let cy0: i32 = match coord_from_bits(b1) {
            Ok(v) => v,
            Err(e) => {
                return Err(e);
            },
        };
        let b2: u32 = read_u32_at(data, off + 8);
        let cx1: i32 = match coord_from_bits(b2) {
            Ok(v) => v,
            Err(e) => {
                return Err(e);
            },
        };
        let b3: u32 = read_u32_at(data, off + 12);
        let cy1: i32 = match coord_from_bits(b3) {
            Ok(v) => v,
            Err(e) => {
                return Err(e);
            },
        };
        let c = Chunk { img_x: cx0, img_y: cy0, chunk_x: cx1, chunk_y: cy1 };
        if cx0 > max_x {
            max_x = cx0;
        }
        if cx0 < min_x {
            min_x = cx0;
        }
        if cy0 > max_y {
            max_y = cy0;
        }
        if cy0 < min_y {
            min_y = cy0;
        }
        let ghost pre = chunks@;
        chunks.push(c);
        proof {
            let off0 = off as int;
            let n0 = (cc - j) as nat;
            assert(c == spec_chunk_at(s, off0));
            assert(chunks@.drop_last() =~= pre);
            match spec_chunks(s, off0 + 16, (n0 - 1) as nat) {
                Ok(rest) => {
                    assert(pre + (seq![c] + rest) =~= chunks@ + rest);
                },
                Err(_) => {},
            }
        }
        off = off + 16;
        j = j + 1;
    }
    proof {
        assert(chunks@ + Seq::<Chunk>::empty() =~= chunks@);
        assert(spec_chunks(s, coff0, cc as nat) == Ok::<Seq<Chunk>, LayError>(chunks@));
    }
    Ok((chunks, (min_x, min_y), (max_x, max_y)))
}

/// Parses one uncompressed layout stream, returning exactly what
/// `spec_parse_stream` ascribes to the bytes.
pub fn parse_stream(data: &Vec<u8>) -> (r: Result<ParsedLay, LayError>)
    ensures
        r matches Ok(p) ==> spec_parse_stream(data@) matches Ok(m) && p@ == m,
        r matches Err(e) ==> spec_parse_stream(data@) == Err::<LayModel, LayError>(e),
{
    if data.len() < 8 {
        return Err(LayError::Truncated);
    }
    let sc: u32 = read_u32_at(data, 0);
    let cc: u32 = read_u32_at(data, 4);
    let (sprites, sub_map) = match parse_sprites(data, sc) {
        Ok(pair) => pair,
        Err(e) => {
            return Err(e);
        },
    };
    if sprites.len() == 0 {
        return Err(LayError::NoSprites);
    }
    // The sprite table occupied 12 bytes per record after the header, and
    // it fit in the stream, so the chunk table starts within it.
    proof {
        lemma_sprites_extent(data@, 8, sc as nat);
    }
    let start: usize = 8 + 12 * (sc as usize);
    let (chunks, xy_min, xy_max) = match parse_chunks(data, start, cc) {
        Ok(t) => t,
        Err(e) => {
            return Err(e);
        },
    };
    let (min_x, min_y) = xy_min;
    let (max_x, max_y) = xy_max;
    proof {
        lemma_bbox_bounds(chunks@);
    }

    let w64: u64 = max_x as u64 + (-(min_x as i64)) as u64 + 32;
    let h64: u64 = max_y as u64 + (-(min_y as i64)) as u64 + 32;
    let sprite_w: u32 = (w64 % 0x1_0000_0000) as u32;
    let sprite_h: u32 = (h64 % 0x1_0000_0000) as u32;

    let base_dep: Option<usize> = match sprites[0].sprite_type {
        SpriteT::Base => Some(0),
        _ => None,
    };

    let p = ParsedLay {
        sprites,
        sub_map,
        chunks,
        base_dep,
        sprite_w,
        sprite_h,
        sprite_xy_min: (min_x, min_y),
        sprite_xy_max: (max_x, max_y),
    };
    proof {
        assert(sprite_w == canvas_len(bbox_of(p.chunks@).max_x, bbox_of(p.chunks@).min_x));
        assert(sprite_h == canvas_len(bbox_of(p.chunks@).max_y, bbox_of(p.chunks@).min_y));
        assert(p.base_dep == base_dep_of(p.sprites@));
        assert(p@ =~~= assemble(p.sprites@, p.chunks@));
    }
    Ok(p)
}

/// When the sprite table decodes, its `n` 12-byte records all lie inside
/// the stream, so the table's end offset does too.
proof fn lemma_sprites_extent(s: Seq<u8>, off: int, n: nat)
    requires
        0 <= off <= s.len(),
        spec_sprites(s, off, n) is Ok,
    ensures
        off + 12 * n <= s.len(),
    decreases n,
{
    if n > 0 {
        lemma_sprites_extent(s, off + 12, (n - 1) as nat);
    }
}

/// Parses a whole lay file: detects the container by its leading word,
/// inflates a compressed stream, and decodes the layout. The result is
/// exactly what `spec_parse_lay` ascribes to the bytes.
pub fn parse_lay(data: &Vec<u8>) -> (r: Result<ParsedLay, LayError>)
    ensures
        r matches Ok(p) ==> spec_parse_lay(data@) matches Ok(m) && p@ == m,
        r matches Err(e) ==> spec_parse_lay(data@) == Err::<LayModel, LayError>(e),
{
    if data.len() < 4 {
        return Err(LayError::Truncated);
    }
    let first: u32 = read_u32_at(data, 0);
    if first > SPRITES_MAX_RAW {
        match inflate_zlib(data) {
            Some(t) => parse_stream(&t),
            None => Err(LayError::Decompress),
        }
    } else {
        parse_stream(data)
    }
}

/// Law: the compressed path is selected exactly when the first four bytes
/// decode, little-endian, to a value above 65536; the raw path is taken
/// otherwise.
pub proof fn lemma_detection(s: Seq<u8>)
    requires
        s.len() >= 4,
    ensures
        lay_compressed(s) <==> le32_at(s, 0) > 65536,
        lay_compressed(s) ==> spec_parse_lay(s) == (match zlib_inflated(s) {
            Some(t) => spec_parse_stream(t),
            None => Err::<LayModel, LayError>(LayError::Decompress),
        }),
        !lay_compressed(s) ==> spec_parse_lay(s) == spec_parse_stream(s),
{
}

/// Law: a header whose sprite count is zero is rejected as "no sprites",
/// whatever its chunk count and whatever follows the header.
pub proof fn lemma_zero_sprites_rejected(s: Seq<u8>)
    requires
        s.len() >= 8,
        le32_at(s, 0) == 0,
    ensures
        spec_parse_stream(s) == Err::<LayModel, LayError>(LayError::NoSprites),
{
    assert(spec_sprites(s, 8, 0) == Ok::<Seq<Sprite>, LayError>(Seq::empty()));
}

/// Law: parsing is a pure function of the input bytes, so two parses of
/// the same buffer yield structurally identical layouts.
pub proof fn lemma_parse_deterministic(s: Seq<u8>, m1: LayModel, m2: LayModel)
    requires
        spec_parse_lay(s) == Ok::<LayModel, LayError>(m1),
        spec_parse_lay(s) == Ok::<LayModel, LayError>(m2),
    ensures
        m1 == m2,
{
}

} // verus!

use std::collections::HashMap;
use vstd::prelude::*;

verus! {

/// Fixed padding added to each axis of the computed canvas.
pub const SPRITE_SIZE_PAD: u32 = 32;

/// Compositing role of a sprite, decoded from the record's type
/// discriminant byte.
#[derive(Clone, Copy, Debug, PartialEq, Eq, Structural)]
pub enum SpriteT {
    /// Primary layer (discriminant 0x00).
    Base,
    /// Secondary layer, implicitly associated with `Base` (0x20).
    Sub,
    /// Layer depending on the `Sub` sprite with id `depends_on`
    /// (0x30, 0x40 or 0x60; the original discriminant is kept).
    Dep { exact_type: u8, depends_on: u8 },
    /// Non-opaque layer composited last (0x50).
    Overlay,
}

/// One decoded sprite descriptor.
#[derive(Clone, Copy, Debug, PartialEq, Eq, Structural)]
pub struct Sprite {
    pub sprite_type: SpriteT,
    pub id: u8,
    pub chunk_offset: usize,
    pub chunk_count: usize,
}

/// One decoded placement chunk. `img_x`/`img_y` place the tile in the
/// composed image; `chunk_x`/`chunk_y` locate it in the source.
#[derive(Clone, Copy, Debug, PartialEq, Eq, Structural)]
pub struct Chunk {
    pub img_x: i32,
    pub img_y: i32,
    pub chunk_x: i32,
    pub chunk_y: i32,
}

/// The completed parse: sprite table in on-disk order, the id-to-index
/// map of `Sub` sprites, the chunk table, the base dependency, and the
/// canvas geometry derived from the chunks' bounding box.
#[derive(Debug)]
pub struct ParsedLay {
    pub sprites: Vec<Sprite>,
    pub sub_map: HashMap<u8, usize>,
    pub chunks: Vec<Chunk>,
    pub base_dep: Option<usize>,
    pub sprite_w: u32,
    pub sprite_h: u32,
    pub sprite_xy_min: (i32, i32),
    pub sprite_xy_max: (i32, i32),
}

/// Mathematical image of a `ParsedLay`.
#[verifier::ext_equal]
pub ghost struct LayModel {
    pub sprites: Seq<Sprite>,
    pub sub_map: Map<u8, usize>,
    pub chunks: Seq<Chunk>,
    pub base_dep: Option<usize>,
    pub sprite_w: u32,
    pub sprite_h: u32,
    pub min_x: int,
    pub min_y: int,
    pub max_x: int,
    pub max_y: int,
}

impl View for ParsedLay {
    type V = LayModel;

    open spec fn view(&self) -> LayModel {
        LayModel {
            sprites: self.sprites@,
            sub_map: self.sub_map@,
            chunks: self.chunks@,
            base_dep: self.base_dep,
            sprite_w: self.sprite_w,
            sprite_h: self.sprite_h,
            min_x: self.sprite_xy_min.0 as int,
            min_y: self.sprite_xy_min.1 as int,
            max_x: self.sprite_xy_max.0 as int,
            max_y: self.sprite_xy_max.1 as int,
        }
    }
}

/// The id-to-index map built by walking the sprite table in order and
/// recording each `Sub` sprite under its id; a later `Sub` with the same
/// id overwrites an earlier one (last write wins).
pub open spec fn sub_map_of(s: Seq<Sprite>) -> Map<u8, usize>
    decreases s.len(),
{
    if s.len() == 0 {
        Map::empty()
    } else {
        let m = sub_map_of(s.drop_last());
        if s.last().sprite_type is Sub {
            m.insert(s.last().id, (s.len() - 1) as usize)
        } else {
            m
        }
    }
}

/// The base dependency: the sprite table is inspected at index 0 only,
/// so a `Base` sprite anywhere else goes undetected.
pub open spec fn base_dep_of(s: Seq<Sprite>) -> Option<usize>
    recommends
        s.len() > 0,
{
    if s[0].sprite_type is Base {
        Some(0usize)
    } else {
        None
    }
}

/// Extremes of the chunk placement offsets, accumulated from zero.
#[verifier::ext_equal]
pub ghost struct BBox {
    pub min_x: int,
    pub min_y: int,
    pub max_x: int,
    pub max_y: int,
}

/// Bounding box of the `img_x`/`img_y` offsets of `cs`. All four extrema
/// start at zero, so the box always contains the origin, whether or not
/// any chunk touches it.
pub open spec fn bbox_of(cs: Seq<Chunk>) -> BBox
    decreases cs.len(),
{
    if cs.len() == 0 {
        BBox { min_x: 0, min_y: 0, max_x: 0, max_y: 0 }
    } else {
        let b = bbox_of(cs.drop_last());
        let c = cs.last();
        BBox {
            min_x: vstd::math::min(b.min_x, c.img_x as int),
            min_y: vstd::math::min(b.min_y, c.img_y as int),
            max_x: vstd::math::max(b.max_x, c.img_x as int),
            max_y: vstd::math::max(b.max_y, c.img_y as int),
        }
    }
}

/// Canvas extent along one axis: the maximum plus the absolute value of
/// the minimum plus the fixed padding, reduced modulo 2^32 as storing it
/// in a 32-bit field does.
pub open spec fn canvas_len(mx: int, mn: int) -> u32 {
    ((mx + vstd::math::abs(mn) + SPRITE_SIZE_PAD) % 0x1_0000_0000) as u32
}

/// The finished model assembled from decoded sprite and chunk tables.
pub open spec fn assemble(sprites: Seq<Sprite>, chunks: Seq<Chunk>) -> LayModel
    recommends
        sprites.len() > 0,
{
    let b = bbox_of(chunks);
    LayModel {
        sprites,
        sub_map: sub_map_of(sprites),
        chunks,
        base_dep: base_dep_of(sprites),
        sprite_w: canvas_len(b.max_x, b.min_x),
        sprite_h: canvas_len(b.max_y, b.min_y),
        min_x: b.min_x,
        min_y: b.min_y,
        max_x: b.max_x,
        max_y: b.max_y,
    }
}

/// Law: every entry of the sub-sprite map points into the sprite table,
/// at a sprite whose variant is `Sub` and whose id is the entry's key.
pub proof fn lemma_sub_map_sound(s: Seq<Sprite>)
    requires
        s.len() <= usize::MAX,
    ensures
        forall|id: u8| #[trigger] sub_map_of(s).contains_key(id) ==> {
            &&& sub_map_of(s)[id] < s.len()
            &&& s[sub_map_of(s)[id] as int].sprite_type is Sub
            &&& s[sub_map_of(s)[id] as int].id == id
        },
    decreases s.len(),
{
    if s.len() > 0 {
        lemma_sub_map_sound(s.drop_last());
        assert forall|id: u8| #[trigger] sub_map_of(s).contains_key(id) implies {
            &&& sub_map_of(s)[id] < s.len()
            &&& s[sub_map_of(s)[id] as int].sprite_type is Sub
            &&& s[sub_map_of(s)[id] as int].id == id
        } by {
            let m0 = sub_map_of(s.drop_last());
            if s.last().sprite_type is Sub && s.last().id == id {
                assert(sub_map_of(s)[id] == (s.len() - 1) as usize);
            } else {
                assert(m0.contains_key(id));
                assert(sub_map_of(s)[id] == m0[id]);
                assert(s.drop_last()[m0[id] as int] == s[m0[id] as int]);
            }
        }
    }
}

/// Law: every `Sub` sprite is indexed: its id is a key of the sub-sprite
/// map, and the entry points at it or at a later `Sub` sprite that
/// overwrote it (last write wins).
pub proof fn lemma_sub_map_complete(s: Seq<Sprite>, i: int)
    requires
        s.len() <= usize::MAX,
        0 <= i < s.len(),
        s[i].sprite_type is Sub,
    ensures
        sub_map_of(s).contains_key(s[i].id),
        i <= sub_map_of(s)[s[i].id],
    decreases s.len(),
{
    if i == s.len() - 1 {
        assert(sub_map_of(s)[s[i].id] == (s.len() - 1) as usize);
    } else {
        assert(s.drop_last()[i] == s[i]);
        lemma_sub_map_complete(s.drop_last(), i);
    }
}

/// Law: the bounding box always contains the origin, and each extreme is
/// either zero or one of the stored 32-bit offsets, so all four stay in
/// 32-bit range.
pub proof fn lemma_bbox_bounds(cs: Seq<Chunk>)
    ensures
        i32::MIN <= bbox_of(cs).min_x <= 0,
        i32::MIN <= bbox_of(cs).min_y <= 0,
        0 <= bbox_of(cs).max_x <= i32::MAX,
        0 <= bbox_of(cs).max_y <= i32::MAX,
    decreases cs.len(),
{
    if cs.len() > 0 {
        lemma_bbox_bounds(cs.drop_last());
    }
}

} // verus!

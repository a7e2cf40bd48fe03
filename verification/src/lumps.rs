//! Decoders for the fixed-record binary lump formats. Each decoder turns
//! one named blob into a sequence of little-endian records, stopping when
//! the buffer is exhausted; a buffer that does not divide into whole
//! records is truncated. Indices decoded here are positional and not yet
//! validated.

use vstd::prelude::*;
use vstd::arithmetic::div_mod::lemma_fundamental_div_mod;
use vstd::string::StringExecFns;
use crate::assets::AssetFormat;
use crate::assets::DataSource;
use crate::bytes::le16;
use crate::bytes::le32;
use crate::bytes::read_i16;
use crate::bytes::read_i32;
use crate::bytes::read_u16;
use crate::bytes::parse_name8;
use crate::bytes::signed16;
use crate::bytes::spec_name8;
use crate::error::AssetError;
use crate::geom::AABB2;
use crate::geom::Side;
use crate::geom::Vec2;

verus! {

/// A 16-bit index field: `0xFFFF` means "no reference".
pub open spec fn spec_opt_index(v: int) -> Option<usize> {
    if v == 0xFFFF {
        None
    } else {
        Some(v as usize)
    }
}

fn opt_index(v: u16) -> (r: Option<usize>)
    ensures
        r == spec_opt_index(v as int),
{
    if v == 0xFFFF {
        None
    } else {
        Some(v as usize)
    }
}

/// A GL vertex reference: the high bit selects the auxiliary GL vertex
/// array, the low 15 bits are the index.
#[derive(Clone, Copy, Debug, PartialEq, Eq, Structural)]
pub enum EitherVertex {
    Normal(usize),
    GL(usize),
}

pub open spec fn spec_either_vertex(v: int) -> EitherVertex {
    if v >= 0x8000 {
        EitherVertex::GL((v - 0x8000) as usize)
    } else {
        EitherVertex::Normal(v as usize)
    }
}

fn either_vertex(v: u16) -> (r: EitherVertex)
    ensures
        r == spec_either_vertex(v as int),
{
    if v >= 0x8000 {
        EitherVertex::GL((v - 0x8000) as usize)
    } else {
        EitherVertex::Normal(v as usize)
    }
}

/// A BSP child reference: the high bit marks a leaf (subsector), the low
/// 15 bits are the index; otherwise it is an internal node index.
#[derive(Clone, Copy, Debug, PartialEq, Eq, Structural)]
pub enum NodeChild {
    Subsector(usize),
    Node(usize),
}

pub open spec fn spec_node_child(v: int) -> NodeChild {
    if v >= 0x8000 {
        NodeChild::Subsector((v - 0x8000) as usize)
    } else {
        NodeChild::Node(v as usize)
    }
}

fn node_child(v: u16) -> (r: NodeChild)
    ensures
        r == spec_node_child(v as int),
{
    if v >= 0x8000 {
        NodeChild::Subsector((v - 0x8000) as usize)
    } else {
        NodeChild::Node(v as usize)
    }
}

/// A linedef side field: 0 is the right side, anything else the left.
pub open spec fn spec_side(v: int) -> Side {
    if v == 0 {
        Side::Right
    } else {
        Side::Left
    }
}

fn side_of(v: u16) -> (r: Side)
    ensures
        r == spec_side(v as int),
{
    if v == 0 {
        Side::Right
    } else {
        Side::Left
    }
}

/// A raw map unit turned into a 16.16 fixed-point coordinate.
pub open spec fn spec_fixed(v: int) -> i32 {
    (0x10000 * signed16(v)) as i32
}

fn fixed_coord(b: &Vec<u8>, i: usize) -> (r: i32)
    requires
        i + 2 <= b.len(),
    ensures
        r == spec_fixed(le16(b@, i as int)),
{
    let v: i16 = read_i16(b, i);
    0x10000 * (v as i32)
}

/// Whether `s` (an `Option<String>`) holds the same text as `t`.
pub open spec fn opt_name_matches(s: Option<String>, t: Option<Seq<char>>) -> bool {
    match s {
        Some(s) => t is Some && s@ == t->0,
        None => t is None,
    }
}

// ---------------------------------------------------------------------
// Things: repeated {i16 x, i16 y, u16 angle, u16 type, u16 flags}.
// ---------------------------------------------------------------------

/// Flag bits of a thing record that the format defines.
pub const THING_FLAGS_MASK: u16 = 0x000F;

/// One decoded thing: a map object placement.
#[derive(Clone, Copy, Debug, PartialEq, Eq, Structural)]
pub struct ThingData {
    pub x: i16,
    pub y: i16,
    /// Facing, in degrees.
    pub angle: u16,
    /// The object type code ("doomednum").
    pub doomednum: u16,
    /// Spawn flags, truncated to the defined bits.
    pub flags: u16,
}

pub open spec fn spec_thing_at(b: Seq<u8>, base: int) -> ThingData {
    ThingData {
        x: signed16(le16(b, base)) as i16,
        y: signed16(le16(b, base + 2)) as i16,
        angle: le16(b, base + 4) as u16,
        doomednum: le16(b, base + 6) as u16,
        flags: (le16(b, base + 8) as u16) & THING_FLAGS_MASK,
    }
}

pub fn decode_things(b: &Vec<u8>) -> (r: Result<Vec<ThingData>, AssetError>)
    ensures
        r is Ok <==> b@.len() % 10 == 0,
        r is Err ==> r->Err_0 == AssetError::Truncated,
        r is Ok ==> r->Ok_0@.len() == b@.len() / 10 && forall|i: int|
            0 <= i < r->Ok_0@.len() ==> r->Ok_0@[i] == spec_thing_at(b@, 10 * i),
{
    if b.len() % 10 != 0 {
        return Err(AssetError::Truncated);
    }
    proof {
        lemma_fundamental_div_mod(b@.len() as int, 10);
    }
    let n: usize = b.len() / 10;
    let mut out: Vec<ThingData> = Vec::new();
    let mut i: usize = 0;
    while i < n
        invariant
            10 * n == b@.len(),
            10 * n <= usize::MAX,
            i <= n,
            out@.len() == i,
            forall|k: int| 0 <= k < i ==> out@[k] == spec_thing_at(b@, 10 * k),
        decreases n - i,
    {
        let base: usize = 10 * i;
        out.push(
            ThingData {
                x: read_i16(b, base),
                y: read_i16(b, base + 2),
                angle: read_u16(b, base + 4),
                doomednum: read_u16(b, base + 6),
                flags: read_u16(b, base + 8) & THING_FLAGS_MASK,
            },
        );
        i = i + 1;
    }
    Ok(out)
}

// ---------------------------------------------------------------------
// Linedefs: repeated {u16 v1, u16 v2, u16 flags, u16 special, u16 tag,
// u16 side0, u16 side1}; 0xFFFF means an absent side.
// ---------------------------------------------------------------------

/// Flag bits of a linedef that the format defines.
pub const LINEDEF_FLAGS_MASK: u16 = 0x00FF;

/// The linedef blocks everything.
pub const LINEDEF_BLOCKING: u16 = 0x0001;

/// The linedef blocks monsters.
pub const LINEDEF_BLOCKMONSTERS: u16 = 0x0002;

/// The linedef has two sides.
pub const LINEDEF_TWOSIDED: u16 = 0x0004;

/// One decoded linedef: a wall segment between two vertices with up to
/// two sidedef references.
#[derive(Clone, Copy, Debug, PartialEq, Eq, Structural)]
pub struct LinedefData {
    pub v1_index: usize,
    pub v2_index: usize,
    /// Flags, truncated to the defined bits.
    pub flags: u16,
    pub special_type: u16,
    pub sector_tag: u16,
    pub right_sidedef_index: Option<usize>,
    pub left_sidedef_index: Option<usize>,
}

impl LinedefData {
    /// The sidedef reference on the given side.
    pub fn sidedef_index(&self, side: Side) -> (r: Option<usize>)
        ensures
            r == self.spec_sidedef_index(side),
    {
        match side {
            Side::Right => self.right_sidedef_index,
            Side::Left => self.left_sidedef_index,
        }
    }

    pub open spec fn spec_sidedef_index(&self, side: Side) -> Option<usize> {
        match side {
            Side::Right => self.right_sidedef_index,
            Side::Left => self.left_sidedef_index,
        }
    }
}

pub open spec fn spec_linedef_at(b: Seq<u8>, base: int) -> LinedefData {
    LinedefData {
        v1_index: le16(b, base) as usize,
        v2_index: le16(b, base + 2) as usize,
        flags: (le16(b, base + 4) as u16) & LINEDEF_FLAGS_MASK,
        special_type: le16(b, base + 6) as u16,
        sector_tag: le16(b, base + 8) as u16,
        right_sidedef_index: spec_opt_index(le16(b, base + 10)),
        left_sidedef_index: spec_opt_index(le16(b, base + 12)),
    }
}

pub fn decode_linedefs(b: &Vec<u8>) -> (r: Result<Vec<LinedefData>, AssetError>)
    ensures
        r is Ok <==> b@.len() % 14 == 0,
        r is Err ==> r->Err_0 == AssetError::Truncated,
        r is Ok ==> r->Ok_0@.len() == b@.len() / 14 && forall|i: int|
            0 <= i < r->Ok_0@.len() ==> r->Ok_0@[i] == spec_linedef_at(b@, 14 * i),
{
    if b.len() % 14 != 0 {
        return Err(AssetError::Truncated);
    }
    proof {
        lemma_fundamental_div_mod(b@.len() as int, 14);
    }
    let n: usize = b.len() / 14;
    let mut out: Vec<LinedefData> = Vec::new();
    let mut i: usize = 0;
    while i < n
        invariant
            14 * n == b@.len(),
            14 * n <= usize::MAX,
            i <= n,
            out@.len() == i,
            forall|k: int| 0 <= k < i ==> out@[k] == spec_linedef_at(b@, 14 * k),
        decreases n - i,
    {
        let base: usize = 14 * i;
        out.push(
            LinedefData {
                v1_index: read_u16(b, base) as usize,
                v2_index: read_u16(b, base + 2) as usize,
                flags: read_u16(b, base + 4) & LINEDEF_FLAGS_MASK,
                special_type: read_u16(b, base + 6),
                sector_tag: read_u16(b, base + 8),
                right_sidedef_index: opt_index(read_u16(b, base + 10)),
                left_sidedef_index: opt_index(read_u16(b, base + 12)),
            },
        );
        i = i + 1;
    }
    Ok(out)
}

// ---------------------------------------------------------------------
// Sidedefs: repeated {i16 xoff, i16 yoff, char[8] top, char[8] bottom,
// char[8] middle, u16 sector}.
// ---------------------------------------------------------------------

/// One decoded sidedef: one wall face with its texture names and owning
/// sector reference.
#[derive(Clone, Debug)]
pub struct SidedefData {
    pub texture_offset_x: i16,
    pub texture_offset_y: i16,
    pub top_texture_name: Option<String>,
    pub bottom_texture_name: Option<String>,
    pub middle_texture_name: Option<String>,
    pub sector_index: usize,
}

/// Whether all three name fields of the record at `base` decode.
pub open spec fn spec_sidedef_ok(b: Seq<u8>, base: int) -> bool {
    spec_name8(b, base + 4) is Ok && spec_name8(b, base + 12) is Ok && spec_name8(b, base + 20)
        is Ok
}

/// Whether `d` is the decoding of the record at `base`.
pub open spec fn sidedef_matches(d: SidedefData, b: Seq<u8>, base: int) -> bool {
    &&& d.texture_offset_x as int == signed16(le16(b, base))
    &&& d.texture_offset_y as int == signed16(le16(b, base + 2))
    &&& opt_name_matches(d.top_texture_name, spec_name8(b, base + 4)->Ok_0)
    &&& opt_name_matches(d.bottom_texture_name, spec_name8(b, base + 12)->Ok_0)
    &&& opt_name_matches(d.middle_texture_name, spec_name8(b, base + 20)->Ok_0)
    &&& d.sector_index == le16(b, base + 28) as usize
}

pub fn decode_sidedefs(b: &Vec<u8>) -> (r: Result<Vec<SidedefData>, AssetError>)
    ensures
        r is Ok <==> b@.len() % 30 == 0 && (forall|i: int|
            0 <= i < b@.len() / 30 ==> #[trigger] spec_sidedef_ok(b@, 30 * i)),
        b@.len() % 30 != 0 ==> r == Err::<Vec<SidedefData>, AssetError>(AssetError::Truncated),
        r is Err && b@.len() % 30 == 0 ==> r->Err_0 == AssetError::InvalidText,
        r is Ok ==> r->Ok_0@.len() == b@.len() / 30 && forall|i: int|
            0 <= i < r->Ok_0@.len() ==> sidedef_matches(#[trigger] r->Ok_0@[i], b@, 30 * i),
{
    if b.len() % 30 != 0 {
        return Err(AssetError::Truncated);
    }
    proof {
        lemma_fundamental_div_mod(b@.len() as int, 30);
    }
    let n: usize = b.len() / 30;
    let mut out: Vec<SidedefData> = Vec::new();
    let mut i: usize = 0;
    while i < n
        invariant
            30 * n == b@.len(),
            30 * n <= usize::MAX,
            b@.len() % 30 == 0,
            i <= n,
            out@.len() == i,
            forall|k: int| 0 <= k < i ==> sidedef_matches(#[trigger] out@[k], b@, 30 * k),
            forall|k: int| 0 <= k < i ==> #[trigger] spec_sidedef_ok(b@, 30 * k),
        decreases n - i,
    {
        let base: usize = 30 * i;
        let top = match parse_name8(b, base + 4) {
            Ok(v) => v,
            Err(e) => {
                proof {
                    assert(!spec_sidedef_ok(b@, 30 * (i as int)));
                }
                return Err(e);
            },
        };
        let bottom = match parse_name8(b, base + 12) {
            Ok(v) => v,
            Err(e) => {
                proof {
                    assert(!spec_sidedef_ok(b@, 30 * (i as int)));
                }
                return Err(e);
            },
        };
        let middle = match parse_name8(b, base + 20) {
            Ok(v) => v,
            Err(e) => {
                proof {
                    assert(!spec_sidedef_ok(b@, 30 * (i as int)));
                }
                return Err(e);
            },
        };
        out.push(
            SidedefData {
                texture_offset_x: read_i16(b, base),
                texture_offset_y: read_i16(b, base + 2),
                top_texture_name: top,
                bottom_texture_name: bottom,
                middle_texture_name: middle,
                sector_index: read_u16(b, base + 28) as usize,
            },
        );
        i = i + 1;
    }
    Ok(out)
}

// ---------------------------------------------------------------------
// Vertexes: repeated {i16 x, i16 y}.
// ---------------------------------------------------------------------

pub open spec fn spec_vertex_at(b: Seq<u8>, base: int) -> Vec2 {
    Vec2 { x: spec_fixed(le16(b, base)), y: spec_fixed(le16(b, base + 2)) }
}

pub fn decode_vertexes(b: &Vec<u8>) -> (r: Result<Vec<Vec2>, AssetError>)
    ensures
        r is Ok <==> b@.len() % 4 == 0,
        r is Err ==> r->Err_0 == AssetError::Truncated,
        r is Ok ==> r->Ok_0@.len() == b@.len() / 4 && forall|i: int|
            0 <= i < r->Ok_0@.len() ==> r->Ok_0@[i] == spec_vertex_at(b@, 4 * i),
{
    if b.len() % 4 != 0 {
        return Err(AssetError::Truncated);
    }
    proof {
        lemma_fundamental_div_mod(b@.len() as int, 4);
    }
    let n: usize = b.len() / 4;
    let mut out: Vec<Vec2> = Vec::new();
    let mut i: usize = 0;
    while i < n
        invariant
            4 * n == b@.len(),
            4 * n <= usize::MAX,
            i <= n,
            out@.len() == i,
            forall|k: int| 0 <= k < i ==> out@[k] == spec_vertex_at(b@, 4 * k),
        decreases n - i,
    {
        let base: usize = 4 * i;
        out.push(Vec2 { x: fixed_coord(b, base), y: fixed_coord(b, base + 2) });
        i = i + 1;
    }
    Ok(out)
}

// ---------------------------------------------------------------------
// Sectors: repeated {i16 floor, i16 ceiling, char[8] floorflat,
// char[8] ceilflat, u16 light, u16 special, u16 tag}.
// ---------------------------------------------------------------------

/// One decoded sector: a floor region's heights, flat names, light level
/// and behaviour codes.
#[derive(Clone, Debug)]
pub struct SectorData {
    pub floor_height: i16,
    pub ceiling_height: i16,
    pub floor_flat_name: Option<String>,
    pub ceiling_flat_name: Option<String>,
    /// Raw light level, 0 to 255 of full brightness.
    pub light_level: u16,
    pub special_type: u16,
    pub sector_tag: u16,
}

pub open spec fn spec_sector_ok(b: Seq<u8>, base: int) -> bool {
    spec_name8(b, base + 4) is Ok && spec_name8(b, base + 12) is Ok
}

pub open spec fn sector_matches(d: SectorData, b: Seq<u8>, base: int) -> bool {
    &&& d.floor_height as int == signed16(le16(b, base))
    &&& d.ceiling_height as int == signed16(le16(b, base + 2))
    &&& opt_name_matches(d.floor_flat_name, spec_name8(b, base + 4)->Ok_0)
    &&& opt_name_matches(d.ceiling_flat_name, spec_name8(b, base + 12)->Ok_0)
    &&& d.light_level as int == le16(b, base + 20)
    &&& d.special_type as int == le16(b, base + 22)
    &&& d.sector_tag as int == le16(b, base + 24)
}

pub fn decode_sectors(b: &Vec<u8>) -> (r: Result<Vec<SectorData>, AssetError>)
    ensures
        r is Ok <==> b@.len() % 26 == 0 && (forall|i: int|
            0 <= i < b@.len() / 26 ==> #[trigger] spec_sector_ok(b@, 26 * i)),
        b@.len() % 26 != 0 ==> r == Err::<Vec<SectorData>, AssetError>(AssetError::Truncated),
        r is Err && b@.len() % 26 == 0 ==> r->Err_0 == AssetError::InvalidText,
        r is Ok ==> r->Ok_0@.len() == b@.len() / 26 && forall|i: int|
            0 <= i < r->Ok_0@.len() ==> sector_matches(#[trigger] r->Ok_0@[i], b@, 26 * i),
{
    if b.len() % 26 != 0 {
        return Err(AssetError::Truncated);
    }
    proof {
        lemma_fundamental_div_mod(b@.len() as int, 26);
    }
    let n: usize = b.len() / 26;
    let mut out: Vec<SectorData> = Vec::new();
    let mut i: usize = 0;
    while i < n
        invariant
            26 * n == b@.len(),
            26 * n <= usize::MAX,
            b@.len() % 26 == 0,
            i <= n,
            out@.len() == i,
            forall|k: int| 0 <= k < i ==> sector_matches(#[trigger] out@[k], b@, 26 * k),
            forall|k: int| 0 <= k < i ==> #[trigger] spec_sector_ok(b@, 26 * k),
        decreases n - i,
    {
        let base: usize = 26 * i;
        let floor_flat = match parse_name8(b, base + 4) {
            Ok(v) => v,
            Err(e) => {
                proof {
                    assert(!spec_sector_ok(b@, 26 * (i as int)));
                }
                return Err(e);
            },
        };
        let ceiling_flat = match parse_name8(b, base + 12) {
            Ok(v) => v,
            Err(e) => {
                proof {
                    assert(!spec_sector_ok(b@, 26 * (i as int)));
                }
                return Err(e);
            },
        };
        out.push(
            SectorData {
                floor_height: read_i16(b, base),
                ceiling_height: read_i16(b, base + 2),
                floor_flat_name: floor_flat,
                ceiling_flat_name: ceiling_flat,
                light_level: read_u16(b, base + 20),
                special_type: read_u16(b, base + 22),
                sector_tag: read_u16(b, base + 24),
            },
        );
        i = i + 1;
    }
    Ok(out)
}

// ---------------------------------------------------------------------
// GL vertexes: the 4-byte magic "gNd2", then repeated {i32 x, i32 y} as
// 16.16 fixed-point.
// ---------------------------------------------------------------------

/// Whether the blob starts with the GL vertex signature.
pub open spec fn spec_gl_magic(b: Seq<u8>) -> bool {
    b.len() >= 4 && b[0] == 0x67 && b[1] == 0x4E && b[2] == 0x64 && b[3] == 0x32
}

pub open spec fn spec_gl_vertex_at(b: Seq<u8>, base: int) -> Vec2 {
    Vec2 {
        x: crate::bytes::signed32(le32(b, base)) as i32,
        y: crate::bytes::signed32(le32(b, base + 4)) as i32,
    }
}

pub fn decode_gl_vertexes(b: &Vec<u8>) -> (r: Result<Vec<Vec2>, AssetError>)
    ensures
        r is Ok <==> spec_gl_magic(b@) && (b@.len() - 4) % 8 == 0,
        b@.len() < 4 ==> r == Err::<Vec<Vec2>, AssetError>(AssetError::Truncated),
        b@.len() >= 4 && !spec_gl_magic(b@) ==> r == Err::<Vec<Vec2>, AssetError>(
            AssetError::BadMagic,
        ),
        spec_gl_magic(b@) && (b@.len() - 4) % 8 != 0 ==> r == Err::<Vec<Vec2>, AssetError>(
            AssetError::Truncated,
        ),
        r is Ok ==> r->Ok_0@.len() == (b@.len() - 4) / 8 && forall|i: int|
            0 <= i < r->Ok_0@.len() ==> r->Ok_0@[i] == spec_gl_vertex_at(b@, 4 + 8 * i),
{
    if b.len() < 4 {
        return Err(AssetError::Truncated);
    }
    if !(b[0] == 0x67 && b[1] == 0x4E && b[2] == 0x64 && b[3] == 0x32) {
        return Err(AssetError::BadMagic);
    }
    let rest: usize = b.len() - 4;
    if rest % 8 != 0 {
        return Err(AssetError::Truncated);
    }
    proof {
        lemma_fundamental_div_mod(rest as int, 8);
    }
    let n: usize = rest / 8;
    let mut out: Vec<Vec2> = Vec::new();
    let mut i: usize = 0;
    while i < n
        invariant
            8 * n + 4 == b@.len(),
            8 * n + 4 <= usize::MAX,
            i <= n,
            out@.len() == i,
            forall|k: int| 0 <= k < i ==> out@[k] == spec_gl_vertex_at(b@, 4 + 8 * k),
        decreases n - i,
    {
        let base: usize = 4 + 8 * i;
        out.push(Vec2 { x: read_i32(b, base), y: read_i32(b, base + 4) });
        i = i + 1;
    }
    Ok(out)
}

// ---------------------------------------------------------------------
// GL segs: repeated {u16 v1, u16 v2 (bit 15 = GL vertex), u16 linedef
// (0xFFFF = absent), u16 side (0 = right), u16 partner (0xFFFF = absent)}.
// ---------------------------------------------------------------------

/// One decoded GL seg: a directed subsector edge.
#[derive(Clone, Copy, Debug, PartialEq, Eq, Structural)]
pub struct GLSegData {
    pub start_vertex: EitherVertex,
    pub end_vertex: EitherVertex,
    pub linedef_index: Option<usize>,
    pub linedef_side: Side,
    pub partner_seg_index: Option<usize>,
}

pub open spec fn spec_gl_seg_at(b: Seq<u8>, base: int) -> GLSegData {
    GLSegData {
        start_vertex: spec_either_vertex(le16(b, base)),
        end_vertex: spec_either_vertex(le16(b, base + 2)),
        linedef_index: spec_opt_index(le16(b, base + 4)),
        linedef_side: spec_side(le16(b, base + 6)),
        partner_seg_index: spec_opt_index(le16(b, base + 8)),
    }
}

pub fn decode_gl_segs(b: &Vec<u8>) -> (r: Result<Vec<GLSegData>, AssetError>)
    ensures
        r is Ok <==> b@.len() % 10 == 0,
        r is Err ==> r->Err_0 == AssetError::Truncated,
        r is Ok ==> r->Ok_0@.len() == b@.len() / 10 && forall|i: int|
            0 <= i < r->Ok_0@.len() ==> r->Ok_0@[i] == spec_gl_seg_at(b@, 10 * i),
{
    if b.len() % 10 != 0 {
        return Err(AssetError::Truncated);
    }
    proof {
        lemma_fundamental_div_mod(b@.len() as int, 10);
    }
    let n: usize = b.len() / 10;
    let mut out: Vec<GLSegData> = Vec::new();
    let mut i: usize = 0;
    while i < n
        invariant
            10 * n == b@.len(),
            10 * n <= usize::MAX,
            i <= n,
            out@.len() == i,
            forall|k: int| 0 <= k < i ==> out@[k] == spec_gl_seg_at(b@, 10 * k),
        decreases n - i,
    {
        let base: usize = 10 * i;
        out.push(
            GLSegData {
                start_vertex: either_vertex(read_u16(b, base)),
                end_vertex: either_vertex(read_u16(b, base + 2)),
                linedef_index: opt_index(read_u16(b, base + 4)),
                linedef_side: side_of(read_u16(b, base + 6)),
                partner_seg_index: opt_index(read_u16(b, base + 8)),
            },
        );
        i = i + 1;
    }
    Ok(out)
}

// ---------------------------------------------------------------------
// GL subsectors: repeated {u16 seg count, u16 first seg index}.
// ---------------------------------------------------------------------

/// One decoded GL subsector: a contiguous range of segs.
#[derive(Clone, Copy, Debug, PartialEq, Eq, Structural)]
pub struct GLSSectData {
    pub seg_count: usize,
    pub first_seg_index: usize,
}

pub open spec fn spec_gl_ssect_at(b: Seq<u8>, base: int) -> GLSSectData {
    GLSSectData {
        seg_count: le16(b, base) as usize,
        first_seg_index: le16(b, base + 2) as usize,
    }
}

pub fn decode_gl_ssect(b: &Vec<u8>) -> (r: Result<Vec<GLSSectData>, AssetError>)
    ensures
        r is Ok <==> b@.len() % 4 == 0,
        r is Err ==> r->Err_0 == AssetError::Truncated,
        r is Ok ==> r->Ok_0@.len() == b@.len() / 4 && forall|i: int|
            0 <= i < r->Ok_0@.len() ==> r->Ok_0@[i] == spec_gl_ssect_at(b@, 4 * i),
{
    if b.len() % 4 != 0 {
        return Err(AssetError::Truncated);
    }
    proof {
        lemma_fundamental_div_mod(b@.len() as int, 4);
    }
    let n: usize = b.len() / 4;
    let mut out: Vec<GLSSectData> = Vec::new();
    let mut i: usize = 0;
    while i < n
        invariant
            4 * n == b@.len(),
            4 * n <= usize::MAX,
            i <= n,
            out@.len() == i,
            forall|k: int| 0 <= k < i ==> out@[k] == spec_gl_ssect_at(b@, 4 * k),
        decreases n - i,
    {
        let base: usize = 4 * i;
        out.push(
            GLSSectData {
                seg_count: read_u16(b, base) as usize,
                first_seg_index: read_u16(b, base + 2) as usize,
            },
        );
        i = i + 1;
    }
    Ok(out)
}

// ---------------------------------------------------------------------
// GL nodes: repeated {i16 x, y, dx, dy, two child boxes of 4 x i16
// (top, bottom, left, right), two u16 children (bit 15 = leaf)}.
// ---------------------------------------------------------------------

/// A child bounding box given as top, bottom, left, right map units.
pub open spec fn spec_bbox_extents(top: int, bottom: int, left: int, right: int) -> AABB2 {
    AABB2 {
        min: Vec2 { x: spec_fixed(left), y: spec_fixed(bottom) },
        max: Vec2 { x: spec_fixed(right), y: spec_fixed(top) },
    }
}

/// One decoded GL node: a BSP partition line, its children's boxes and
/// the two child references (source order: leaf-to-root).
#[derive(Clone, Copy, Debug, PartialEq, Eq, Structural)]
pub struct GLNodeData {
    pub partition_point: Vec2,
    pub partition_dir: Vec2,
    pub right_bbox: AABB2,
    pub left_bbox: AABB2,
    pub right_child: NodeChild,
    pub left_child: NodeChild,
}

pub open spec fn spec_gl_node_at(b: Seq<u8>, base: int) -> GLNodeData {
    GLNodeData {
        partition_point: Vec2 { x: spec_fixed(le16(b, base)), y: spec_fixed(le16(b, base + 2)) },
        partition_dir: Vec2 { x: spec_fixed(le16(b, base + 4)), y: spec_fixed(le16(b, base + 6)) },
        right_bbox: spec_bbox_extents(
            le16(b, base + 8),
            le16(b, base + 10),
            le16(b, base + 12),
            le16(b, base + 14),
        ),
        left_bbox: spec_bbox_extents(
            le16(b, base + 16),
            le16(b, base + 18),
            le16(b, base + 20),
            le16(b, base + 22),
        ),
        right_child: spec_node_child(le16(b, base + 24)),
        left_child: spec_node_child(le16(b, base + 26)),
    }
}

fn bbox_extents(b: &Vec<u8>, i: usize) -> (r: AABB2)
    requires
        i + 8 <= b.len(),
    ensures
        r == spec_bbox_extents(
            le16(b@, i as int),
            le16(b@, i as int + 2),
            le16(b@, i as int + 4),
            le16(b@, i as int + 6),
        ),
{
    AABB2 {
        min: Vec2 { x: fixed_coord(b, i + 4), y: fixed_coord(b, i + 2) },
        max: Vec2 { x: fixed_coord(b, i + 6), y: fixed_coord(b, i) },
    }
}

pub fn decode_gl_nodes(b: &Vec<u8>) -> (r: Result<Vec<GLNodeData>, AssetError>)
    ensures
        r is Ok <==> b@.len() % 28 == 0,
        r is Err ==> r->Err_0 == AssetError::Truncated,
        r is Ok ==> r->Ok_0@.len() == b@.len() / 28 && forall|i: int|
            0 <= i < r->Ok_0@.len() ==> r->Ok_0@[i] == spec_gl_node_at(b@, 28 * i),
{
    if b.len() % 28 != 0 {
        return Err(AssetError::Truncated);
    }
    proof {
        lemma_fundamental_div_mod(b@.len() as int, 28);
    }
    let n: usize = b.len() / 28;
    let mut out: Vec<GLNodeData> = Vec::new();
    let mut i: usize = 0;
    while i < n
        invariant
            28 * n == b@.len(),
            28 * n <= usize::MAX,
            i <= n,
            out@.len() == i,
            forall|k: int| 0 <= k < i ==> out@[k] == spec_gl_node_at(b@, 28 * k),
        decreases n - i,
    {
        let base: usize = 28 * i;
        out.push(
            GLNodeData {
                partition_point: Vec2 { x: fixed_coord(b, base), y: fixed_coord(b, base + 2) },
                partition_dir: Vec2 { x: fixed_coord(b, base + 4), y: fixed_coord(b, base + 6) },
                right_bbox: bbox_extents(b, base + 8),
                left_bbox: bbox_extents(b, base + 16),
                right_child: node_child(read_u16(b, base + 24)),
                left_child: node_child(read_u16(b, base + 26)),
            },
        );
        i = i + 1;
    }
    Ok(out)
}

/// The lump path convention of the archive: the `k`-th lump after the
/// named marker is read as `name/+k`.
pub fn lump_path(name: &str, suffix: &str) -> (r: String)
    ensures
        r@ == name@ + suffix@,
{
    String::from_str(name).concat(suffix)
}

/// The things lump of the level `name`.
#[derive(Clone, Copy, Debug)]
pub struct ThingsFormat;

impl AssetFormat for ThingsFormat {
    type Asset = Vec<ThingData>;

    fn import<S: DataSource>(&self, name: &str, source: &S) -> Result<Vec<ThingData>, AssetError> {
        let b = match source.load(lump_path(name, "/+1").as_str()) {
            Ok(b) => b,
            Err(e) => {
                return Err(e);
            },
        };
        decode_things(&b)
    }
}

/// The linedefs lump of the level `name`.
#[derive(Clone, Copy, Debug)]
pub struct LinedefsFormat;

impl AssetFormat for LinedefsFormat {
    type Asset = Vec<LinedefData>;

    fn import<S: DataSource>(&self, name: &str, source: &S) -> Result<
        Vec<LinedefData>,
        AssetError,
    > {
        let b = match source.load(lump_path(name, "/+2").as_str()) {
            Ok(b) => b,
            Err(e) => {
                return Err(e);
            },
        };
        decode_linedefs(&b)
    }
}

/// The sidedefs lump of the level `name`.
#[derive(Clone, Copy, Debug)]
pub struct SidedefsFormat;

impl AssetFormat for SidedefsFormat {
    type Asset = Vec<SidedefData>;

    fn import<S: DataSource>(&self, name: &str, source: &S) -> Result<
        Vec<SidedefData>,
        AssetError,
    > {
        let b = match source.load(lump_path(name, "/+3").as_str()) {
            Ok(b) => b,
            Err(e) => {
                return Err(e);
            },
        };
        decode_sidedefs(&b)
    }
}

/// The vertexes lump of the level `name`.
#[derive(Clone, Copy, Debug)]
pub struct VertexesFormat;

impl AssetFormat for VertexesFormat {
    type Asset = Vec<Vec2>;

    fn import<S: DataSource>(&self, name: &str, source: &S) -> Result<Vec<Vec2>, AssetError> {
        let b = match source.load(lump_path(name, "/+4").as_str()) {
            Ok(b) => b,
            Err(e) => {
                return Err(e);
            },
        };
        decode_vertexes(&b)
    }
}

/// The sectors lump of the level `name`.
#[derive(Clone, Copy, Debug)]
pub struct SectorsFormat;

impl AssetFormat for SectorsFormat {
    type Asset = Vec<SectorData>;

    fn import<S: DataSource>(&self, name: &str, source: &S) -> Result<
        Vec<SectorData>,
        AssetError,
    > {
        let b = match source.load(lump_path(name, "/+8").as_str()) {
            Ok(b) => b,
            Err(e) => {
                return Err(e);
            },
        };
        decode_sectors(&b)
    }
}

/// The GL vertex lump of the GL companion level `name`.
#[derive(Clone, Copy, Debug)]
pub struct GLVertFormat;

impl AssetFormat for GLVertFormat {
    type Asset = Vec<Vec2>;

    fn import<S: DataSource>(&self, name: &str, source: &S) -> Result<Vec<Vec2>, AssetError> {
        let b = match source.load(lump_path(name, "/+1").as_str()) {
            Ok(b) => b,
            Err(e) => {
                return Err(e);
            },
        };
        decode_gl_vertexes(&b)
    }
}

/// The GL segs lump of the GL companion level `name`.
#[derive(Clone, Copy, Debug)]
pub struct GLSegsFormat;

impl AssetFormat for GLSegsFormat {
    type Asset = Vec<GLSegData>;

    fn import<S: DataSource>(&self, name: &str, source: &S) -> Result<Vec<GLSegData>, AssetError> {
        let b = match source.load(lump_path(name, "/+2").as_str()) {
            Ok(b) => b,
            Err(e) => {
                return Err(e);
            },
        };
        decode_gl_segs(&b)
    }
}

/// The GL subsectors lump of the GL companion level `name`.
#[derive(Clone, Copy, Debug)]
pub struct GLSSectFormat;

impl AssetFormat for GLSSectFormat {
    type Asset = Vec<GLSSectData>;

    fn import<S: DataSource>(&self, name: &str, source: &S) -> Result<
        Vec<GLSSectData>,
        AssetError,
    > {
        let b = match source.load(lump_path(name, "/+3").as_str()) {
            Ok(b) => b,
            Err(e) => {
                return Err(e);
            },
        };
        decode_gl_ssect(&b)
    }
}

/// The GL nodes lump of the GL companion level `name`.
#[derive(Clone, Copy, Debug)]
pub struct GLNodesFormat;

impl AssetFormat for GLNodesFormat {
    type Asset = Vec<GLNodeData>;

    fn import<S: DataSource>(&self, name: &str, source: &S) -> Result<
        Vec<GLNodeData>,
        AssetError,
    > {
        let b = match source.load(lump_path(name, "/+4").as_str()) {
            Ok(b) => b,
            Err(e) => {
                return Err(e);
            },
        };
        decode_gl_nodes(&b)
    }
}

} // verus!

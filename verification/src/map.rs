//! The map asset: the decoded-but-unvalidated lump aggregate, the
//! cross-reference validator, and the final queryable map value.

use vstd::prelude::*;
use vstd::string::StringExecFns;
use crate::assets::Asset;
use crate::assets::DataSource;
use crate::error::AssetError;
use crate::error::RefKind;
use crate::geom::AABB2;
use crate::geom::Dir2;
use crate::geom::Line2;
use crate::geom::Plane;
use crate::geom::Side;
use crate::geom::Vec2;
use crate::handle::AssetHandle;
use crate::lumps::EitherVertex;
use crate::lumps::GLNodeData;
use crate::lumps::GLSSectData;
use crate::lumps::GLSegData;
use crate::lumps::LinedefData;
use crate::lumps::NodeChild;
use crate::lumps::SectorData;
use crate::lumps::SidedefData;
use crate::assets::AssetFormat;
use crate::lumps::GLNodesFormat;
use crate::lumps::GLSSectFormat;
use crate::lumps::GLSegsFormat;
use crate::lumps::GLVertFormat;
use crate::lumps::LinedefsFormat;
use crate::lumps::SectorsFormat;
use crate::lumps::SidedefsFormat;
use crate::lumps::VertexesFormat;
use crate::textures::Flat;
use crate::textures::TextureType;
use crate::textures::WallTexture;

verus! {

/// A closed height range, from floor to ceiling, in map units.
#[derive(Clone, Copy, Debug, PartialEq, Eq, Structural)]
pub struct Interval {
    pub min: i16,
    pub max: i16,
}

/// No collision class is blocked.
pub const SOLID_MASK_EMPTY: u16 = 0;

/// The player collision class.
pub const SOLID_MASK_PLAYER: u16 = 1;

/// The monster collision class.
pub const SOLID_MASK_MONSTER: u16 = 2;

/// Every collision class.
pub const SOLID_MASK_ALL: u16 = 3;

/// The raw decoded arrays of one level, with positional indices not yet
/// validated.
pub struct MapData {
    pub linedefs: Vec<LinedefData>,
    pub sidedefs: Vec<SidedefData>,
    pub vertexes: Vec<Vec2>,
    pub sectors: Vec<SectorData>,
    pub gl_vert: Vec<Vec2>,
    pub gl_segs: Vec<GLSegData>,
    pub gl_ssect: Vec<GLSSectData>,
    pub gl_nodes: Vec<GLNodeData>,
}

/// Whether one decoded sidedef's sector reference is in bounds.
pub open spec fn sidedef_ok(d: &MapData, i: int) -> bool {
    d.sidedefs@[i].sector_index < d.sectors@.len()
}

/// Whether one decoded linedef's vertex and sidedef references are in
/// bounds.
pub open spec fn linedef_ok(d: &MapData, i: int) -> bool {
    &&& d.linedefs@[i].v1_index < d.vertexes@.len()
    &&& d.linedefs@[i].v2_index < d.vertexes@.len()
    &&& (d.linedefs@[i].right_sidedef_index matches Some(x) ==> x < d.sidedefs@.len())
    &&& (d.linedefs@[i].left_sidedef_index matches Some(x) ==> x < d.sidedefs@.len())
}

/// Whether one vertex reference is in bounds of the array its tag
/// selects.
pub open spec fn vertex_ref_ok(d: &MapData, v: EitherVertex) -> bool {
    match v {
        EitherVertex::Normal(x) => x < d.vertexes@.len(),
        EitherVertex::GL(x) => x < d.gl_vert@.len(),
    }
}

/// Whether one decoded seg's references are in bounds.
pub open spec fn seg_ok(d: &MapData, i: int) -> bool {
    &&& (d.gl_segs@[i].linedef_index matches Some(x) ==> x < d.linedefs@.len())
    &&& vertex_ref_ok(d, d.gl_segs@[i].start_vertex)
    &&& vertex_ref_ok(d, d.gl_segs@[i].end_vertex)
    &&& (d.gl_segs@[i].partner_seg_index matches Some(x) ==> x < d.gl_segs@.len())
}

/// Whether one decoded subsector's seg range lies inside the seg array.
pub open spec fn ssect_ok(d: &MapData, i: int) -> bool {
    &&& d.gl_ssect@[i].first_seg_index < d.gl_segs@.len()
    &&& d.gl_ssect@[i].first_seg_index + d.gl_ssect@[i].seg_count <= d.gl_segs@.len()
}

/// Whether one child reference is in bounds.
pub open spec fn child_ok(d: &MapData, c: NodeChild) -> bool {
    match c {
        NodeChild::Subsector(x) => x < d.gl_ssect@.len(),
        NodeChild::Node(x) => x < d.gl_nodes@.len(),
    }
}

/// Whether one decoded node's child references are in bounds.
pub open spec fn node_ok(d: &MapData, i: int) -> bool {
    child_ok(d, d.gl_nodes@[i].right_child) && child_ok(d, d.gl_nodes@[i].left_child)
}

/// Whether every positional index decoded into `d` is strictly within
/// the bounds of the array it points into.
pub open spec fn map_data_wf(d: &MapData) -> bool {
    &&& forall|i: int| 0 <= i < d.sidedefs@.len() ==> #[trigger] sidedef_ok(d, i)
    &&& forall|i: int| 0 <= i < d.linedefs@.len() ==> #[trigger] linedef_ok(d, i)
    &&& forall|i: int| 0 <= i < d.gl_segs@.len() ==> #[trigger] seg_ok(d, i)
    &&& forall|i: int| 0 <= i < d.gl_ssect@.len() ==> #[trigger] ssect_ok(d, i)
    &&& forall|i: int| 0 <= i < d.gl_nodes@.len() ==> #[trigger] node_ok(d, i)
}

/// Whether `e` truthfully reports an out-of-range reference in `d`: the
/// named record exists and holds the named out-of-range value.
pub open spec fn reports_violation(d: &MapData, e: AssetError) -> bool {
    match e {
        AssetError::BadReference { kind, record, value } => {
            let i = record as int;
            match kind {
                RefKind::SidedefSector => i < d.sidedefs@.len() && d.sidedefs@[i].sector_index
                    == value && value >= d.sectors@.len(),
                RefKind::LinedefVertex => i < d.linedefs@.len() && (d.linedefs@[i].v1_index == value
                    || d.linedefs@[i].v2_index == value) && value >= d.vertexes@.len(),
                RefKind::LinedefSidedef => i < d.linedefs@.len() && (d.linedefs@[i].right_sidedef_index
                    == Some(value) || d.linedefs@[i].left_sidedef_index == Some(value)) && value
                    >= d.sidedefs@.len(),
                RefKind::SegLinedef => i < d.gl_segs@.len() && d.gl_segs@[i].linedef_index == Some(
                    value,
                ) && value >= d.linedefs@.len(),
                RefKind::SegVertex => i < d.gl_segs@.len() && {
                    ||| (d.gl_segs@[i].start_vertex == EitherVertex::Normal(value) && value
                        >= d.vertexes@.len())
                    ||| (d.gl_segs@[i].start_vertex == EitherVertex::GL(value) && value
                        >= d.gl_vert@.len())
                    ||| (d.gl_segs@[i].end_vertex == EitherVertex::Normal(value) && value
                        >= d.vertexes@.len())
                    ||| (d.gl_segs@[i].end_vertex == EitherVertex::GL(value) && value
                        >= d.gl_vert@.len())
                },
                RefKind::SegPartner => i < d.gl_segs@.len() && d.gl_segs@[i].partner_seg_index
                    == Some(value) && value >= d.gl_segs@.len(),
                RefKind::SubsectorFirstSeg => i < d.gl_ssect@.len()
                    && d.gl_ssect@[i].first_seg_index == value && value >= d.gl_segs@.len(),
                RefKind::SubsectorSegCount => i < d.gl_ssect@.len() && d.gl_ssect@[i].seg_count
                    == value && d.gl_ssect@[i].first_seg_index + value > d.gl_segs@.len(),
                RefKind::NodeChildSubsector => i < d.gl_nodes@.len() && (
                d.gl_nodes@[i].right_child == NodeChild::Subsector(value)
                    || d.gl_nodes@[i].left_child == NodeChild::Subsector(value)) && value
                    >= d.gl_ssect@.len(),
                RefKind::NodeChildNode => i < d.gl_nodes@.len() && (d.gl_nodes@[i].right_child
                    == NodeChild::Node(value) || d.gl_nodes@[i].left_child == NodeChild::Node(value))
                    && value >= d.gl_nodes@.len(),
                RefKind::TexturePatchName => false,
            }
        },
        _ => false,
    }
}

/// Decoded lump data whose cross-references have all been validated.
pub struct ValidMapData {
    d: MapData,
}

impl View for ValidMapData {
    type V = MapData;

    closed spec fn view(&self) -> MapData {
        self.d
    }
}

impl ValidMapData {
    #[verifier::type_invariant]
    closed spec fn type_inv(self) -> bool {
        map_data_wf(&self.d)
    }

    /// Read access to the validated arrays.
    pub fn data(&self) -> (r: &MapData)
        ensures
            *r == self@,
            map_data_wf(&self@),
    {
        proof {
            use_type_invariant(self);
        }
        &self.d
    }

    /// Take the validated arrays out.
    pub fn into_inner(self) -> (r: MapData)
        ensures
            r == self@,
            map_data_wf(&self@),
    {
        proof {
            use_type_invariant(&self);
        }
        self.d
    }
}

impl MapData {
    /// The Cross-Reference Validator: accepts exactly when every decoded
    /// index is within its target array's bounds, checking sidedefs,
    /// linedefs, segs, subsector ranges and node children in that order.
    /// The first violation rejects the whole import, naming the offending
    /// record and value; no partially validated data is ever produced.
    pub fn validate(self) -> (r: Result<ValidMapData, AssetError>)
        ensures
            r is Ok <==> map_data_wf(&self),
            r is Ok ==> r->Ok_0@ == self,
            r is Err ==> reports_violation(&self, r->Err_0),
    {
        let mut i: usize = 0;
        while i < self.sidedefs.len()
            invariant
                i <= self.sidedefs@.len(),
                forall|k: int| 0 <= k < i ==> #[trigger] sidedef_ok(&self, k),
            decreases self.sidedefs@.len() - i,
        {
            if self.sidedefs[i].sector_index >= self.sectors.len() {
                proof {
                    assert(!sidedef_ok(&self, i as int));
                }
                return Err(
                    AssetError::BadReference {
                        kind: RefKind::SidedefSector,
                        record: i,
                        value: self.sidedefs[i].sector_index,
                    },
                );
            }
            i = i + 1;
        }
        let mut i: usize = 0;
        while i < self.linedefs.len()
            invariant
                i <= self.linedefs@.len(),
                forall|k: int| 0 <= k < i ==> #[trigger] linedef_ok(&self, k),
            decreases self.linedefs@.len() - i,
        {
            let ld = &self.linedefs[i];
            if ld.v1_index >= self.vertexes.len() {
                proof {
                    assert(!linedef_ok(&self, i as int));
                }
                return Err(
                    AssetError::BadReference {
                        kind: RefKind::LinedefVertex,
                        record: i,
                        value: ld.v1_index,
                    },
                );
            }
            if ld.v2_index >= self.vertexes.len() {
                proof {
                    assert(!linedef_ok(&self, i as int));
                }
                return Err(
                    AssetError::BadReference {
                        kind: RefKind::LinedefVertex,
                        record: i,
                        value: ld.v2_index,
                    },
                );
            }
            match ld.right_sidedef_index {
                Some(x) => {
                    if x >= self.sidedefs.len() {
                        proof {
                            assert(!linedef_ok(&self, i as int));
                        }
                        return Err(
                            AssetError::BadReference {
                                kind: RefKind::LinedefSidedef,
                                record: i,
                                value: x,
                            },
                        );
                    }
                },
                None => {},
            }
            match ld.left_sidedef_index {
                Some(x) => {
                    if x >= self.sidedefs.len() {
                        proof {
                            assert(!linedef_ok(&self, i as int));
                        }
                        return Err(
                            AssetError::BadReference {
                                kind: RefKind::LinedefSidedef,
                                record: i,
                                value: x,
                            },
                        );
                    }
                },
                None => {},
            }
            i = i + 1;
        }
        let mut i: usize = 0;
        while i < self.gl_segs.len()
            invariant
                i <= self.gl_segs@.len(),
                forall|k: int| 0 <= k < i ==> #[trigger] seg_ok(&self, k),
            decreases self.gl_segs@.len() - i,
        {
            let seg = &self.gl_segs[i];
            match seg.linedef_index {
                Some(x) => {
                    if x >= self.linedefs.len() {
                        proof {
                            assert(!seg_ok(&self, i as int));
                        }
                        return Err(
                            AssetError::BadReference {
                                kind: RefKind::SegLinedef,
                                record: i,
                                value: x,
                            },
                        );
                    }
                },
                None => {},
            }
            match seg.start_vertex {
                EitherVertex::Normal(x) => {
                    if x >= self.vertexes.len() {
                        proof {
                            assert(!seg_ok(&self, i as int));
                        }
                        return Err(
                            AssetError::BadReference {
                                kind: RefKind::SegVertex,
                                record: i,
                                value: x,
                            },
                        );
                    }
                },
                EitherVertex::GL(x) => {
                    if x >= self.gl_vert.len() {
                        proof {
                            assert(!seg_ok(&self, i as int));
                        }
                        return Err(
                            AssetError::BadReference {
                                kind: RefKind::SegVertex,
                                record: i,
                                value: x,
                            },
                        );
                    }
                },
            }
            match seg.end_vertex {
                EitherVertex::Normal(x) => {
                    if x >= self.vertexes.len() {
                        proof {
                            assert(!seg_ok(&self, i as int));
                        }
                        return Err(
                            AssetError::BadReference {
                                kind: RefKind::SegVertex,
                                record: i,
                                value: x,
                            },
                        );
                    }
                },
                EitherVertex::GL(x) => {
                    if x >= self.gl_vert.len() {
                        proof {
                            assert(!seg_ok(&self, i as int));
                        }
                        return Err(
                            AssetError::BadReference {
                                kind: RefKind::SegVertex,
                                record: i,
                                value: x,
                            },
                        );
                    }
                },
            }
            match seg.partner_seg_index {
                Some(x) => {
                    if x >= self.gl_segs.len() {
                        proof {
                            assert(!seg_ok(&self, i as int));
                        }
                        return Err(
                            AssetError::BadReference {
                                kind: RefKind::SegPartner,
                                record: i,
                                value: x,
                            },
                        );
                    }
                },
                None => {},
            }
            i = i + 1;
        }
        let mut i: usize = 0;
        while i < self.gl_ssect.len()
            invariant
                i <= self.gl_ssect@.len(),
                forall|k: int| 0 <= k < i ==> #[trigger] ssect_ok(&self, k),
            decreases self.gl_ssect@.len() - i,
        {
            let ss = &self.gl_ssect[i];
            if ss.first_seg_index >= self.gl_segs.len() {
                proof {
                    assert(!ssect_ok(&self, i as int));
                }
                return Err(
                    AssetError::BadReference {
                        kind: RefKind::SubsectorFirstSeg,
                        record: i,
                        value: ss.first_seg_index,
                    },
                );
            }
            if ss.seg_count > self.gl_segs.len() - ss.first_seg_index {
                proof {
                    assert(!ssect_ok(&self, i as int));
                }
                return Err(
                    AssetError::BadReference {
                        kind: RefKind::SubsectorSegCount,
                        record: i,
                        value: ss.seg_count,
                    },
                );
            }
            i = i + 1;
        }
        let mut i: usize = 0;
        while i < self.gl_nodes.len()
            invariant
                i <= self.gl_nodes@.len(),
                forall|k: int| 0 <= k < i ==> #[trigger] node_ok(&self, k),
            decreases self.gl_nodes@.len() - i,
        {
            let node = &self.gl_nodes[i];
            match node.right_child {
                NodeChild::Subsector(x) => {
                    if x >= self.gl_ssect.len() {
                        proof {
                            assert(!node_ok(&self, i as int));
                        }
                        return Err(
                            AssetError::BadReference {
                                kind: RefKind::NodeChildSubsector,
                                record: i,
                                value: x,
                            },
                        );
                    }
                },
                NodeChild::Node(x) => {
                    if x >= self.gl_nodes.len() {
                        proof {
                            assert(!node_ok(&self, i as int));
                        }
                        return Err(
                            AssetError::BadReference {
                                kind: RefKind::NodeChildNode,
                                record: i,
                                value: x,
                            },
                        );
                    }
                },
            }
            match node.left_child {
                NodeChild::Subsector(x) => {
                    if x >= self.gl_ssect.len() {
                        proof {
                            assert(!node_ok(&self, i as int));
                        }
                        return Err(
                            AssetError::BadReference {
                                kind: RefKind::NodeChildSubsector,
                                record: i,
                                value: x,
                            },
                        );
                    }
                },
                NodeChild::Node(x) => {
                    if x >= self.gl_nodes.len() {
                        proof {
                            assert(!node_ok(&self, i as int));
                        }
                        return Err(
                            AssetError::BadReference {
                                kind: RefKind::NodeChildNode,
                                record: i,
                                value: x,
                            },
                        );
                    }
                },
            }
            i = i + 1;
        }
        Ok(ValidMapData { d: self })
    }
}

/// One resolved wall face of a linedef.
#[derive(Debug)]
pub struct Sidedef {
    pub texture_offset_x: i16,
    pub texture_offset_y: i16,
    pub top_texture: TextureType<WallTexture>,
    pub bottom_texture: TextureType<WallTexture>,
    pub middle_texture: TextureType<WallTexture>,
    pub sector_index: usize,
}

/// One resolved wall segment with its geometry, solidity and up to two
/// faces.
#[derive(Debug)]
pub struct Linedef {
    pub line: Line2,
    /// Outward normal direction of the wall, unnormalized.
    pub normal: Dir2,
    /// The box's four planes plus, for a diagonal wall, a pair of
    /// opposing half-space planes for precise collision.
    pub planes: Vec<Plane>,
    pub bbox: AABB2,
    pub flags: u16,
    pub solid_mask: u16,
    pub special_type: u16,
    pub sector_tag: u16,
    pub right_sidedef: Option<Sidedef>,
    pub left_sidedef: Option<Sidedef>,
}

impl Linedef {
    /// The face on the given side.
    pub fn sidedef(&self, side: Side) -> (r: &Option<Sidedef>)
        ensures
            *r == self.spec_sidedef(side),
    {
        match side {
            Side::Right => &self.right_sidedef,
            Side::Left => &self.left_sidedef,
        }
    }

    pub open spec fn spec_sidedef(&self, side: Side) -> Option<Sidedef> {
        match side {
            Side::Right => self.right_sidedef,
            Side::Left => self.left_sidedef,
        }
    }
}

/// One resolved sector: a floor region with its height interval,
/// textures, neighbours and owned subsectors.
#[derive(Debug)]
pub struct Sector {
    pub interval: Interval,
    pub floor_texture: TextureType<Flat>,
    pub ceiling_texture: TextureType<Flat>,
    /// Raw light level, 0 to 255 of full brightness.
    pub light_level: u16,
    pub special_type: u16,
    pub sector_tag: u16,
    /// Subsector ids lying in this sector, in increasing order.
    pub subsectors: Vec<usize>,
    /// Sector ids adjacent through a two-sided linedef, deduplicated.
    pub neighbours: Vec<usize>,
}

/// One resolved GL seg.
#[derive(Clone, Copy, Debug)]
pub struct GLSeg {
    pub line: Line2,
    /// Outward normal direction, unnormalized.
    pub normal: Dir2,
    pub linedef_index: Option<usize>,
    pub linedef_side: Side,
}

/// One resolved convex subsector.
#[derive(Debug)]
pub struct GLSSect {
    pub segs: Vec<GLSeg>,
    /// The box's four planes plus one inward plane per diagonal seg:
    /// together the subsector's convex boundary.
    pub planes: Vec<Plane>,
    pub sector_index: usize,
    pub bbox: AABB2,
}

/// One resolved BSP node; index 0 is the root.
#[derive(Debug)]
pub struct GLNode {
    pub partition_line: Line2,
    /// Normal direction of the partition line, unnormalized.
    pub normal: Dir2,
    pub right_bbox: AABB2,
    pub left_bbox: AABB2,
    pub right_child: NodeChild,
    pub left_child: NodeChild,
}

/// The final, fully resolved map.
#[derive(Debug)]
pub struct LevelMap {
    pub linedefs: Vec<Linedef>,
    pub sectors: Vec<Sector>,
    pub subsectors: Vec<GLSSect>,
    pub nodes: Vec<GLNode>,
    pub sky: AssetHandle<WallTexture>,
}

/// Decode all eight lumps of the level named `name` (the GL lumps from
/// its `GL_`-prefixed companion) and validate every cross-reference.
pub fn import_map_data<S: DataSource>(name: &str, source: &S) -> (r: Result<
    ValidMapData,
    AssetError,
>)
    ensures
        r is Ok ==> map_data_wf(&r->Ok_0@),
{
    let gl_name: String = String::from_str("GL_").concat(name);
    let linedefs = match LinedefsFormat.import(name, source) {
        Ok(v) => v,
        Err(e) => {
            return Err(e);
        },
    };
    let sidedefs = match SidedefsFormat.import(name, source) {
        Ok(v) => v,
        Err(e) => {
            return Err(e);
        },
    };
    let vertexes = match VertexesFormat.import(name, source) {
        Ok(v) => v,
        Err(e) => {
            return Err(e);
        },
    };
    let sectors = match SectorsFormat.import(name, source) {
        Ok(v) => v,
        Err(e) => {
            return Err(e);
        },
    };
    let gl_vert = match GLVertFormat.import(gl_name.as_str(), source) {
        Ok(v) => v,
        Err(e) => {
            return Err(e);
        },
    };
    let gl_segs = match GLSegsFormat.import(gl_name.as_str(), source) {
        Ok(v) => v,
        Err(e) => {
            return Err(e);
        },
    };
    let gl_ssect = match GLSSectFormat.import(gl_name.as_str(), source) {
        Ok(v) => v,
        Err(e) => {
            return Err(e);
        },
    };
    let gl_nodes = match GLNodesFormat.import(gl_name.as_str(), source) {
        Ok(v) => v,
        Err(e) => {
            return Err(e);
        },
    };
    let md = MapData { linedefs, sidedefs, vertexes, sectors, gl_vert, gl_segs, gl_ssect, gl_nodes };
    md.validate()
}

impl Asset for LevelMap {
    type Data = LevelMap;

    type Intermediate = ValidMapData;

    fn import<S: DataSource>(name: &str, source: &S) -> Result<ValidMapData, AssetError> {
        import_map_data(name, source)
    }
}

} // verus!

//! The cross-reference validator: accepts exactly the in-bounds data,
//! and names the offending record and value otherwise.

use doomcore::error::AssetError;
use doomcore::error::RefKind;
use doomcore::geom::Side;
use doomcore::geom::Vec2;
use doomcore::lumps::EitherVertex;
use doomcore::lumps::GLSSectData;
use doomcore::lumps::GLSegData;
use doomcore::lumps::LinedefData;
use doomcore::lumps::NodeChild;
use doomcore::lumps::SectorData;
use doomcore::lumps::SidedefData;
use doomcore::map::MapData;

fn vertex(x: i32, y: i32) -> Vec2 {
    Vec2 { x: x * 0x10000, y: y * 0x10000 }
}

fn sector() -> SectorData {
    SectorData {
        floor_height: 0,
        ceiling_height: 128,
        floor_flat_name: Some("FLOOR".to_owned()),
        ceiling_flat_name: Some("CEIL".to_owned()),
        light_level: 160,
        special_type: 0,
        sector_tag: 0,
    }
}

fn sidedef(sector_index: usize) -> SidedefData {
    SidedefData {
        texture_offset_x: 0,
        texture_offset_y: 0,
        top_texture_name: None,
        bottom_texture_name: None,
        middle_texture_name: Some("WALL".to_owned()),
        sector_index,
    }
}

fn linedef(v1: usize, v2: usize, right: Option<usize>, left: Option<usize>) -> LinedefData {
    LinedefData {
        v1_index: v1,
        v2_index: v2,
        flags: 0,
        special_type: 0,
        sector_tag: 0,
        right_sidedef_index: right,
        left_sidedef_index: left,
    }
}

fn seg(start: EitherVertex, end: EitherVertex, ld: Option<usize>) -> GLSegData {
    GLSegData {
        start_vertex: start,
        end_vertex: end,
        linedef_index: ld,
        linedef_side: Side::Right,
        partner_seg_index: None,
    }
}

fn small_map() -> MapData {
    MapData {
        linedefs: vec![linedef(0, 1, Some(0), None)],
        sidedefs: vec![sidedef(0)],
        vertexes: vec![vertex(0, 0), vertex(64, 0)],
        sectors: vec![sector()],
        gl_vert: vec![],
        gl_segs: vec![seg(EitherVertex::Normal(0), EitherVertex::Normal(1), Some(0))],
        gl_ssect: vec![GLSSectData { seg_count: 1, first_seg_index: 0 }],
        gl_nodes: vec![],
    }
}

fn expect_bad(d: MapData, kind: RefKind, record: usize, value: usize) {
    match d.validate() {
        Err(AssetError::BadReference { kind: k, record: r, value: v }) => {
            assert_eq!(k, kind);
            assert_eq!(r, record);
            assert_eq!(v, value);
        }
        Err(e) => panic!("wrong error: {:?}", e),
        Ok(_) => panic!("accepted invalid data"),
    }
}

#[test]
fn accepts_in_bounds_data() {
    assert!(small_map().validate().is_ok());
}

#[test]
fn rejects_sidedef_sector() {
    let mut d = small_map();
    d.sidedefs[0].sector_index = 1;
    expect_bad(d, RefKind::SidedefSector, 0, 1);
}

#[test]
fn rejects_linedef_vertex() {
    let mut d = small_map();
    d.linedefs[0].v2_index = 2;
    expect_bad(d, RefKind::LinedefVertex, 0, 2);
}

#[test]
fn rejects_linedef_sidedef() {
    let mut d = small_map();
    d.linedefs[0].left_sidedef_index = Some(4);
    expect_bad(d, RefKind::LinedefSidedef, 0, 4);
}

#[test]
fn rejects_seg_linedef() {
    let mut d = small_map();
    d.gl_segs[0].linedef_index = Some(3);
    expect_bad(d, RefKind::SegLinedef, 0, 3);
}

#[test]
fn rejects_seg_vertex_by_tag() {
    let mut d = small_map();
    // GL vertex array is empty, so any GL-tagged reference is out.
    d.gl_segs[0].end_vertex = EitherVertex::GL(0);
    expect_bad(d, RefKind::SegVertex, 0, 0);
}

#[test]
fn rejects_seg_partner() {
    let mut d = small_map();
    d.gl_segs[0].partner_seg_index = Some(1);
    expect_bad(d, RefKind::SegPartner, 0, 1);
}

#[test]
fn rejects_subsector_range() {
    let mut d = small_map();
    d.gl_ssect[0].first_seg_index = 1;
    expect_bad(d, RefKind::SubsectorFirstSeg, 0, 1);
    let mut d = small_map();
    d.gl_ssect[0].seg_count = 2;
    expect_bad(d, RefKind::SubsectorSegCount, 0, 2);
}

#[test]
fn rejects_node_children() {
    let mut d = small_map();
    d.gl_nodes = vec![doomcore::lumps::GLNodeData {
        partition_point: vertex(0, 0),
        partition_dir: vertex(1, 0),
        right_bbox: doomcore::geom::AABB2 { min: vertex(0, 0), max: vertex(1, 1) },
        left_bbox: doomcore::geom::AABB2 { min: vertex(0, 0), max: vertex(1, 1) },
        right_child: NodeChild::Subsector(1),
        left_child: NodeChild::Subsector(0),
    }];
    expect_bad(d, RefKind::NodeChildSubsector, 0, 1);
    let mut d = small_map();
    d.gl_nodes = vec![doomcore::lumps::GLNodeData {
        partition_point: vertex(0, 0),
        partition_dir: vertex(1, 0),
        right_bbox: doomcore::geom::AABB2 { min: vertex(0, 0), max: vertex(1, 1) },
        left_bbox: doomcore::geom::AABB2 { min: vertex(0, 0), max: vertex(1, 1) },
        right_child: NodeChild::Subsector(0),
        left_child: NodeChild::Node(1),
    }];
    expect_bad(d, RefKind::NodeChildNode, 0, 1);
}

//! The map builder: sector adjacency, the sky hack, node re-indexing,
//! subsector ownership and the derived geometry.

use doomcore::assets::AssetStorage;
use doomcore::assets::DataSource;
use doomcore::builder::build_map;
use doomcore::builder::reindex_nodes;
use doomcore::error::AssetError;
use doomcore::geom::AABB2;
use doomcore::geom::Side;
use doomcore::geom::Vec2;
use doomcore::lumps::EitherVertex;
use doomcore::lumps::GLNodeData;
use doomcore::lumps::GLSSectData;
use doomcore::lumps::GLSegData;
use doomcore::lumps::LinedefData;
use doomcore::lumps::NodeChild;
use doomcore::lumps::SectorData;
use doomcore::lumps::SidedefData;
use doomcore::lumps::LINEDEF_BLOCKING;
use doomcore::lumps::LINEDEF_BLOCKMONSTERS;
use doomcore::lumps::LINEDEF_TWOSIDED;
use doomcore::map::MapData;
use doomcore::map::SOLID_MASK_ALL;
use doomcore::map::SOLID_MASK_EMPTY;
use doomcore::map::SOLID_MASK_MONSTER;
use doomcore::map::LevelMap;
use doomcore::textures::Flat;
use doomcore::textures::TextureType;
use doomcore::textures::WallTexture;

struct EmptySource;

impl DataSource for EmptySource {
    fn load(&self, _path: &str) -> Result<Vec<u8>, AssetError> {
        Err(AssetError::NotFound)
    }

    fn names(&self) -> Vec<String> {
        Vec::new()
    }
}

fn vertex(x: i32, y: i32) -> Vec2 {
    Vec2 { x: x * 0x10000, y: y * 0x10000 }
}

fn sector(floor_flat: &str, ceiling_flat: &str) -> SectorData {
    SectorData {
        floor_height: 0,
        ceiling_height: 128,
        floor_flat_name: Some(floor_flat.to_owned()),
        ceiling_flat_name: Some(ceiling_flat.to_owned()),
        light_level: 160,
        special_type: 5,
        sector_tag: 77,
    }
}

fn sidedef(sector_index: usize, top: Option<&str>) -> SidedefData {
    SidedefData {
        texture_offset_x: 0,
        texture_offset_y: 0,
        top_texture_name: top.map(|s| s.to_owned()),
        bottom_texture_name: None,
        middle_texture_name: Some("WALL".to_owned()),
        sector_index,
    }
}

fn linedef(v1: usize, v2: usize, right: Option<usize>, left: Option<usize>) -> LinedefData {
    LinedefData {
        v1_index: v1,
        v2_index: v2,
        flags: if left.is_some() { LINEDEF_TWOSIDED } else { 0 },
        special_type: 2,
        sector_tag: 4,
        right_sidedef_index: right,
        left_sidedef_index: left,
    }
}

fn build(d: MapData) -> Result<LevelMap, AssetError> {
    let valid = d.validate().expect("test data must validate");
    let mut flats: AssetStorage<Flat> = AssetStorage::new();
    let mut walls: AssetStorage<WallTexture> = AssetStorage::new();
    build_map(valid, "SKY1", &EmptySource, &mut flats, &mut walls)
}

/// Two sectors joined by one two-sided linedef, with a seg range per
/// subsector so the build completes.
fn two_sector_map(left_ceiling: &str, right_ceiling: &str) -> MapData {
    MapData {
        linedefs: vec![
            linedef(0, 1, Some(0), Some(1)),
            linedef(1, 2, Some(2), None),
            linedef(3, 0, Some(3), None),
        ],
        sidedefs: vec![
            sidedef(0, Some("TOP")),
            sidedef(1, Some("TOP")),
            sidedef(0, None),
            sidedef(1, None),
        ],
        vertexes: vec![vertex(0, 0), vertex(64, 0), vertex(64, 64), vertex(0, -64)],
        sectors: vec![sector("FLOOR", right_ceiling), sector("FLOOR", left_ceiling)],
        gl_vert: vec![],
        gl_segs: vec![
            GLSegData {
                start_vertex: EitherVertex::Normal(0),
                end_vertex: EitherVertex::Normal(1),
                linedef_index: Some(0),
                linedef_side: Side::Right,
                partner_seg_index: None,
            },
            GLSegData {
                start_vertex: EitherVertex::Normal(1),
                end_vertex: EitherVertex::Normal(0),
                linedef_index: Some(0),
                linedef_side: Side::Left,
                partner_seg_index: Some(0),
            },
        ],
        gl_ssect: vec![
            GLSSectData { seg_count: 1, first_seg_index: 0 },
            GLSSectData { seg_count: 1, first_seg_index: 1 },
        ],
        gl_nodes: vec![],
    }
}

#[test]
fn two_sided_linedef_links_sectors_once() {
    let m = build(two_sector_map("CEIL", "CEIL")).unwrap();
    assert_eq!(m.sectors.len(), 2);
    assert_eq!(m.sectors[0].neighbours, vec![1]);
    assert_eq!(m.sectors[1].neighbours, vec![0]);
}

#[test]
fn one_sided_linedefs_make_no_neighbours() {
    let mut d = two_sector_map("CEIL", "CEIL");
    // Sever the two-sided linedef: no linedef joins the two sectors any
    // more. Subsector 1 leaned on that side, so it goes too.
    d.linedefs[0].left_sidedef_index = None;
    d.gl_segs.pop();
    d.gl_ssect.pop();
    let m = build(d).unwrap();
    assert!(m.sectors[0].neighbours.is_empty());
    assert!(m.sectors[1].neighbours.is_empty());
}

#[test]
fn sky_hack_forces_both_tops() {
    let m = build(two_sector_map("F_SKY1", "F_SKY1")).unwrap();
    let ld = &m.linedefs[0];
    assert!(ld.right_sidedef.as_ref().unwrap().top_texture.is_sky());
    assert!(ld.left_sidedef.as_ref().unwrap().top_texture.is_sky());
    // Without two sky ceilings the explicit name stays.
    let m = build(two_sector_map("CEIL", "F_SKY1")).unwrap();
    let ld = &m.linedefs[0];
    assert!(!ld.right_sidedef.as_ref().unwrap().top_texture.is_sky());
    assert!(!ld.left_sidedef.as_ref().unwrap().top_texture.is_sky());
}

#[test]
fn solid_mask_follows_flags() {
    let mut d = two_sector_map("CEIL", "CEIL");
    d.linedefs[0].flags |= LINEDEF_BLOCKING | LINEDEF_BLOCKMONSTERS;
    d.linedefs[1].flags |= LINEDEF_BLOCKMONSTERS;
    let m = build(d).unwrap();
    assert_eq!(m.linedefs[0].solid_mask, SOLID_MASK_ALL);
    assert_eq!(m.linedefs[1].solid_mask, SOLID_MASK_MONSTER);
    assert_eq!(m.linedefs[2].solid_mask, SOLID_MASK_EMPTY);
}

#[test]
fn sector_tag_copies_the_behaviour_code() {
    // The builder deliberately copies the source's behaviour code into
    // both outputs; the decoded tag field is not used here.
    let m = build(two_sector_map("CEIL", "CEIL")).unwrap();
    assert_eq!(m.sectors[0].special_type, 5);
    assert_eq!(m.sectors[0].sector_tag, 5);
    assert_eq!(m.sectors[0].interval.min, 0);
    assert_eq!(m.sectors[0].interval.max, 128);
    assert_eq!(m.sectors[0].light_level, 160);
}

#[test]
fn same_flat_name_shares_one_handle() {
    let m = build(two_sector_map("CEIL", "CEIL")).unwrap();
    let f0 = match &m.sectors[0].floor_texture {
        TextureType::Normal(h) => h.id(),
        other => panic!("unexpected: {:?}", other),
    };
    let f1 = match &m.sectors[1].floor_texture {
        TextureType::Normal(h) => h.id(),
        other => panic!("unexpected: {:?}", other),
    };
    assert_eq!(f0, f1);
    let c0 = match &m.sectors[0].ceiling_texture {
        TextureType::Normal(h) => h.id(),
        other => panic!("unexpected: {:?}", other),
    };
    assert_ne!(f0, c0);
}

#[test]
fn subsectors_know_their_sector() {
    let m = build(two_sector_map("CEIL", "CEIL")).unwrap();
    assert_eq!(m.subsectors.len(), 2);
    assert_eq!(m.subsectors[0].sector_index, 0);
    assert_eq!(m.subsectors[1].sector_index, 1);
    assert_eq!(m.sectors[0].subsectors, vec![0]);
    assert_eq!(m.sectors[1].subsectors, vec![1]);
    assert_eq!(m.subsectors[0].segs.len(), 1);
}

#[test]
fn subsector_without_sector_is_a_build_error() {
    let mut d = two_sector_map("CEIL", "CEIL");
    d.gl_segs[1].linedef_index = None;
    match build(d) {
        Err(AssetError::NoSectorForSubsector { subsector }) => assert_eq!(subsector, 1),
        other => panic!("unexpected: {:?}", other.map(|_| ())),
    }
}

#[test]
fn nodes_are_reindexed_root_first() {
    // Leaf-to-root input: node 2 is the root referencing nodes 0 and 1.
    let node = |right: NodeChild, left: NodeChild| GLNodeData {
        partition_point: vertex(0, 0),
        partition_dir: vertex(1, 2),
        right_bbox: AABB2 { min: vertex(0, 0), max: vertex(4, 4) },
        left_bbox: AABB2 { min: vertex(-4, -4), max: vertex(0, 0) },
        right_child: right,
        left_child: left,
    };
    let data = vec![
        node(NodeChild::Subsector(0), NodeChild::Subsector(1)),
        node(NodeChild::Subsector(2), NodeChild::Subsector(3)),
        node(NodeChild::Node(0), NodeChild::Node(1)),
    ];
    let nodes = reindex_nodes(&data);
    assert_eq!(nodes.len(), 3);
    // Node 0 is the former node 2; internal children x become n-1-x.
    assert_eq!(nodes[0].right_child, NodeChild::Node(2));
    assert_eq!(nodes[0].left_child, NodeChild::Node(1));
    // Leaf references are unchanged.
    assert_eq!(nodes[2].right_child, NodeChild::Subsector(0));
    assert_eq!(nodes[2].left_child, NodeChild::Subsector(1));
    // The partition line and normal carry over.
    assert_eq!(nodes[0].partition_line.point, vertex(0, 0));
    assert_eq!(nodes[0].normal.x, 2 * 0x10000);
    assert_eq!(nodes[0].normal.y, -1 * 0x10000);
}

#[test]
fn linedef_geometry_is_exact() {
    let m = build(two_sector_map("CEIL", "CEIL")).unwrap();
    // Linedef 0 runs from (0,0) to (64,0): axis-aligned, so only the
    // four box planes.
    let ld = &m.linedefs[0];
    assert_eq!(ld.line.point, vertex(0, 0));
    assert_eq!(ld.line.dir.x, 64 * 0x10000);
    assert_eq!(ld.line.dir.y, 0);
    assert_eq!(ld.normal.x, 0);
    assert_eq!(ld.normal.y, -64 * 0x10000);
    assert_eq!(ld.bbox.min, vertex(0, 0));
    assert_eq!(ld.bbox.max, vertex(64, 0));
    assert_eq!(ld.planes.len(), 4);
    // Linedef 1 runs from (64,0) to (64,64): also axis-aligned.
    assert_eq!(m.linedefs[1].planes.len(), 4);
    // Linedef 2 runs from (0,-64) to (0,0): axis-aligned.
    assert_eq!(m.linedefs[2].planes.len(), 4);
}

#[test]
fn diagonal_walls_get_half_space_planes() {
    let mut d = two_sector_map("CEIL", "CEIL");
    d.vertexes[2] = vertex(96, 32); // make linedef 1 diagonal
    let m = build(d).unwrap();
    let ld = &m.linedefs[1];
    assert_eq!(ld.planes.len(), 6);
    let n = ld.normal;
    assert_eq!(ld.planes[4].normal, n);
    assert_eq!(ld.planes[5].normal.x, -n.x);
    assert_eq!(ld.planes[5].normal.y, -n.y);
    assert_eq!(ld.planes[5].distance, -ld.planes[4].distance);
}

#[test]
fn reused_sidedef_claims_are_detected() {
    let unique = vec![
        linedef(0, 1, Some(0), Some(1)),
        linedef(1, 2, Some(2), None),
    ];
    assert_eq!(doomcore::builder::sidedef_claims_unique(&unique, 3), None);
    let reused = vec![
        linedef(0, 1, Some(0), Some(1)),
        linedef(1, 2, Some(1), None),
    ];
    assert_eq!(doomcore::builder::sidedef_claims_unique(&reused, 3), Some(1));
}

#[test]
fn subsector_geometry_is_exact() {
    let m = build(two_sector_map("CEIL", "CEIL")).unwrap();
    let ss = &m.subsectors[0];
    // One seg starting at (0,0): the box collapses to that point, and the
    // seg is axis-aligned, so only the four box planes remain.
    assert_eq!(ss.bbox.min, vertex(0, 0));
    assert_eq!(ss.bbox.max, vertex(0, 0));
    assert_eq!(ss.planes.len(), 4);
    assert_eq!(ss.segs[0].line.point, vertex(0, 0));
    assert_eq!(ss.segs[0].line.dir.x, 64 * 0x10000);
    assert_eq!(ss.segs[0].linedef_index, Some(0));
    assert_eq!(ss.segs[0].linedef_side, Side::Right);
}

#[test]
fn an_empty_level_builds_empty() {
    let d = MapData {
        linedefs: vec![],
        sidedefs: vec![],
        vertexes: vec![],
        sectors: vec![],
        gl_vert: vec![],
        gl_segs: vec![],
        gl_ssect: vec![],
        gl_nodes: vec![],
    };
    let m = build(d).unwrap();
    assert!(m.sectors.is_empty());
    assert!(m.linedefs.is_empty());
    assert!(m.subsectors.is_empty());
    assert!(m.nodes.is_empty());
}

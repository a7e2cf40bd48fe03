//! End-to-end: a whole level imported from an in-memory archive through
//! the registry's load/build cycle.

use doomcore::assets::AssetStorage;
use doomcore::assets::DataSource;
use doomcore::error::AssetError;
use doomcore::map::LevelMap;
use doomcore::pipeline::load_map;
use doomcore::textures::Flat;
use doomcore::textures::FlatBuilder;
use doomcore::textures::TextureType;
use doomcore::textures::WallTexture;

struct MemSource {
    entries: Vec<(String, Vec<u8>)>,
}

impl DataSource for MemSource {
    fn load(&self, path: &str) -> Result<Vec<u8>, AssetError> {
        for (name, data) in &self.entries {
            if name == path {
                return Ok(data.clone());
            }
        }
        Err(AssetError::NotFound)
    }

    fn names(&self) -> Vec<String> {
        self.entries.iter().map(|e| e.0.clone()).collect()
    }
}

fn push16(b: &mut Vec<u8>, v: u16) {
    b.push((v & 0xFF) as u8);
    b.push((v >> 8) as u8);
}

fn push_i16(b: &mut Vec<u8>, v: i16) {
    push16(b, v as u16);
}

fn push_name(b: &mut Vec<u8>, name: &str) {
    let mut field = [0u8; 8];
    for (i, c) in name.bytes().enumerate() {
        field[i] = c;
    }
    b.extend_from_slice(&field);
}

/// One sector (floor flat FLOOR, ceiling F_SKY1) with one one-sided
/// linedef referencing it, as the eight lumps of a level called MAP01.
fn one_sector_archive() -> MemSource {
    let mut linedefs = Vec::new();
    push16(&mut linedefs, 0); // v1
    push16(&mut linedefs, 1); // v2
    push16(&mut linedefs, 1); // flags: blocking
    push16(&mut linedefs, 0); // special
    push16(&mut linedefs, 0); // tag
    push16(&mut linedefs, 0); // right sidedef
    push16(&mut linedefs, 0xFFFF); // no left sidedef

    let mut sidedefs = Vec::new();
    push_i16(&mut sidedefs, 0);
    push_i16(&mut sidedefs, 0);
    sidedefs.extend_from_slice(b"-\0\0\0\0\0\0\0"); // top absent
    sidedefs.extend_from_slice(b"-\0\0\0\0\0\0\0"); // bottom absent
    push_name(&mut sidedefs, "STARTAN2"); // middle
    push16(&mut sidedefs, 0); // sector

    let mut vertexes = Vec::new();
    push_i16(&mut vertexes, 0);
    push_i16(&mut vertexes, 0);
    push_i16(&mut vertexes, 64);
    push_i16(&mut vertexes, 0);

    let mut sectors = Vec::new();
    push_i16(&mut sectors, 0); // floor
    push_i16(&mut sectors, 128); // ceiling
    push_name(&mut sectors, "FLOOR");
    push_name(&mut sectors, "F_SKY1");
    push16(&mut sectors, 192); // light
    push16(&mut sectors, 0); // special
    push16(&mut sectors, 0); // tag

    let gl_vert = b"gNd2".to_vec();

    let mut gl_segs = Vec::new();
    push16(&mut gl_segs, 0); // start vertex 0
    push16(&mut gl_segs, 1); // end vertex 1
    push16(&mut gl_segs, 0); // linedef 0
    push16(&mut gl_segs, 0); // right side
    push16(&mut gl_segs, 0xFFFF); // no partner

    let mut gl_ssect = Vec::new();
    push16(&mut gl_ssect, 1); // one seg
    push16(&mut gl_ssect, 0); // starting at 0

    let gl_nodes = Vec::new();

    MemSource {
        entries: vec![
            ("MAP01/+2".to_owned(), linedefs),
            ("MAP01/+3".to_owned(), sidedefs),
            ("MAP01/+4".to_owned(), vertexes),
            ("MAP01/+8".to_owned(), sectors),
            ("GL_MAP01/+1".to_owned(), gl_vert),
            ("GL_MAP01/+2".to_owned(), gl_segs),
            ("GL_MAP01/+3".to_owned(), gl_ssect),
            ("GL_MAP01/+4".to_owned(), gl_nodes),
            ("FLOOR".to_owned(), vec![3u8; 4096]),
        ],
    }
}

#[test]
fn one_sector_level_builds_end_to_end() {
    let source = one_sector_archive();
    let mut maps: AssetStorage<LevelMap> = AssetStorage::new();
    let mut flats: AssetStorage<Flat> = AssetStorage::new();
    let mut walls: AssetStorage<WallTexture> = AssetStorage::new();
    let handle = load_map("MAP01", "SKY1", &source, &mut maps, &mut flats, &mut walls);

    let m = maps.get(&handle).expect("the map should have built");
    assert_eq!(m.sectors.len(), 1);
    let sector = &m.sectors[0];
    assert!(matches!(sector.floor_texture, TextureType::Normal(_)));
    assert!(sector.ceiling_texture.is_sky());
    assert_eq!(sector.interval.min, 0);
    assert_eq!(sector.interval.max, 128);

    assert_eq!(m.linedefs.len(), 1);
    let ld = &m.linedefs[0];
    assert!(ld.right_sidedef.is_some());
    assert!(ld.left_sidedef.is_none());
    let side = ld.right_sidedef.as_ref().unwrap();
    assert_eq!(side.sector_index, 0);
    assert!(matches!(side.middle_texture, TextureType::Normal(_)));
    assert!(matches!(side.top_texture, TextureType::Absent));

    assert_eq!(m.subsectors.len(), 1);
    assert_eq!(m.subsectors[0].sector_index, 0);
    assert_eq!(m.nodes.len(), 0);

    // The sky and the queued flat resolve through the storages.
    assert_eq!(walls.handle_for("SKY1").unwrap().id(), m.sky.id());
    let floor_handle = walls.handle_for("FLOOR");
    assert!(floor_handle.is_none(), "FLOOR is a flat, not a wall texture");
    let mut flat_builder = FlatBuilder;
    flats.build_waiting(&mut flat_builder, &source);
    let img = flats.get_by_name("FLOOR").expect("the flat should have built");
    assert_eq!(img.width, 64);
    assert_eq!(img.data[0].i, 3);
}

#[test]
fn missing_lump_leaves_the_handle_unresolved() {
    let mut source = one_sector_archive();
    source.entries.retain(|e| e.0 != "MAP01/+3");
    let mut maps: AssetStorage<LevelMap> = AssetStorage::new();
    let mut flats: AssetStorage<Flat> = AssetStorage::new();
    let mut walls: AssetStorage<WallTexture> = AssetStorage::new();
    let handle = load_map("MAP01", "SKY1", &source, &mut maps, &mut flats, &mut walls);
    assert!(maps.get(&handle).is_none());
    // The name still resolves to the allocated handle.
    assert_eq!(maps.handle_for("MAP01").unwrap().id(), handle.id());
}

#[test]
fn out_of_range_index_rejects_the_whole_level() {
    let mut source = one_sector_archive();
    for (name, data) in source.entries.iter_mut() {
        if name == "MAP01/+3" {
            // Point the sidedef at sector 7 of 1.
            let n = data.len();
            data[n - 2] = 7;
        }
    }
    let mut maps: AssetStorage<LevelMap> = AssetStorage::new();
    let mut flats: AssetStorage<Flat> = AssetStorage::new();
    let mut walls: AssetStorage<WallTexture> = AssetStorage::new();
    let handle = load_map("MAP01", "SKY1", &source, &mut maps, &mut flats, &mut walls);
    assert!(maps.get(&handle).is_none(), "no partial map may be produced");
}

//! Exact-value tests for the binary lump decoders.

use doomcore::error::AssetError;
use doomcore::error::RefKind;
use doomcore::geom::Side;
use doomcore::lumps::decode_gl_nodes;
use doomcore::lumps::decode_gl_segs;
use doomcore::lumps::decode_gl_ssect;
use doomcore::lumps::decode_gl_vertexes;
use doomcore::lumps::decode_linedefs;
use doomcore::lumps::decode_sectors;
use doomcore::lumps::decode_sidedefs;
use doomcore::lumps::decode_things;
use doomcore::lumps::decode_vertexes;
use doomcore::lumps::EitherVertex;
use doomcore::lumps::NodeChild;
use doomcore::textures::decode_flat;
use doomcore::textures::decode_pnames;
use doomcore::textures::decode_textures;

fn le16(v: u16) -> [u8; 2] {
    [(v & 0xFF) as u8, (v >> 8) as u8]
}

fn push16(b: &mut Vec<u8>, v: u16) {
    b.extend_from_slice(&le16(v));
}

fn push_i16(b: &mut Vec<u8>, v: i16) {
    push16(b, v as u16);
}

fn push32(b: &mut Vec<u8>, v: u32) {
    b.extend_from_slice(&[
        (v & 0xFF) as u8,
        ((v >> 8) & 0xFF) as u8,
        ((v >> 16) & 0xFF) as u8,
        ((v >> 24) & 0xFF) as u8,
    ]);
}

fn push_name(b: &mut Vec<u8>, name: &str) {
    let mut field = [0u8; 8];
    for (i, c) in name.bytes().enumerate() {
        field[i] = c;
    }
    b.extend_from_slice(&field);
}

#[test]
fn linedefs_decode_exactly() {
    let mut b = Vec::new();
    push16(&mut b, 3); // v1
    push16(&mut b, 7); // v2
    push16(&mut b, 0xFFFF); // flags: only low 8 bits defined
    push16(&mut b, 42); // special
    push16(&mut b, 9); // tag
    push16(&mut b, 5); // right sidedef
    push16(&mut b, 0xFFFF); // left sidedef absent
    let r = decode_linedefs(&b).unwrap();
    assert_eq!(r.len(), 1);
    assert_eq!(r[0].v1_index, 3);
    assert_eq!(r[0].v2_index, 7);
    assert_eq!(r[0].flags, 0x00FF);
    assert_eq!(r[0].special_type, 42);
    assert_eq!(r[0].sector_tag, 9);
    assert_eq!(r[0].right_sidedef_index, Some(5));
    assert_eq!(r[0].left_sidedef_index, None);
}

#[test]
fn linedefs_truncated() {
    let b = vec![0u8; 13];
    assert_eq!(decode_linedefs(&b), Err(AssetError::Truncated));
}

#[test]
fn sidedefs_decode_names() {
    let mut b = Vec::new();
    push_i16(&mut b, -4); // x offset
    push_i16(&mut b, 12); // y offset
    push_name(&mut b, "STARTAN2"); // top
    b.extend_from_slice(b"-\0\0\0\0\0\0\0"); // bottom: absent marker
    push_name(&mut b, "AB"); // middle, trailing zeros trimmed
    push16(&mut b, 1); // sector
    let r = decode_sidedefs(&b).unwrap();
    assert_eq!(r.len(), 1);
    assert_eq!(r[0].texture_offset_x, -4);
    assert_eq!(r[0].texture_offset_y, 12);
    assert_eq!(r[0].top_texture_name.as_deref(), Some("STARTAN2"));
    assert_eq!(r[0].bottom_texture_name, None);
    assert_eq!(r[0].middle_texture_name.as_deref(), Some("AB"));
    assert_eq!(r[0].sector_index, 1);
}

#[test]
fn sidedefs_invalid_text() {
    let mut b = Vec::new();
    push_i16(&mut b, 0);
    push_i16(&mut b, 0);
    b.extend_from_slice(&[0xFF, 0xFE, 0, 0, 0, 0, 0, 0]); // not UTF-8
    push_name(&mut b, "A");
    push_name(&mut b, "B");
    push16(&mut b, 0);
    assert!(matches!(decode_sidedefs(&b), Err(AssetError::InvalidText)));
}

#[test]
fn vertexes_are_fixed_point() {
    let mut b = Vec::new();
    push_i16(&mut b, -2);
    push_i16(&mut b, 3);
    let r = decode_vertexes(&b).unwrap();
    assert_eq!(r.len(), 1);
    assert_eq!(r[0].x, -2 * 0x10000);
    assert_eq!(r[0].y, 3 * 0x10000);
}

#[test]
fn sectors_decode_exactly() {
    let mut b = Vec::new();
    push_i16(&mut b, -8); // floor
    push_i16(&mut b, 264); // ceiling
    push_name(&mut b, "FLOOR4_8");
    push_name(&mut b, "F_SKY1");
    push16(&mut b, 255); // light
    push16(&mut b, 7); // special
    push16(&mut b, 3); // tag
    let r = decode_sectors(&b).unwrap();
    assert_eq!(r.len(), 1);
    assert_eq!(r[0].floor_height, -8);
    assert_eq!(r[0].ceiling_height, 264);
    assert_eq!(r[0].floor_flat_name.as_deref(), Some("FLOOR4_8"));
    assert_eq!(r[0].ceiling_flat_name.as_deref(), Some("F_SKY1"));
    assert_eq!(r[0].light_level, 255);
    assert_eq!(r[0].special_type, 7);
    assert_eq!(r[0].sector_tag, 3);
}

#[test]
fn things_mask_flags() {
    let mut b = Vec::new();
    push_i16(&mut b, 100);
    push_i16(&mut b, -100);
    push16(&mut b, 270);
    push16(&mut b, 3004);
    push16(&mut b, 0xFFFF);
    let r = decode_things(&b).unwrap();
    assert_eq!(r.len(), 1);
    assert_eq!(r[0].x, 100);
    assert_eq!(r[0].y, -100);
    assert_eq!(r[0].angle, 270);
    assert_eq!(r[0].doomednum, 3004);
    assert_eq!(r[0].flags, 0x000F);
}

#[test]
fn gl_vertexes_need_magic() {
    let mut good = Vec::new();
    good.extend_from_slice(b"gNd2");
    push32(&mut good, 0x0001_8000); // 1.5 in 16.16
    push32(&mut good, 0xFFFF_0000); // -1.0 in 16.16
    let r = decode_gl_vertexes(&good).unwrap();
    assert_eq!(r.len(), 1);
    assert_eq!(r[0].x, 0x18000);
    assert_eq!(r[0].y, -0x10000);

    let mut bad = Vec::new();
    bad.extend_from_slice(b"gNd3");
    assert_eq!(decode_gl_vertexes(&bad), Err(AssetError::BadMagic));
    let short = vec![0u8; 3];
    assert_eq!(decode_gl_vertexes(&short), Err(AssetError::Truncated));
}

#[test]
fn gl_segs_split_vertex_tags() {
    let mut b = Vec::new();
    push16(&mut b, 4); // ordinary vertex
    push16(&mut b, 0x8000 | 2); // GL vertex 2
    push16(&mut b, 0xFFFF); // no linedef
    push16(&mut b, 1); // left side
    push16(&mut b, 0xFFFF); // no partner
    let r = decode_gl_segs(&b).unwrap();
    assert_eq!(r.len(), 1);
    assert_eq!(r[0].start_vertex, EitherVertex::Normal(4));
    assert_eq!(r[0].end_vertex, EitherVertex::GL(2));
    assert_eq!(r[0].linedef_index, None);
    assert_eq!(r[0].linedef_side, Side::Left);
    assert_eq!(r[0].partner_seg_index, None);
}

#[test]
fn gl_subsectors_decode() {
    let mut b = Vec::new();
    push16(&mut b, 3);
    push16(&mut b, 10);
    let r = decode_gl_ssect(&b).unwrap();
    assert_eq!(r.len(), 1);
    assert_eq!(r[0].seg_count, 3);
    assert_eq!(r[0].first_seg_index, 10);
}

#[test]
fn gl_nodes_decode() {
    let mut b = Vec::new();
    push_i16(&mut b, 32); // x
    push_i16(&mut b, -16); // y
    push_i16(&mut b, 0); // dx
    push_i16(&mut b, 64); // dy
    for v in [128i16, 0, -64, 64] {
        push_i16(&mut b, v); // right bbox: top, bottom, left, right
    }
    for v in [64i16, -32, 0, 32] {
        push_i16(&mut b, v); // left bbox
    }
    push16(&mut b, 0x8000 | 1); // right child: subsector 1
    push16(&mut b, 0); // left child: node 0
    let r = decode_gl_nodes(&b).unwrap();
    assert_eq!(r.len(), 1);
    assert_eq!(r[0].partition_point.x, 32 * 0x10000);
    assert_eq!(r[0].partition_point.y, -16 * 0x10000);
    assert_eq!(r[0].partition_dir.x, 0);
    assert_eq!(r[0].partition_dir.y, 64 * 0x10000);
    assert_eq!(r[0].right_bbox.min.x, -64 * 0x10000);
    assert_eq!(r[0].right_bbox.min.y, 0);
    assert_eq!(r[0].right_bbox.max.x, 64 * 0x10000);
    assert_eq!(r[0].right_bbox.max.y, 128 * 0x10000);
    assert_eq!(r[0].right_child, NodeChild::Subsector(1));
    assert_eq!(r[0].left_child, NodeChild::Node(0));
}

#[test]
fn flats_are_64_by_64() {
    let mut b = vec![7u8; 4096];
    b.push(99); // trailing bytes are ignored
    let img = decode_flat(&b).unwrap();
    assert_eq!(img.width, 64);
    assert_eq!(img.height, 64);
    assert_eq!(img.data.len(), 4096);
    assert_eq!(img.data[0].i, 7);
    assert_eq!(img.data[0].a, 0xFF);
    assert!(matches!(decode_flat(&vec![0u8; 4095]), Err(AssetError::Truncated)));
}

#[test]
fn pnames_decode() {
    let mut b = Vec::new();
    push32(&mut b, 2);
    push_name(&mut b, "WALL57_2");
    push_name(&mut b, "DOOR2_1");
    let r = decode_pnames(&b).unwrap();
    assert_eq!(r, vec!["WALL57_2".to_owned(), "DOOR2_1".to_owned()]);
    assert_eq!(decode_pnames(&vec![1, 0, 0, 0]), Err(AssetError::Truncated));
}

#[test]
fn texture_directory_decodes() {
    let pnames = vec!["PATCH1".to_owned(), "PATCH2".to_owned()];
    let mut b = Vec::new();
    push32(&mut b, 1); // one texture
    push32(&mut b, 8); // its offset: right after the offsets
    push_name(&mut b, "STARTAN2");
    push32(&mut b, 0); // reserved
    push16(&mut b, 128); // width
    push16(&mut b, 72); // height
    push32(&mut b, 0); // reserved
    push16(&mut b, 1); // one patch
    push_i16(&mut b, 24); // patch x
    push_i16(&mut b, -6); // patch y
    push16(&mut b, 1); // patch name index
    push32(&mut b, 0); // reserved
    let t = decode_textures(&b, &pnames).unwrap();
    assert_eq!(t.entries.len(), 1);
    assert_eq!(t.entries[0].0, "STARTAN2");
    let info = t.get("STARTAN2").unwrap();
    assert_eq!(info.width, 128);
    assert_eq!(info.height, 72);
    assert_eq!(info.patches.len(), 1);
    assert_eq!(info.patches[0].offset_x, 24);
    assert_eq!(info.patches[0].offset_y, -6);
    assert_eq!(info.patches[0].name, "PATCH2.patch");
    assert!(t.get("MISSING").is_none());
}

#[test]
fn texture_directory_checks_patch_names() {
    let pnames = vec!["ONLY".to_owned()];
    let mut b = Vec::new();
    push32(&mut b, 1);
    push32(&mut b, 8);
    push_name(&mut b, "TEX");
    push32(&mut b, 0);
    push16(&mut b, 8);
    push16(&mut b, 8);
    push32(&mut b, 0);
    push16(&mut b, 1);
    push_i16(&mut b, 0);
    push_i16(&mut b, 0);
    push16(&mut b, 5); // out of range
    push32(&mut b, 0);
    assert!(matches!(
        decode_textures(&b, &pnames),
        Err(AssetError::BadReference { kind: RefKind::TexturePatchName, record: 0, value: 5 })
    ));
}

#[test]
fn empty_lumps_decode_to_nothing() {
    assert_eq!(decode_linedefs(&vec![]).unwrap().len(), 0);
    assert_eq!(decode_vertexes(&vec![]).unwrap().len(), 0);
    assert_eq!(decode_things(&vec![]).unwrap().len(), 0);
    assert_eq!(decode_gl_segs(&vec![]).unwrap().len(), 0);
    assert_eq!(decode_gl_ssect(&vec![]).unwrap().len(), 0);
    assert_eq!(decode_gl_nodes(&vec![]).unwrap().len(), 0);
    assert!(decode_sidedefs(&vec![]).unwrap().is_empty());
    assert!(decode_sectors(&vec![]).unwrap().is_empty());
}

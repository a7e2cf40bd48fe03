//! Wall texture compositing: patches blit in order onto a transparent
//! canvas, the last covering patch winning each cell.

use doomcore::textures::import_wall;
use doomcore::textures::IAColor;
use doomcore::textures::Image;
use doomcore::textures::PatchInfo;
use doomcore::textures::TextureInfo;

fn solid(width: usize, height: usize, value: u8) -> Image {
    Image {
        data: vec![IAColor { i: value, a: 0xFF }; width * height],
        width,
        height,
    }
}

#[test]
fn patches_blit_in_order() {
    let info = TextureInfo {
        width: 4,
        height: 2,
        patches: vec![
            PatchInfo { offset_x: 0, offset_y: 0, name: "P1.patch".to_owned() },
            PatchInfo { offset_x: 2, offset_y: 0, name: "P2.patch".to_owned() },
        ],
    };
    let patches = vec![solid(3, 2, 10), solid(3, 2, 20)];
    let img = import_wall(&info, &patches);
    assert_eq!(img.width, 4);
    assert_eq!(img.height, 2);
    assert_eq!(img.data.len(), 8);
    // Columns 0..2 come from the first patch, 2..4 from the second,
    // which overlaps and wins; nothing stays transparent.
    for y in 0..2 {
        assert_eq!(img.data[y * 4 + 0], IAColor { i: 10, a: 0xFF });
        assert_eq!(img.data[y * 4 + 1], IAColor { i: 10, a: 0xFF });
        assert_eq!(img.data[y * 4 + 2], IAColor { i: 20, a: 0xFF });
        assert_eq!(img.data[y * 4 + 3], IAColor { i: 20, a: 0xFF });
    }
}

#[test]
fn negative_offsets_clip() {
    let info = TextureInfo {
        width: 2,
        height: 2,
        patches: vec![PatchInfo { offset_x: -1, offset_y: -1, name: "P.patch".to_owned() }],
    };
    // Pixels row-major: the patch cell that lands on (0,0) is (1,1).
    let mut patch = solid(2, 2, 0);
    patch.data = vec![
        IAColor { i: 1, a: 0xFF },
        IAColor { i: 2, a: 0xFF },
        IAColor { i: 3, a: 0xFF },
        IAColor { i: 4, a: 0xFF },
    ];
    let img = import_wall(&info, &vec![patch]);
    assert_eq!(img.data[0], IAColor { i: 4, a: 0xFF });
    // Cells the patch does not reach stay transparent.
    assert_eq!(img.data[1], IAColor { i: 0, a: 0 });
    assert_eq!(img.data[2], IAColor { i: 0, a: 0 });
    assert_eq!(img.data[3], IAColor { i: 0, a: 0 });
}

#[test]
fn no_patches_mean_a_transparent_canvas() {
    let info = TextureInfo { width: 3, height: 1, patches: vec![] };
    let img = import_wall(&info, &vec![]);
    assert_eq!(img.data, vec![IAColor { i: 0, a: 0 }; 3]);
}

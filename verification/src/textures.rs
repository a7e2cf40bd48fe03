//! Texture assets: palette-indexed images, the flat format, the
//! patch-name table, the texture directory, and the resolved texture
//! reference type used by sectors and sidedefs.

use vstd::prelude::*;
use vstd::string::StringExecFns;
use crate::assets::Asset;
use crate::assets::AssetBuilder;
use crate::assets::DataSource;
use crate::bytes::le16;
use crate::bytes::le32;
use crate::bytes::parse_name8_raw;
use crate::bytes::read_i16;
use crate::bytes::read_u16;
use crate::bytes::read_u32;
use crate::bytes::signed16;
use crate::bytes::spec_name8_raw;
use crate::error::AssetError;
use crate::error::RefKind;
use crate::handle::AssetHandle;

verus! {

/// One pixel: a palette index and an alpha byte.
#[derive(Clone, Copy, Debug, PartialEq, Eq, Structural)]
pub struct IAColor {
    pub i: u8,
    pub a: u8,
}

/// A palette-indexed image in row-major order.
#[derive(Clone, Debug)]
pub struct Image {
    pub data: Vec<IAColor>,
    pub width: usize,
    pub height: usize,
}

impl Image {
    /// The pixel buffer holds exactly one entry per cell.
    pub open spec fn wf(&self) -> bool {
        self.data@.len() == self.width * self.height
    }
}

/// A resolved texture reference: a handle to a normal texture, the sky,
/// or no texture at all.
#[derive(Debug)]
pub enum TextureType<A> {
    Normal(AssetHandle<A>),
    Sky,
    Absent,
}

impl<A> TextureType<A> {
    /// Whether this reference is the sky.
    pub fn is_sky(&self) -> (r: bool)
        ensures
            r == (self is Sky),
    {
        match self {
            TextureType::Sky => true,
            _ => false,
        }
    }
}

// ---------------------------------------------------------------------
// Flats: 64 x 64 = 4096 raw palette-index bytes.
// ---------------------------------------------------------------------

/// Decode a flat: the first 4096 bytes become an opaque 64 x 64 image;
/// trailing bytes are ignored, a shorter lump is truncated.
pub fn decode_flat(b: &Vec<u8>) -> (r: Result<Image, AssetError>)
    ensures
        r is Ok <==> b@.len() >= 4096,
        r is Err ==> r->Err_0 == AssetError::Truncated,
        r is Ok ==> {
            let img = r->Ok_0;
            img.width == 64 && img.height == 64 && img.data@.len() == 4096 && forall|k: int|
                0 <= k < 4096 ==> img.data@[k] == (IAColor { i: b@[k], a: 0xFF })
        },
{
    if b.len() < 4096 {
        return Err(AssetError::Truncated);
    }
    let mut data: Vec<IAColor> = Vec::new();
    let mut k: usize = 0;
    while k < 4096
        invariant
            b@.len() >= 4096,
            k <= 4096,
            data@.len() == k,
            forall|j: int| 0 <= j < k ==> data@[j] == (IAColor { i: b@[j], a: 0xFF }),
        decreases 4096 - k,
    {
        data.push(IAColor { i: b[k], a: 0xFF });
        k = k + 1;
    }
    Ok(Image { data, width: 64, height: 64 })
}

/// Read one flat from the source and decode it.
pub fn import_flat<S: DataSource>(name: &str, source: &S) -> (r: Result<Image, AssetError>)
    ensures
        r is Ok ==> r->Ok_0.wf() && r->Ok_0.width == 64 && r->Ok_0.height == 64,
{
    let b = match source.load(name) {
        Ok(b) => b,
        Err(e) => {
            return Err(e);
        },
    };
    decode_flat(&b)
}

/// The flat asset type: its decode step already yields the final image.
#[derive(Clone, Copy, Debug)]
pub struct Flat;

impl Asset for Flat {
    type Data = Image;

    type Intermediate = Image;

    fn import<S: DataSource>(name: &str, source: &S) -> Result<Image, AssetError> {
        import_flat(name, source)
    }
}

/// Builds flats: a flat's intermediate is already its built image.
pub struct FlatBuilder;

impl AssetBuilder<Flat> for FlatBuilder {
    open spec fn inv(&self) -> bool {
        true
    }

    fn build<S: DataSource>(&mut self, intermediate: Image, source: &S) -> Result<
        Image,
        AssetError,
    > {
        Ok(intermediate)
    }
}

/// The wall texture asset type. A wall texture's pixels come from the
/// texture directory and its patches, which are resolved in the build
/// phase; the decode step only records the requested name.
#[derive(Clone, Copy, Debug)]
pub struct WallTexture;

impl Asset for WallTexture {
    type Data = Image;

    type Intermediate = String;

    fn import<S: DataSource>(name: &str, source: &S) -> Result<String, AssetError> {
        Ok(name.to_owned())
    }
}

// ---------------------------------------------------------------------
// Patch-name table: u32 count, then `count` 8-byte fixed strings.
// ---------------------------------------------------------------------

/// Whether the patch-name table decodes: the count is present, every
/// entry lies inside the lump, and every name is valid text.
pub open spec fn spec_pnames_ok(b: Seq<u8>) -> bool {
    &&& b.len() >= 4
    &&& 4 + 8 * le32(b, 0) <= b.len()
    &&& forall|k: int| 0 <= k < le32(b, 0) ==> #[trigger] spec_name8_raw(b, 4 + 8 * k) is Ok
}

/// Whether `names` is the decoded patch-name table of `b`.
pub open spec fn pnames_match(names: Seq<String>, b: Seq<u8>) -> bool {
    &&& names.len() == le32(b, 0)
    &&& forall|k: int|
        0 <= k < names.len() ==> (#[trigger] names[k])@ == spec_name8_raw(b, 4 + 8 * k)->Ok_0
}

/// Decode the patch-name table.
pub fn decode_pnames(b: &Vec<u8>) -> (r: Result<Vec<String>, AssetError>)
    ensures
        r is Ok <==> spec_pnames_ok(b@),
        r is Ok ==> pnames_match(r->Ok_0@, b@),
        r is Err ==> (r->Err_0 == AssetError::Truncated || r->Err_0 == AssetError::InvalidText),
{
    if b.len() < 4 {
        return Err(AssetError::Truncated);
    }
    let count32 = read_u32(b, 0);
    let count = count32 as usize;
    if count > (usize::MAX - 4) / 8 || 4 + 8 * count > b.len() {
        return Err(AssetError::Truncated);
    }
    let mut out: Vec<String> = Vec::new();
    let mut k: usize = 0;
    while k < count
        invariant
            b@.len() >= 4,
            b@.len() <= usize::MAX,
            count == le32(b@, 0),
            4 + 8 * count <= b@.len(),
            k <= count,
            out@.len() == k,
            forall|j: int| 0 <= j < k ==> #[trigger] spec_name8_raw(b@, 4 + 8 * j) is Ok,
            forall|j: int|
                0 <= j < k ==> (#[trigger] out@[j])@ == spec_name8_raw(b@, 4 + 8 * j)->Ok_0,
        decreases count - k,
    {
        let name = match parse_name8_raw(b, 4 + 8 * k) {
            Ok(n) => n,
            Err(e) => {
                return Err(e);
            },
        };
        out.push(name);
        k = k + 1;
    }
    Ok(out)
}

/// Read the patch-name table from the source and decode it.
pub fn import_pnames<S: DataSource>(name: &str, source: &S) -> (r: Result<Vec<String>, AssetError>)
    ensures
        r is Ok ==> r->Ok_0@.len() <= 0x1_0000_0000,
{
    let b = match source.load(name) {
        Ok(b) => b,
        Err(e) => {
            return Err(e);
        },
    };
    decode_pnames(&b)
}

// ---------------------------------------------------------------------
// Texture directory: u32 count, `count` u32 offsets; at each offset an
// 8-byte name, u32 reserved, u16 width, u16 height, u32 reserved,
// u16 patch count, then per patch {i16 x, i16 y, u16 name index, u32}.
// ---------------------------------------------------------------------

/// One patch placement inside a composed wall texture.
#[derive(Clone, Debug)]
pub struct PatchInfo {
    pub offset_x: i16,
    pub offset_y: i16,
    /// The patch's lump name, already suffixed for the image loader.
    pub name: String,
}

/// One entry of the texture directory.
#[derive(Clone, Debug)]
pub struct TextureInfo {
    pub width: usize,
    pub height: usize,
    pub patches: Vec<PatchInfo>,
}

/// The decoded texture directory: names to texture layouts, a later
/// entry shadowing an earlier one of the same name.
#[derive(Debug)]
pub struct Textures {
    pub entries: Vec<(String, TextureInfo)>,
}

impl Textures {
    /// The entry under `name`, the last one winning.
    pub fn get(&self, name: &str) -> (r: Option<&TextureInfo>)
        ensures
            match r {
                Some(t) => exists|i: int|
                    0 <= i < self.entries@.len() && (#[trigger] self.entries@[i]).0@ == name@
                        && self.entries@[i].1 == *t && (forall|j: int|
                        i < j < self.entries@.len() ==> (#[trigger] self.entries@[j]).0@ != name@),
                None => forall|i: int|
                    0 <= i < self.entries@.len() ==> (#[trigger] self.entries@[i]).0@ != name@,
            },
    {
        let owned: String = name.to_owned();
        let mut k: usize = self.entries.len();
        while k > 0
            invariant
                owned@ == name@,
                k <= self.entries@.len(),
                forall|j: int|
                    k <= j < self.entries@.len() ==> (#[trigger] self.entries@[j]).0@ != name@,
            decreases k,
        {
            k = k - 1;
            if self.entries[k].0 == owned {
                return Some(&self.entries[k].1);
            }
        }
        None
    }
}

/// Whether one directory entry at `off` decodes against a patch-name
/// table of `np` entries.
pub open spec fn spec_texture_ok(b: Seq<u8>, off: int, np: int) -> bool {
    &&& 0 <= off
    &&& off + 22 <= b.len()
    &&& spec_name8_raw(b, off) is Ok
    &&& off + 22 + 10 * le16(b, off + 20) <= b.len()
    &&& forall|j: int|
        0 <= j < le16(b, off + 20) ==> #[trigger] le16(b, off + 22 + 10 * j + 4) < np
}

/// Whether `p` is the decoded patch record at `base`, its name taken
/// from the table and suffixed with the patch loader's extension.
pub open spec fn patch_matches(p: PatchInfo, b: Seq<u8>, base: int, pnames: Seq<String>) -> bool {
    &&& p.offset_x as int == signed16(le16(b, base))
    &&& p.offset_y as int == signed16(le16(b, base + 2))
    &&& p.name@ == pnames[le16(b, base + 4)]@ + ".patch"@
}

/// Whether `t` is the decoded directory entry at `off`.
pub open spec fn texture_matches(
    name: String,
    t: TextureInfo,
    b: Seq<u8>,
    off: int,
    pnames: Seq<String>,
) -> bool {
    &&& name@ == spec_name8_raw(b, off)->Ok_0
    &&& t.width == le16(b, off + 4 + 8)
    &&& t.height == le16(b, off + 4 + 10)
    &&& t.patches@.len() == le16(b, off + 20)
    &&& forall|j: int|
        0 <= j < t.patches@.len() ==> patch_matches(
            #[trigger] t.patches@[j],
            b,
            off + 22 + 10 * j,
            pnames,
        )
}

/// Whether the whole directory decodes.
pub open spec fn spec_textures_ok(b: Seq<u8>, np: int) -> bool {
    &&& b.len() >= 4
    &&& 4 + 4 * le32(b, 0) <= b.len()
    &&& forall|k: int|
        0 <= k < le32(b, 0) ==> spec_texture_ok(b, #[trigger] le32(b, 4 + 4 * k), np)
}

/// Decode the texture directory against an already-decoded patch-name
/// table. A patch record naming a patch outside the table is a
/// referential error.
pub fn decode_textures(b: &Vec<u8>, pnames: &Vec<String>) -> (r: Result<Textures, AssetError>)
    requires
        pnames@.len() <= 0x1_0000_0000,
    ensures
        r is Ok <==> spec_textures_ok(b@, pnames@.len() as int),
        r is Ok ==> {
            let t = r->Ok_0;
            t.entries@.len() == le32(b@, 0) && forall|k: int|
                0 <= k < t.entries@.len() ==> texture_matches(
                    (#[trigger] t.entries@[k]).0,
                    t.entries@[k].1,
                    b@,
                    le32(b@, 4 + 4 * k),
                    pnames@,
                )
        },
{
    if b.len() < 4 {
        return Err(AssetError::Truncated);
    }
    let count = read_u32(b, 0) as usize;
    if count > (usize::MAX - 4) / 4 || 4 + 4 * count > b.len() {
        return Err(AssetError::Truncated);
    }
    let mut entries: Vec<(String, TextureInfo)> = Vec::new();
    let mut k: usize = 0;
    while k < count
        invariant
            b@.len() >= 4,
            b@.len() <= usize::MAX,
            pnames@.len() <= 0x1_0000_0000,
            count == le32(b@, 0),
            4 + 4 * count <= b@.len(),
            k <= count,
            entries@.len() == k,
            forall|j: int|
                0 <= j < k ==> spec_texture_ok(b@, #[trigger] le32(b@, 4 + 4 * j), pnames@.len() as int),
            forall|j: int|
                0 <= j < k ==> texture_matches(
                    (#[trigger] entries@[j]).0,
                    entries@[j].1,
                    b@,
                    le32(b@, 4 + 4 * j),
                    pnames@,
                ),
        decreases count - k,
    {
        let off32 = read_u32(b, 4 + 4 * k);
        let off = off32 as usize;
        if off > usize::MAX - 22 || off + 22 > b.len() {
            proof {
                assert(!spec_texture_ok(b@, le32(b@, 4 + 4 * (k as int)), pnames@.len() as int));
            }
            return Err(AssetError::Truncated);
        }
        let name = match parse_name8_raw(b, off) {
            Ok(n) => n,
            Err(e) => {
                proof {
                    assert(!spec_texture_ok(b@, le32(b@, 4 + 4 * (k as int)), pnames@.len() as int));
                }
                return Err(e);
            },
        };
        let width = read_u16(b, off + 12) as usize;
        let height = read_u16(b, off + 14) as usize;
        let patch_count = read_u16(b, off + 20) as usize;
        if 10 * patch_count > b.len() - 22 - off {
            proof {
                assert(!spec_texture_ok(b@, le32(b@, 4 + 4 * (k as int)), pnames@.len() as int));
            }
            return Err(AssetError::Truncated);
        }
        let mut patches: Vec<PatchInfo> = Vec::new();
        let mut j: usize = 0;
        while j < patch_count
            invariant
                off + 22 + 10 * patch_count <= b@.len(),
                b@.len() >= 4,
                b@.len() <= usize::MAX,
                pnames@.len() <= 0x1_0000_0000,
                count == le32(b@, 0),
                k < count,
                4 + 4 * count <= b@.len(),
                off as int == le32(b@, 4 + 4 * (k as int)),
                patch_count == le16(b@, off as int + 20),
                j <= patch_count,
                patches@.len() == j,
                forall|m: int|
                    0 <= m < j ==> #[trigger] le16(b@, off + 22 + 10 * m + 4) < pnames@.len(),
                forall|m: int|
                    0 <= m < j ==> patch_matches(
                        #[trigger] patches@[m],
                        b@,
                        off + 22 + 10 * m,
                        pnames@,
                    ),
            decreases patch_count - j,
        {
            let base = off + 22 + 10 * j;
            let pindex = read_u16(b, base + 4) as usize;
            if pindex >= pnames.len() {
                proof {
                    let ghost oi = off as int;
                    let ghost np = pnames@.len() as int;
                    assert(le16(b@, oi + 22 + 10 * (j as int) + 4) >= np);
                    assert(!spec_texture_ok(b@, oi, np)) by {
                        assert(0 <= (j as int) && (j as int) < le16(b@, oi + 20));
                        assert(!(le16(b@, oi + 22 + 10 * (j as int) + 4) < np));
                    }
                    assert(oi == le32(b@, 4 + 4 * (k as int)));
                    assert(!spec_texture_ok(b@, le32(b@, 4 + 4 * (k as int)), pnames@.len() as int));
                }
                return Err(
                    AssetError::BadReference {
                        kind: RefKind::TexturePatchName,
                        record: k,
                        value: pindex,
                    },
                );
            }
            let pname: String = String::from_str(pnames[pindex].as_str()).concat(".patch");
            patches.push(
                PatchInfo {
                    offset_x: read_i16(b, base),
                    offset_y: read_i16(b, base + 2),
                    name: pname,
                },
            );
            j = j + 1;
        }
        entries.push((name, TextureInfo { width, height, patches }));
        k = k + 1;
    }
    Ok(Textures { entries })
}

// ---------------------------------------------------------------------
// Wall texture compositing.
// ---------------------------------------------------------------------

/// Whether the patch placed at `(p.offset_x, p.offset_y)` covers the
/// texture cell `(x, y)`.
pub open spec fn patch_covers(p: PatchInfo, img: Image, x: int, y: int) -> bool {
    &&& p.offset_x <= x < p.offset_x + img.width
    &&& p.offset_y <= y < p.offset_y + img.height
}

/// The pixel of cell `(x, y)` after blitting the first `n` patches onto
/// a transparent canvas: the last covering patch wins.
pub open spec fn spec_wall_pixel(
    info: TextureInfo,
    patches: Seq<Image>,
    n: int,
    x: int,
    y: int,
) -> IAColor
    decreases n,
{
    if n <= 0 {
        IAColor { i: 0, a: 0 }
    } else {
        let p = info.patches@[n - 1];
        let img = patches[n - 1];
        if patch_covers(p, img, x, y) {
            img.data@[(y - p.offset_y) * img.width + (x - p.offset_x)]
        } else {
            spec_wall_pixel(info, patches, n - 1, x, y)
        }
    }
}

proof fn lemma_rowmajor_lt(w: int, x1: int, y1: int, x2: int, y2: int)
    requires
        0 <= x1 < w,
        0 <= x2 < w,
        0 <= y1,
        0 <= y2,
        y1 < y2 || (y1 == y2 && x1 < x2),
    ensures
        y1 * w + x1 < y2 * w + x2,
{
    assert(y1 * w + x1 < y2 * w + x2) by (nonlinear_arith)
        requires
            0 <= x1 < w,
            0 <= x2 < w,
            0 <= y1,
            0 <= y2,
            y1 < y2 || (y1 == y2 && x1 < x2),
    ;
}

proof fn lemma_rowmajor_bound(w: int, h: int, x: int, y: int)
    requires
        0 <= x < w,
        0 <= y < h,
    ensures
        0 <= y * w + x < w * h,
{
    assert(0 <= y * w + x < w * h) by (nonlinear_arith)
        requires
            0 <= x < w,
            0 <= y < h,
    ;
}

/// Compose a wall texture: blit each patch, in order, onto an initially
/// transparent canvas of the directory entry's size. Every cell ends up
/// holding the last covering patch's pixel, or stays transparent.
pub fn import_wall(info: &TextureInfo, patches: &Vec<Image>) -> (r: Image)
    requires
        patches@.len() == info.patches@.len(),
        forall|k: int| 0 <= k < patches@.len() ==> (#[trigger] patches@[k]).wf(),
        info.width <= 0xFFFF,
        info.height <= 0xFFFF,
        forall|k: int|
            0 <= k < patches@.len() ==> (#[trigger] patches@[k]).width <= 0xFFFF
                && patches@[k].height <= 0xFFFF,
    ensures
        r.width == info.width,
        r.height == info.height,
        r.wf(),
        forall|x: int, y: int|
            0 <= x < info.width && 0 <= y < info.height ==> r.data@[y * info.width + x]
                == #[trigger] spec_wall_pixel(*info, patches@, patches@.len() as int, x, y),
{
    let w: usize = info.width;
    let h: usize = info.height;
    proof {
        assert(w * h <= 0xFFFF * 0xFFFF) by (nonlinear_arith)
            requires
                w <= 0xFFFF,
                h <= 0xFFFF,
        ;
    }
    let total: usize = w * h;
    proof {
        assert(w * h < usize::MAX);
    }
    let mut data: Vec<IAColor> = Vec::new();
    let mut i: usize = 0;
    while i < total
        invariant
            total == w * h,
            i <= total,
            data@.len() == i,
            forall|m: int| 0 <= m < i ==> data@[m] == (IAColor { i: 0, a: 0 }),
        decreases total - i,
    {
        data.push(IAColor { i: 0, a: 0 });
        i = i + 1;
    }
    proof {
        assert forall|x: int, y: int| 0 <= x < w && 0 <= y < h implies data@[y * w + x]
            == #[trigger] spec_wall_pixel(*info, patches@, 0, x, y) by {
            lemma_rowmajor_bound(w as int, h as int, x, y);
        }
    }
    let mut k: usize = 0;
    while k < patches.len()
        invariant
            patches@.len() == info.patches@.len(),
            forall|m: int| 0 <= m < patches@.len() ==> (#[trigger] patches@[m]).wf(),
            w == info.width,
            h == info.height,
            w <= 0xFFFF,
            h <= 0xFFFF,
            forall|m: int|
                0 <= m < patches@.len() ==> (#[trigger] patches@[m]).width <= 0xFFFF
                    && patches@[m].height <= 0xFFFF,
            k <= patches@.len(),
            data@.len() == w * h,
            w * h < usize::MAX,
            forall|x: int, y: int|
                0 <= x < w && 0 <= y < h ==> data@[y * w + x] == #[trigger] spec_wall_pixel(
                    *info,
                    patches@,
                    k as int,
                    x,
                    y,
                ),
        decreases patches@.len() - k,
    {
        let pinfo = &info.patches[k];
        let patch = &patches[k];
        let pw: usize = patch.width;
        let ph: usize = patch.height;
        let ox: i64 = pinfo.offset_x as i64;
        let oy: i64 = pinfo.offset_y as i64;
        let ghost dk = data@;
        let mut next: Vec<IAColor> = Vec::new();
        let mut y: usize = 0;
        while y < h
            invariant
                patches@.len() == info.patches@.len(),
                k < patches@.len(),
                patches@[k as int].wf(),
                *patch == patches@[k as int],
                w <= 0xFFFF,
                h <= 0xFFFF,
                pw == patches@[k as int].width,
                ph == patches@[k as int].height,
                pw <= 0xFFFF,
                ph <= 0xFFFF,
                ox == info.patches@[k as int].offset_x as int,
                oy == info.patches@[k as int].offset_y as int,
                data@ == dk,
                dk.len() == w * h,
                w * h < usize::MAX,
                y <= h,
                next@.len() == y * w,
                forall|x2: int, y2: int|
                    0 <= x2 < w && 0 <= y2 < y ==> next@[y2 * w + x2] == (
                    if #[trigger] patch_covers(
                        info.patches@[k as int],
                        patches@[k as int],
                        x2,
                        y2,
                    ) {
                        patches@[k as int].data@[(y2 - oy) * pw + (x2 - ox)]
                    } else {
                        dk[y2 * w + x2]
                    }),
            decreases h - y,
        {
            let mut x: usize = 0;
            while x < w
                invariant
                    patches@.len() == info.patches@.len(),
                    k < patches@.len(),
                    patches@[k as int].wf(),
                    *patch == patches@[k as int],
                    w <= 0xFFFF,
                    h <= 0xFFFF,
                    pw == patches@[k as int].width,
                    ph == patches@[k as int].height,
                    pw <= 0xFFFF,
                    ph <= 0xFFFF,
                    ox == info.patches@[k as int].offset_x as int,
                    oy == info.patches@[k as int].offset_y as int,
                    data@ == dk,
                    dk.len() == w * h,
                    w * h < usize::MAX,
                    y < h,
                    x <= w,
                    next@.len() == y * w + x,
                    forall|x2: int, y2: int|
                        0 <= x2 < w && (0 <= y2 < y || (y2 == y && 0 <= x2 < x)) ==> next@[y2 * w
                            + x2] == (if #[trigger] patch_covers(
                            info.patches@[k as int],
                            patches@[k as int],
                            x2,
                            y2,
                        ) {
                            patches@[k as int].data@[(y2 - oy) * pw + (x2 - ox)]
                        } else {
                            data@[y2 * w + x2]
                        }),
                decreases w - x,
            {
                let inside = x as i64 >= ox && (x as i64) < ox + pw as i64 && y as i64 >= oy && (
                y as i64) < oy + ph as i64;
                proof {
                    assert(inside == patch_covers(
                        info.patches@[k as int],
                        patches@[k as int],
                        x as int,
                        y as int,
                    ));
                    lemma_rowmajor_bound(w as int, h as int, x as int, y as int);
                }
                let px: IAColor = if inside {
                    let sy: usize = (y as i64 - oy) as usize;
                    let sx: usize = (x as i64 - ox) as usize;
                    proof {
                        assert(sy < ph && sx < pw);
                        lemma_rowmajor_bound(pw as int, ph as int, sx as int, sy as int);
                        assert(pw * ph <= 0xFFFF * 0xFFFF) by (nonlinear_arith)
                            requires
                                pw <= 0xFFFF,
                                ph <= 0xFFFF,
                        ;
                        assert(sy * pw + sx == (y - oy) * pw + (x - ox));
                    }
                    patch.data[sy * pw + sx]
                } else {
                    data[y * w + x]
                };
                next.push(px);
                proof {
                    assert forall|x2: int, y2: int|
                        0 <= x2 < w && (0 <= y2 < y || (y2 == y && 0 <= x2 < x + 1)) implies next@[
                    y2 * w + x2] == (if #[trigger] patch_covers(
                        info.patches@[k as int],
                        patches@[k as int],
                        x2,
                        y2,
                    ) {
                        patches@[k as int].data@[(y2 - oy) * pw + (x2 - ox)]
                    } else {
                        dk[y2 * w + x2]
                    }) by {
                        if y2 == y && x2 == x {
                            assert(next@[y * w + x] == px);
                        } else {
                            lemma_rowmajor_lt(w as int, x2, y2, x as int, y as int);
                            assert(next@[y2 * w + x2] == next@.drop_last()[y2 * w + x2]);
                        }
                    }
                }
                x = x + 1;
            }
            proof {
                assert((y + 1) * w == y * w + w) by (nonlinear_arith);
            }
            y = y + 1;
        }
        proof {
            assert(h * w == w * h) by (nonlinear_arith);
        }
        data = next;
        proof {
            assert forall|x2: int, y2: int| 0 <= x2 < w && 0 <= y2 < h implies data@[y2 * w + x2]
                == #[trigger] spec_wall_pixel(*info, patches@, k + 1 as int, x2, y2) by {
                assert(dk[y2 * w + x2] == spec_wall_pixel(*info, patches@, k as int, x2, y2));
            }
        }
        k = k + 1;
    }
    Image { data, width: w, height: h }
}

/// Read the texture directory from the source and decode it against the
/// given patch-name table.
pub fn import_textures<S: DataSource>(name: &str, source: &S, pnames: &Vec<String>) -> (r: Result<
    Textures,
    AssetError,
>)
    requires
        pnames@.len() <= 0x1_0000_0000,
{
    let b = match source.load(name) {
        Ok(b) => b,
        Err(e) => {
            return Err(e);
        },
    };
    decode_textures(&b, pnames)
}

} // verus!

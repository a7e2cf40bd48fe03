//! The Map Builder: turns validated lump data plus a sky-flat name into
//! the final map, resolving texture names to handles through the asset
//! registry, computing the sector adjacency graph, re-indexing the BSP
//! tree to root-first order and deriving convex subsector boundaries.

use vstd::prelude::*;
use crate::assets::Asset;
use crate::assets::AssetStorage;
use crate::assets::DataSource;
use crate::assets::StorageModel;
use crate::error::AssetError;
use crate::geom::Dir2;
use crate::geom::Line2;
use crate::geom::Plane;
use crate::geom::Side;
use crate::geom::AABB2;
use crate::geom::Vec2;
use crate::geom::bbox_add;
use crate::geom::bbox_planes;
use crate::geom::bbox_two;
use crate::geom::dot;
use crate::geom::line_between;
use crate::geom::neg_dir;
use crate::geom::normal_between;
use crate::geom::spec_bbox_add;
use crate::geom::spec_bbox_planes;
use crate::geom::spec_bbox_two;
use crate::geom::spec_diagonal;
use crate::geom::spec_dir_between;
use crate::geom::spec_dot;
use crate::geom::spec_line_between;
use crate::geom::spec_neg_dir;
use crate::geom::spec_normal_of;
use crate::handle::AssetHandle;
use crate::lumps::LINEDEF_BLOCKING;
use crate::lumps::LINEDEF_BLOCKMONSTERS;
use crate::lumps::EitherVertex;
use crate::lumps::GLNodeData;
use crate::lumps::GLSSectData;
use crate::lumps::GLSegData;
use crate::lumps::LinedefData;
use crate::lumps::NodeChild;
use crate::lumps::SectorData;
use crate::lumps::SidedefData;
use crate::map::Interval;
use crate::map::GLSSect;
use crate::map::LevelMap;
use crate::map::MapData;
use crate::map::ValidMapData;
use crate::map::GLNode;
use crate::map::GLSeg;
use crate::map::Linedef;
use crate::map::SOLID_MASK_ALL;
use crate::map::SOLID_MASK_EMPTY;
use crate::map::SOLID_MASK_MONSTER;
use crate::map::Sector;
use crate::map::Sidedef;
use crate::textures::Flat;
use crate::textures::TextureType;
use crate::textures::WallTexture;

verus! {

/// Whether a flat name is the sky marker: any flat literally named
/// `F_SKY1` always resolves to the sky, regardless of storage state.
pub open spec fn sky_flat(n: Seq<char>) -> bool {
    n == "F_SKY1"@
}

/// How one texture slot resolves against a storage state: an absent name
/// stays absent; with the sky special-case enabled, the sky marker
/// becomes the sky; any other name becomes a normal texture whose handle
/// is the one the storage maps the name to.
pub open spec fn tex_resolved<A: Asset>(
    name: Option<String>,
    sky_special: bool,
    t: &TextureType<A>,
    m: StorageModel<A>,
) -> bool {
    match name {
        Option::None => t is Absent,
        Option::Some(n) => if sky_special && sky_flat(n@) {
            t is Sky
        } else {
            t is Normal && m.names.contains_key(n@) && t->Normal_0@ == m.names[n@]
        },
    }
}

/// The per-map memoization cache agrees with the storage's name map.
pub open spec fn cache_ok<A: Asset>(
    c: Seq<(String, AssetHandle<A>)>,
    m: StorageModel<A>,
) -> bool {
    forall|i: int|
        0 <= i < c.len() ==> m.names.contains_key((#[trigger] c[i]).0@) && c[i].1@
            == m.names[c[i].0@]
}

/// What resolving textures may do to a storage: only register new names
/// and queue new entries; nothing already built, listed or named changes.
pub open spec fn storage_step<A: Asset>(m0: StorageModel<A>, m1: StorageModel<A>) -> bool {
    &&& m1.assets == m0.assets
    &&& m1.handle_ids == m0.handle_ids
    &&& m1.failed_ids == m0.failed_ids
    &&& forall|k: Seq<char>|
        #[trigger] m0.names.contains_key(k) ==> m1.names.contains_key(k) && m1.names[k]
            == m0.names[k]
    &&& m0.unbuilt.is_prefix_of(m1.unbuilt)
    &&& m0.next_id <= m1.next_id
}

pub proof fn lemma_storage_step_trans<A: Asset>(
    m0: StorageModel<A>,
    m1: StorageModel<A>,
    m2: StorageModel<A>,
)
    requires
        storage_step(m0, m1),
        storage_step(m1, m2),
    ensures
        storage_step(m0, m2),
{
    assert forall|k: Seq<char>| #[trigger] m0.names.contains_key(k) implies m2.names.contains_key(
        k,
    ) && m2.names[k] == m0.names[k] by {
        assert(m1.names.contains_key(k) && m1.names[k] == m0.names[k]);
    }
    assert(m0.unbuilt =~= m1.unbuilt.take(m0.unbuilt.len() as int));
    assert(m1.unbuilt =~= m2.unbuilt.take(m1.unbuilt.len() as int));
    assert(m0.unbuilt =~= m2.unbuilt.take(m0.unbuilt.len() as int));
}

/// A resolved slot stays resolved when the storage only grows.
pub proof fn lemma_tex_resolved_step<A: Asset>(
    name: Option<String>,
    sky_special: bool,
    t: &TextureType<A>,
    m0: StorageModel<A>,
    m1: StorageModel<A>,
)
    requires
        tex_resolved(name, sky_special, t, m0),
        storage_step(m0, m1),
    ensures
        tex_resolved(name, sky_special, t, m1),
{
}

/// Resolve one texture slot: the memoized handle if the name was already
/// resolved for this map, else a (possibly fresh) load through the
/// storage, remembered in the cache.
fn resolve_texture<A: Asset, S: DataSource>(
    name: &Option<String>,
    sky_special: bool,
    cache: &mut Vec<(String, AssetHandle<A>)>,
    storage: &mut AssetStorage<A>,
    source: &S,
) -> (r: TextureType<A>)
    requires
        old(storage).wf(),
        old(storage)@.next_id < u64::MAX,
        cache_ok(old(cache)@, old(storage)@),
    ensures
        final(storage).wf(),
        cache_ok(final(cache)@, final(storage)@),
        storage_step(old(storage)@, final(storage)@),
        final(storage)@.next_id <= old(storage)@.next_id + 1,
        tex_resolved(*name, sky_special, &r, final(storage)@),
{
    match name {
        Option::None => TextureType::Absent,
        Option::Some(n) => {
            let sky: String = "F_SKY1".to_owned();
            if sky_special && *n == sky {
                return TextureType::Sky;
            }
            let mut i: usize = 0;
            while i < cache.len()
                invariant
                    storage.wf(),
                    cache_ok(cache@, storage@),
                    i <= cache@.len(),
                    *name == Some(*n),
                    sky_special ==> !sky_flat(n@),
                decreases cache@.len() - i,
            {
                if cache[i].0 == *n {
                    return TextureType::Normal(cache[i].1.clone());
                }
                i = i + 1;
            }
            let handle = storage.load(n.as_str(), source);
            cache.push((n.clone(), handle.clone()));
            proof {
                assert forall|k: int| 0 <= k < cache@.len() implies final(storage)@.names
                    .contains_key((#[trigger] cache@[k]).0@) && cache@[k].1@
                    == final(storage)@.names[cache@[k].0@] by {
                    if k < cache@.len() - 1 {
                        assert(old(storage)@.names.contains_key(old(cache)@[k].0@));
                    }
                }
            }
            TextureType::Normal(handle)
        },
    }
}

/// Whether `s` is the sector built from `d` against the flat storage
/// state `m`, before any neighbour or subsector is registered. The
/// record's behaviour code is deliberately copied into both the special
/// type and the sector tag: reference levels alias the two fields.
pub open spec fn sector_built(s: &Sector, d: SectorData, m: StorageModel<Flat>) -> bool {
    &&& s.interval == (Interval { min: d.floor_height, max: d.ceiling_height })
    &&& tex_resolved(d.floor_flat_name, true, &s.floor_texture, m)
    &&& tex_resolved(d.ceiling_flat_name, true, &s.ceiling_texture, m)
    &&& s.light_level == d.light_level
    &&& s.special_type == d.special_type
    &&& s.sector_tag == d.special_type
}

/// Build the sector list: height intervals from floor and ceiling,
/// floor and ceiling flats resolved through one per-map cache, empty
/// neighbour and subsector lists.
pub fn build_sectors<S: DataSource>(
    sectors_data: &Vec<SectorData>,
    source: &S,
    flats: &mut AssetStorage<Flat>,
) -> (r: Vec<Sector>)
    requires
        old(flats).wf(),
        old(flats)@.next_id + 2 * sectors_data@.len() < u64::MAX,
    ensures
        final(flats).wf(),
        storage_step(old(flats)@, final(flats)@),
        final(flats)@.next_id <= old(flats)@.next_id + 2 * sectors_data@.len(),
        r@.len() == sectors_data@.len(),
        forall|i: int|
            0 <= i < r@.len() ==> sector_built(&#[trigger] r@[i], sectors_data@[i], final(flats)@)
                && r@[i].neighbours@ == Seq::<usize>::empty() && r@[i].subsectors@
                == Seq::<usize>::empty(),
{
    let ghost m0 = flats@;
    let mut cache: Vec<(String, AssetHandle<Flat>)> = Vec::new();
    let mut out: Vec<Sector> = Vec::new();
    let mut i: usize = 0;
    while i < sectors_data.len()
        invariant
            flats.wf(),
            cache_ok(cache@, flats@),
            storage_step(m0, flats@),
            m0.next_id + 2 * sectors_data@.len() < u64::MAX,
            flats@.next_id <= m0.next_id + 2 * i,
            i <= sectors_data@.len(),
            out@.len() == i,
            forall|k: int|
                0 <= k < i ==> sector_built(&#[trigger] out@[k], sectors_data@[k], flats@)
                    && out@[k].neighbours@ == Seq::<usize>::empty() && out@[k].subsectors@
                    == Seq::<usize>::empty(),
        decreases sectors_data@.len() - i,
    {
        let ghost m_pre = flats@;
        let d = &sectors_data[i];
        let floor_texture = resolve_texture(&d.floor_flat_name, true, &mut cache, flats, source);
        let ghost m_mid = flats@;
        let ceiling_texture = resolve_texture(
            &d.ceiling_flat_name,
            true,
            &mut cache,
            flats,
            source,
        );
        proof {
            lemma_storage_step_trans(m_pre, m_mid, flats@);
            lemma_storage_step_trans(m0, m_pre, flats@);
            lemma_tex_resolved_step(d.floor_flat_name, true, &floor_texture, m_mid, flats@);
            assert forall|k: int| 0 <= k < out@.len() implies sector_built(
                &#[trigger] out@[k],
                sectors_data@[k],
                flats@,
            ) by {
                lemma_tex_resolved_step(
                    sectors_data@[k].floor_flat_name,
                    true,
                    &out@[k].floor_texture,
                    m_pre,
                    flats@,
                );
                lemma_tex_resolved_step(
                    sectors_data@[k].ceiling_flat_name,
                    true,
                    &out@[k].ceiling_texture,
                    m_pre,
                    flats@,
                );
            }
        }
        out.push(
            Sector {
                interval: Interval { min: d.floor_height, max: d.ceiling_height },
                floor_texture,
                ceiling_texture,
                light_level: d.light_level,
                special_type: d.special_type,
                sector_tag: d.special_type,
                subsectors: Vec::new(),
                neighbours: Vec::new(),
            },
        );
        i = i + 1;
    }
    out
}

/// Whether `s` is the sidedef built from `d` against the wall texture
/// storage state `m`: only the top slot gets the sky special-case.
pub open spec fn sidedef_built(s: &Sidedef, d: SidedefData, m: StorageModel<WallTexture>) -> bool {
    &&& s.texture_offset_x == d.texture_offset_x
    &&& s.texture_offset_y == d.texture_offset_y
    &&& tex_resolved(d.top_texture_name, true, &s.top_texture, m)
    &&& tex_resolved(d.bottom_texture_name, false, &s.bottom_texture, m)
    &&& tex_resolved(d.middle_texture_name, false, &s.middle_texture, m)
    &&& s.sector_index == d.sector_index
}

/// Build the sidedef list, each face's textures resolved through one
/// per-map cache and tagged with its owning sector. The result is an
/// arena of not-yet-claimed faces: linedef construction takes ownership
/// of each exactly once.
pub fn build_sidedefs<S: DataSource>(
    sidedefs_data: &Vec<SidedefData>,
    source: &S,
    walls: &mut AssetStorage<WallTexture>,
) -> (r: Vec<Option<Sidedef>>)
    requires
        old(walls).wf(),
        old(walls)@.next_id + 3 * sidedefs_data@.len() < u64::MAX,
    ensures
        final(walls).wf(),
        storage_step(old(walls)@, final(walls)@),
        final(walls)@.next_id <= old(walls)@.next_id + 3 * sidedefs_data@.len(),
        r@.len() == sidedefs_data@.len(),
        forall|i: int|
            0 <= i < r@.len() ==> (#[trigger] r@[i]) is Some && sidedef_built(
                &r@[i]->0,
                sidedefs_data@[i],
                final(walls)@,
            ),
{
    let ghost m0 = walls@;
    let mut cache: Vec<(String, AssetHandle<WallTexture>)> = Vec::new();
    let mut out: Vec<Option<Sidedef>> = Vec::new();
    let mut i: usize = 0;
    while i < sidedefs_data.len()
        invariant
            walls.wf(),
            cache_ok(cache@, walls@),
            storage_step(m0, walls@),
            m0.next_id + 3 * sidedefs_data@.len() < u64::MAX,
            walls@.next_id <= m0.next_id + 3 * i,
            i <= sidedefs_data@.len(),
            out@.len() == i,
            forall|k: int|
                0 <= k < i ==> (#[trigger] out@[k]) is Some && sidedef_built(
                    &out@[k]->0,
                    sidedefs_data@[k],
                    walls@,
                ),
        decreases sidedefs_data@.len() - i,
    {
        let ghost m_pre = walls@;
        let d = &sidedefs_data[i];
        let top_texture = resolve_texture(&d.top_texture_name, true, &mut cache, walls, source);
        let ghost m_a = walls@;
        let bottom_texture = resolve_texture(
            &d.bottom_texture_name,
            false,
            &mut cache,
            walls,
            source,
        );
        let ghost m_b = walls@;
        let middle_texture = resolve_texture(
            &d.middle_texture_name,
            false,
            &mut cache,
            walls,
            source,
        );
        proof {
            lemma_storage_step_trans(m_a, m_b, walls@);
            lemma_storage_step_trans(m_pre, m_a, walls@);
            lemma_storage_step_trans(m0, m_pre, walls@);
            lemma_tex_resolved_step(d.top_texture_name, true, &top_texture, m_a, walls@);
            lemma_tex_resolved_step(d.bottom_texture_name, false, &bottom_texture, m_b, walls@);
            assert forall|k: int| 0 <= k < out@.len() implies (#[trigger] out@[k]) is Some
                && sidedef_built(&out@[k]->0, sidedefs_data@[k], walls@) by {
                lemma_tex_resolved_step(
                    sidedefs_data@[k].top_texture_name,
                    true,
                    &out@[k]->0.top_texture,
                    m_pre,
                    walls@,
                );
                lemma_tex_resolved_step(
                    sidedefs_data@[k].bottom_texture_name,
                    false,
                    &out@[k]->0.bottom_texture,
                    m_pre,
                    walls@,
                );
                lemma_tex_resolved_step(
                    sidedefs_data@[k].middle_texture_name,
                    false,
                    &out@[k]->0.middle_texture,
                    m_pre,
                    walls@,
                );
            }
        }
        out.push(
            Some(
                Sidedef {
                    texture_offset_x: d.texture_offset_x,
                    texture_offset_y: d.texture_offset_y,
                    top_texture,
                    bottom_texture,
                    middle_texture,
                    sector_index: d.sector_index,
                },
            ),
        );
        i = i + 1;
    }
    out
}

// ---------------------------------------------------------------------
// Linedef construction: sidedef ownership transfer, the sector
// adjacency graph, and the sky hack.
// ---------------------------------------------------------------------

/// The sidedef reference of linedef `l` on the given side.
pub open spec fn spec_claim(lds: Seq<LinedefData>, l: int, side: Side) -> Option<usize> {
    lds[l].spec_sidedef_index(side)
}

/// Each sidedef belongs to at most one linedef slot.
pub open spec fn claims_unique(lds: Seq<LinedefData>) -> bool {
    forall|l1: int, s1: Side, l2: int, s2: Side|
        0 <= l1 < lds.len() && 0 <= l2 < lds.len() && (l1 != l2 || s1 != s2) && (
        #[trigger] spec_claim(lds, l1, s1)) is Some ==> spec_claim(lds, l1, s1) != #[trigger] spec_claim(
            lds,
            l2,
            s2,
        )
}

/// Whether some slot of the first `l` linedefs claims sidedef `x`.
pub open spec fn claimed_before(lds: Seq<LinedefData>, l: int, x: usize) -> bool {
    exists|k: int, s: Side| 0 <= k < l && #[trigger] spec_claim(lds, k, s) == Some(x)
}

/// Check that no sidedef is claimed by two linedef slots; on a clash,
/// name one sidedef that is claimed twice.
pub fn sidedef_claims_unique(linedefs_data: &Vec<LinedefData>, n_sidedefs: usize) -> (r: Option<
    usize,
>)
    requires
        forall|l: int|
            0 <= l < linedefs_data@.len() ==> ((#[trigger] linedefs_data@[l]).right_sidedef_index
                matches Some(x) ==> x < n_sidedefs) && (linedefs_data@[l].left_sidedef_index
                matches Some(x) ==> x < n_sidedefs),
    ensures
        r is None <==> claims_unique(linedefs_data@),
{
    let ghost lds = linedefs_data@;
    let mut seen: Vec<bool> = Vec::new();
    let mut i: usize = 0;
    while i < n_sidedefs
        invariant
            i <= n_sidedefs,
            seen@.len() == i,
            forall|x: int| 0 <= x < i ==> !seen@[x],
        decreases n_sidedefs - i,
    {
        seen.push(false);
        i = i + 1;
    }
    let mut l: usize = 0;
    while l < linedefs_data.len()
        invariant
            lds == linedefs_data@,
            forall|k: int|
                0 <= k < lds.len() ==> ((#[trigger] lds[k]).right_sidedef_index matches Some(x)
                    ==> x < n_sidedefs) && (lds[k].left_sidedef_index matches Some(x) ==> x
                    < n_sidedefs),
            seen@.len() == n_sidedefs,
            l <= lds.len(),
            forall|x: usize| x < n_sidedefs ==> seen@[x as int] == claimed_before(lds, l as int, x),
            forall|l1: int, s1: Side, l2: int, s2: Side|
                0 <= l1 < l && 0 <= l2 < l && (l1 != l2 || s1 != s2) && (#[trigger] spec_claim(
                    lds,
                    l1,
                    s1,
                )) is Some ==> spec_claim(lds, l1, s1) != #[trigger] spec_claim(lds, l2, s2),
        decreases lds.len() - l,
    {
        let ld = &linedefs_data[l];
        match ld.right_sidedef_index {
            Some(x) => {
                if seen[x] {
                    proof {
                        let (k, s) = choose|k: int, s: Side|
                            0 <= k < l && #[trigger] spec_claim(lds, k, s) == Some(x);
                        assert(spec_claim(lds, l as int, Side::Right) == Some(x));
                        assert(!claims_unique(lds));
                    }
                    return Some(x);
                }
                seen[x] = true;
            },
            None => {},
        }
        proof {
            assert forall|y: usize| y < n_sidedefs implies seen@[y as int] == (claimed_before(
                lds,
                l as int,
                y,
            ) || spec_claim(lds, l as int, Side::Right) == Some(y)) by {
                if claimed_before(lds, l as int, y) || spec_claim(lds, l as int, Side::Right)
                    == Some(y) {
                    assert(seen@[y as int]);
                }
            }
        }
        match ld.left_sidedef_index {
            Some(x) => {
                if seen[x] {
                    proof {
                        if claimed_before(lds, l as int, x) {
                            let (k, s) = choose|k: int, s: Side|
                                0 <= k < l && #[trigger] spec_claim(lds, k, s) == Some(x);
                            assert(spec_claim(lds, l as int, Side::Left) == Some(x));
                        } else {
                            assert(spec_claim(lds, l as int, Side::Right) == Some(x));
                            assert(spec_claim(lds, l as int, Side::Left) == Some(x));
                        }
                        assert(!claims_unique(lds));
                    }
                    return Some(x);
                }
                seen[x] = true;
            },
            None => {},
        }
        proof {
            assert forall|y: usize| y < n_sidedefs implies seen@[y as int] == claimed_before(
                lds,
                (l + 1) as int,
                y,
            ) by {
                if seen@[y as int] {
                    if claimed_before(lds, l as int, y) {
                        let (k, s) = choose|k: int, s: Side|
                            0 <= k < l && #[trigger] spec_claim(lds, k, s) == Some(y);
                        assert(spec_claim(lds, k, s) == Some(y));
                        assert(claimed_before(lds, (l + 1) as int, y));
                    } else if spec_claim(lds, l as int, Side::Right) == Some(y) {
                        assert(claimed_before(lds, (l + 1) as int, y));
                    } else {
                        assert(spec_claim(lds, l as int, Side::Left) == Some(y));
                        assert(claimed_before(lds, (l + 1) as int, y));
                    }
                } else {
                    if claimed_before(lds, (l + 1) as int, y) {
                        let (k, s) = choose|k: int, s: Side|
                            0 <= k < l + 1 && #[trigger] spec_claim(lds, k, s) == Some(y);
                        if k < l {
                            assert(claimed_before(lds, l as int, y));
                        }
                        assert(false);
                    }
                }
            }
            assert forall|l1: int, s1: Side, l2: int, s2: Side|
                0 <= l1 < l + 1 && 0 <= l2 < l + 1 && (l1 != l2 || s1 != s2) && (
                #[trigger] spec_claim(lds, l1, s1)) is Some implies spec_claim(lds, l1, s1)
                != #[trigger] spec_claim(lds, l2, s2) by {
                if spec_claim(lds, l1, s1) == spec_claim(lds, l2, s2) {
                    let x = spec_claim(lds, l1, s1)->0;
                    if l1 < l && l2 < l {
                    } else if l1 == l && l2 == l {
                        assert(s1 != s2);
                        if s1 == Side::Right {
                            assert(spec_claim(lds, l as int, Side::Right) == Some(x));
                            assert(spec_claim(lds, l as int, Side::Left) == Some(x));
                        } else {
                            assert(spec_claim(lds, l as int, Side::Right) == Some(x));
                            assert(spec_claim(lds, l as int, Side::Left) == Some(x));
                        }
                        assert(false);
                    } else {
                        let kk = if l1 == l { l2 } else { l1 };
                        let ks = if l1 == l { s2 } else { s1 };
                        assert(spec_claim(lds, kk, ks) == Some(x));
                        assert(claimed_before(lds, l as int, x));
                        assert(false);
                    }
                }
            }
        }
        l = l + 1;
    }
    proof {
        if !claims_unique(lds) {
            let (l1, s1, l2, s2) = choose|l1: int, s1: Side, l2: int, s2: Side|
                0 <= l1 < lds.len() && 0 <= l2 < lds.len() && (l1 != l2 || s1 != s2) && (
                #[trigger] spec_claim(lds, l1, s1)) is Some && spec_claim(lds, l1, s1)
                    == #[trigger] spec_claim(lds, l2, s2);
            assert(false);
        }
    }
    None
}

/// Take the sidedef at `i` out of the arena, leaving `None`.
fn take_sidedef(v: &mut Vec<Option<Sidedef>>, i: usize) -> (r: Option<Sidedef>)
    requires
        i < old(v).len(),
    ensures
        r == old(v)@[i as int],
        final(v)@ == old(v)@.update(i as int, None::<Sidedef>),
{
    let mut slot: Option<Sidedef> = None;
    let elem = &mut v[i];
    core::mem::swap(elem, &mut slot);
    slot
}

/// Whether linedef `d` joins the two distinct sectors `s` and `t`
/// through its two sidedefs.
pub open spec fn spec_links(d: LinedefData, sds: Seq<Option<Sidedef>>, s: int, t: int) -> bool {
    &&& d.right_sidedef_index is Some
    &&& d.left_sidedef_index is Some
    &&& {
        let fs = sds[d.right_sidedef_index->0 as int]->0.sector_index as int;
        let bs = sds[d.left_sidedef_index->0 as int]->0.sector_index as int;
        fs != bs && ((s == fs && t == bs) || (s == bs && t == fs))
    }
}

/// Whether one of the first `n` linedefs joins sectors `s` and `t`.
pub open spec fn spec_adjacent_upto(
    lds: Seq<LinedefData>,
    sds: Seq<Option<Sidedef>>,
    n: int,
    s: int,
    t: int,
) -> bool {
    exists|l: int| 0 <= l < n && #[trigger] spec_links(lds[l], sds, s, t)
}

/// Whether some linedef joins sectors `s` and `t`: the sector adjacency
/// relation.
pub open spec fn spec_adjacent(
    lds: Seq<LinedefData>,
    sds: Seq<Option<Sidedef>>,
    s: int,
    t: int,
) -> bool {
    spec_adjacent_upto(lds, sds, lds.len() as int, s, t)
}

/// Whether the two-sided linedef `d` lies between two sectors whose
/// ceilings are both the sky.
pub open spec fn spec_sky_hack(d: LinedefData, sds: Seq<Option<Sidedef>>, secs: Seq<Sector>) -> bool {
    &&& d.right_sidedef_index is Some
    &&& d.left_sidedef_index is Some
    &&& secs[sds[d.right_sidedef_index->0 as int]->0.sector_index as int].ceiling_texture is Sky
    &&& secs[sds[d.left_sidedef_index->0 as int]->0.sector_index as int].ceiling_texture is Sky
}

/// Whether `s` is the face `orig` after ownership transfer, with the top
/// texture forced to the sky exactly when the sky hack applies.
pub open spec fn sidedef_taken(s: &Sidedef, orig: Sidedef, hack: bool) -> bool {
    &&& s.texture_offset_x == orig.texture_offset_x
    &&& s.texture_offset_y == orig.texture_offset_y
    &&& if hack {
        s.top_texture is Sky
    } else {
        s.top_texture == orig.top_texture
    }
    &&& s.bottom_texture == orig.bottom_texture
    &&& s.middle_texture == orig.middle_texture
    &&& s.sector_index == orig.sector_index
}

/// The solidity classes a linedef blocks, from its flags.
pub open spec fn spec_solid_mask(flags: u16) -> u16 {
    if flags & LINEDEF_BLOCKING != 0 {
        SOLID_MASK_ALL
    } else if flags & LINEDEF_BLOCKMONSTERS != 0 {
        SOLID_MASK_MONSTER
    } else {
        SOLID_MASK_EMPTY
    }
}

/// A wall's planes: the box's four planes plus, for a diagonal wall, the
/// pair of opposing half-spaces through the wall line.
pub open spec fn spec_linedef_planes(a: Vec2, b: Vec2) -> Seq<Plane> {
    let dir = spec_dir_between(a, b);
    let n = spec_normal_of(dir);
    let base = spec_bbox_planes(spec_bbox_two(a, b));
    if spec_diagonal(dir) {
        base.push(Plane { normal: n, distance: spec_dot(a, n) as i128 }).push(
            Plane { normal: spec_neg_dir(n), distance: (-spec_dot(a, n)) as i128 },
        )
    } else {
        base
    }
}

/// Whether `l` is the linedef built from `d`: exact geometry, solidity
/// from the flags, both raw behaviour codes copied, and each referenced
/// face transferred in (with the sky hack applied to the tops).
pub open spec fn linedef_built(
    l: &Linedef,
    d: LinedefData,
    verts: Seq<Vec2>,
    sds: Seq<Option<Sidedef>>,
    secs: Seq<Sector>,
) -> bool {
    let a = verts[d.v1_index as int];
    let b = verts[d.v2_index as int];
    &&& l.line == spec_line_between(a, b)
    &&& l.normal == spec_normal_of(spec_dir_between(a, b))
    &&& l.bbox == spec_bbox_two(a, b)
    &&& l.planes@ == spec_linedef_planes(a, b)
    &&& l.flags == d.flags
    &&& l.solid_mask == spec_solid_mask(d.flags)
    &&& l.special_type == d.special_type
    &&& l.sector_tag == d.sector_tag
    &&& match d.right_sidedef_index {
        Some(x) => l.right_sidedef is Some && sidedef_taken(
            &l.right_sidedef->0,
            sds[x as int]->0,
            spec_sky_hack(d, sds, secs),
        ),
        None => l.right_sidedef is None,
    }
    &&& match d.left_sidedef_index {
        Some(x) => l.left_sidedef is Some && sidedef_taken(
            &l.left_sidedef->0,
            sds[x as int]->0,
            spec_sky_hack(d, sds, secs),
        ),
        None => l.left_sidedef is None,
    }
}

/// No element repeats.
pub open spec fn nodup(s: Seq<usize>) -> bool {
    forall|i: int, j: int| 0 <= i < j < s.len() ==> s[i] != s[j]
}

/// All fields agree except the neighbour list.
pub open spec fn sector_same_mod_neighbours(a: Sector, b: Sector) -> bool {
    &&& b.interval == a.interval
    &&& b.floor_texture == a.floor_texture
    &&& b.ceiling_texture == a.ceiling_texture
    &&& b.light_level == a.light_level
    &&& b.special_type == a.special_type
    &&& b.sector_tag == a.sector_tag
    &&& b.subsectors == a.subsectors
}

/// The arena state after the first `l` linedefs took their faces: a
/// slot is emptied exactly when some earlier slot claimed it.
pub open spec fn arena_inv(
    a: Seq<Option<Sidedef>>,
    lds: Seq<LinedefData>,
    sds0: Seq<Option<Sidedef>>,
    l: int,
) -> bool {
    &&& a.len() == sds0.len()
    &&& sds0.len() <= usize::MAX
    &&& forall|x: usize|
        x < sds0.len() ==> #[trigger] a[x as int] == (if claimed_before(lds, l, x) {
            None::<Sidedef>
        } else {
            sds0[x as int]
        })
}

/// One slot's claim extends `claimed_before` by one linedef.
proof fn lemma_claimed_step(lds: Seq<LinedefData>, l: int, x: usize)
    requires
        0 <= l < lds.len(),
    ensures
        claimed_before(lds, l + 1, x) <==> (claimed_before(lds, l, x) || spec_claim(
            lds,
            l,
            Side::Right,
        ) == Some(x) || spec_claim(lds, l, Side::Left) == Some(x)),
{
    if claimed_before(lds, l + 1, x) {
        let (k, s) = choose|k: int, s: Side|
            0 <= k < l + 1 && #[trigger] spec_claim(lds, k, s) == Some(x);
        if k < l {
            assert(claimed_before(lds, l, x));
        } else {
            if s == Side::Right {
                assert(spec_claim(lds, l, Side::Right) == Some(x));
            } else {
                assert(spec_claim(lds, l, Side::Left) == Some(x));
            }
        }
    }
    if claimed_before(lds, l, x) {
        let (k, s) = choose|k: int, s: Side|
            0 <= k < l && #[trigger] spec_claim(lds, k, s) == Some(x);
        assert(claimed_before(lds, l + 1, x));
    }
    if spec_claim(lds, l, Side::Right) == Some(x) {
        assert(claimed_before(lds, l + 1, x));
    }
    if spec_claim(lds, l, Side::Left) == Some(x) {
        assert(claimed_before(lds, l + 1, x));
    }
}

/// Fold the sidedefs into linedefs by ownership transfer, registering
/// each pair of distinct sectors joined by a two-sided linedef in each
/// other's neighbour list (undirected, deduplicated), and forcing the
/// shared top texture to the sky where both neighbouring ceilings are
/// sky.
pub fn build_linedefs(
    linedefs_data: &Vec<LinedefData>,
    vertexes: &Vec<Vec2>,
    sidedefs: Vec<Option<Sidedef>>,
    sectors: &mut Vec<Sector>,
) -> (r: Vec<Linedef>)
    requires
        forall|l: int|
            0 <= l < linedefs_data@.len() ==> {
                let d = #[trigger] linedefs_data@[l];
                &&& d.v1_index < vertexes@.len()
                &&& d.v2_index < vertexes@.len()
                &&& (d.right_sidedef_index matches Some(x) ==> x < sidedefs@.len())
                &&& (d.left_sidedef_index matches Some(x) ==> x < sidedefs@.len())
            },
        claims_unique(linedefs_data@),
        forall|x: int|
            0 <= x < sidedefs@.len() ==> (#[trigger] sidedefs@[x]) is Some
                && sidedefs@[x]->0.sector_index < old(sectors)@.len(),
        forall|s: int|
            0 <= s < old(sectors)@.len() ==> (#[trigger] old(sectors)@[s]).neighbours@ == Seq::<
                usize,
            >::empty(),
    ensures
        final(sectors)@.len() == old(sectors)@.len(),
        r@.len() == linedefs_data@.len(),
        forall|l: int|
            0 <= l < r@.len() ==> linedef_built(
                &#[trigger] r@[l],
                linedefs_data@[l],
                vertexes@,
                sidedefs@,
                old(sectors)@,
            ),
        forall|s: int|
            0 <= s < final(sectors)@.len() ==> sector_same_mod_neighbours(
                old(sectors)@[s],
                #[trigger] final(sectors)@[s],
            ),
        forall|s: int, t: usize|
            0 <= s < final(sectors)@.len() ==> ((#[trigger] final(sectors)@[s].neighbours@.contains(
                t,
            )) <==> spec_adjacent(
                linedefs_data@,
                sidedefs@,
                s,
                t as int,
            )),
        forall|s: int|
            0 <= s < final(sectors)@.len() ==> nodup(#[trigger] final(sectors)@[s].neighbours@),
{
    let ghost lds = linedefs_data@;
    let ghost sds0 = sidedefs@;
    let ghost secs0 = sectors@;
    let mut arena = sidedefs;
    let n_sidedefs: usize = arena.len();
    proof {
        assert(sds0.len() == n_sidedefs);
    }
    let mut out: Vec<Linedef> = Vec::new();
    let mut l: usize = 0;
    while l < linedefs_data.len()
        invariant
            lds == linedefs_data@,
            forall|k: int|
                0 <= k < lds.len() ==> {
                    let d = #[trigger] lds[k];
                    &&& d.v1_index < vertexes@.len()
                    &&& d.v2_index < vertexes@.len()
                    &&& (d.right_sidedef_index matches Some(x) ==> x < sds0.len())
                    &&& (d.left_sidedef_index matches Some(x) ==> x < sds0.len())
                },
            claims_unique(lds),
            forall|x: int|
                0 <= x < sds0.len() ==> (#[trigger] sds0[x]) is Some && sds0[x]->0.sector_index
                    < secs0.len(),
            forall|s: int|
                0 <= s < secs0.len() ==> (#[trigger] secs0[s]).neighbours@ == Seq::<usize>::empty(),
            arena_inv(arena@, lds, sds0, l as int),
            sectors@.len() == secs0.len(),
            l <= lds.len(),
            out@.len() == l,
            forall|k: int|
                0 <= k < l ==> linedef_built(&#[trigger] out@[k], lds[k], vertexes@, sds0, secs0),
            forall|s: int|
                0 <= s < secs0.len() ==> sector_same_mod_neighbours(
                    secs0[s],
                    #[trigger] sectors@[s],
                ),
            forall|s: int, t: usize|
                0 <= s < secs0.len() ==> ((#[trigger] sectors@[s].neighbours@.contains(t)) <==> spec_adjacent_upto(
                    lds,
                    sds0,
                    l as int,
                    s,
                    t as int,
                )),
            forall|s: int| 0 <= s < secs0.len() ==> nodup(#[trigger] sectors@[s].neighbours@),
        decreases lds.len() - l,
    {
        let d = &linedefs_data[l];
        let ghost hack = spec_sky_hack(lds[l as int], sds0, secs0);
        let (right_sidedef, left_sidedef): (Option<Sidedef>, Option<Sidedef>) = match (
            d.right_sidedef_index,
            d.left_sidedef_index,
        ) {
            (Some(xr), Some(xl)) => {
                proof {
                    assert(spec_claim(lds, l as int, Side::Right) == Some(xr));
                    assert(spec_claim(lds, l as int, Side::Left) == Some(xl));
                    if claimed_before(lds, l as int, xr) {
                        let (k, s) = choose|k: int, s: Side|
                            0 <= k < l && #[trigger] spec_claim(lds, k, s) == Some(xr);
                        assert(false);
                    }
                    if claimed_before(lds, l as int, xl) {
                        let (k, s) = choose|k: int, s: Side|
                            0 <= k < l && #[trigger] spec_claim(lds, k, s) == Some(xl);
                        assert(false);
                    }
                    assert(xr != xl);
                }
                let ghost a0 = arena@;
                let mut front = take_sidedef(&mut arena, xr).unwrap();
                let mut back = take_sidedef(&mut arena, xl).unwrap();
                proof {
                    assert(a0[xr as int] == sds0[xr as int]);
                    assert(a0[xl as int] == sds0[xl as int]);
                    assert(front == sds0[xr as int]->0);
                    assert(back == sds0[xl as int]->0);
                    assert(arena@ =~= a0.update(xr as int, None::<Sidedef>).update(
                        xl as int,
                        None::<Sidedef>,
                    ));
                    assert forall|x: usize| x < sds0.len() implies #[trigger] arena@[x as int] == (
                    if claimed_before(lds, (l + 1) as int, x) {
                        None::<Sidedef>
                    } else {
                        sds0[x as int]
                    }) by {
                        lemma_claimed_step(lds, l as int, x);
                        if x == xr || x == xl {
                            assert(arena@[x as int] is None);
                            assert(claimed_before(lds, (l + 1) as int, x));
                        } else {
                            assert(arena@[x as int] == a0[x as int]);
                            assert(a0[x as int] == (if claimed_before(lds, l as int, x) {
                                None::<Sidedef>
                            } else {
                                sds0[x as int]
                            }));
                        }
                    }
                }
                let fs = front.sector_index;
                let bs = back.sector_index;
                let ghost pre_sectors = sectors@;
                if fs != bs {
                    {
                        let sec = &mut sectors[fs];
                        push_unique(&mut sec.neighbours, bs);
                    }
                    {
                        let sec = &mut sectors[bs];
                        push_unique(&mut sec.neighbours, fs);
                    }
                }
                proof {
                    assert(lds[l as int].right_sidedef_index == Some(xr));
                    assert(lds[l as int].left_sidedef_index == Some(xl));
                    assert(sds0[xr as int]->0.sector_index == fs);
                    assert(sds0[xl as int]->0.sector_index == bs);
                    assert forall|s: int, t: usize| 0 <= s < secs0.len() implies ((
                    #[trigger] sectors@[s].neighbours@.contains(t)) <==> (
                    pre_sectors[s].neighbours@.contains(t) || spec_links(
                        lds[l as int],
                        sds0,
                        s,
                        t as int,
                    ))) by {
                        broadcast use vstd::seq_lib::lemma_seq_contains_after_push;

                        if fs != bs {
                            if s == fs {
                                assert(sectors@[s].neighbours@
                                    == if pre_sectors[s].neighbours@.contains(bs) {
                                    pre_sectors[s].neighbours@
                                } else {
                                    pre_sectors[s].neighbours@.push(bs)
                                });
                            } else if s == bs {
                                assert(sectors@[s].neighbours@
                                    == if pre_sectors[s].neighbours@.contains(fs) {
                                    pre_sectors[s].neighbours@
                                } else {
                                    pre_sectors[s].neighbours@.push(fs)
                                });
                            } else {
                                assert(sectors@[s] == pre_sectors[s]);
                            }
                        } else {
                            assert(sectors@[s] == pre_sectors[s]);
                            assert(!spec_links(lds[l as int], sds0, s, t as int));
                        }
                    }
                }
                let sky = sectors[fs].ceiling_texture.is_sky() && sectors[bs]
                    .ceiling_texture.is_sky();
                proof {
                    assert(sectors@[fs as int].ceiling_texture
                        == secs0[fs as int].ceiling_texture);
                    assert(sectors@[bs as int].ceiling_texture
                        == secs0[bs as int].ceiling_texture);
                    assert(sky == hack);
                }
                if sky {
                    front.top_texture = TextureType::Sky;
                    back.top_texture = TextureType::Sky;
                }
                (Some(front), Some(back))
            },
            (Some(xr), None) => {
                proof {
                    assert(spec_claim(lds, l as int, Side::Right) == Some(xr));
                    if claimed_before(lds, l as int, xr) {
                        let (k, s) = choose|k: int, s: Side|
                            0 <= k < l && #[trigger] spec_claim(lds, k, s) == Some(xr);
                        assert(false);
                    }
                }
                let ghost a0 = arena@;
                let front = take_sidedef(&mut arena, xr).unwrap();
                proof {
                    assert(a0[xr as int] == sds0[xr as int]);
                    assert(front == sds0[xr as int]->0);
                    assert(arena@ =~= a0.update(xr as int, None::<Sidedef>));
                    assert forall|x: usize| x < sds0.len() implies #[trigger] arena@[x as int] == (
                    if claimed_before(lds, (l + 1) as int, x) {
                        None::<Sidedef>
                    } else {
                        sds0[x as int]
                    }) by {
                        lemma_claimed_step(lds, l as int, x);
                        if x == xr {
                            assert(claimed_before(lds, (l + 1) as int, x));
                        } else {
                            assert(arena@[x as int] == a0[x as int]);
                        }
                    }
                }
                (Some(front), None)
            },
            (None, Some(xl)) => {
                proof {
                    assert(spec_claim(lds, l as int, Side::Left) == Some(xl));
                    if claimed_before(lds, l as int, xl) {
                        let (k, s) = choose|k: int, s: Side|
                            0 <= k < l && #[trigger] spec_claim(lds, k, s) == Some(xl);
                        assert(false);
                    }
                }
                let ghost a0 = arena@;
                let back = take_sidedef(&mut arena, xl).unwrap();
                proof {
                    assert(a0[xl as int] == sds0[xl as int]);
                    assert(back == sds0[xl as int]->0);
                    assert(arena@ =~= a0.update(xl as int, None::<Sidedef>));
                    assert forall|x: int| 0 <= x < sds0.len() implies #[trigger] arena@[x] == (
                    if claimed_before(lds, (l + 1) as int, x as usize) {
                        None::<Sidedef>
                    } else {
                        sds0[x]
                    }) by {
                        lemma_claimed_step(lds, l as int, x as usize);
                        if x == xl as int {
                            assert(claimed_before(lds, (l + 1) as int, x as usize));
                        } else {
                            assert(arena@[x] == a0[x]);
                        }
                    }
                }
                (None, Some(back))
            },
            (None, None) => {
                proof {
                    assert forall|x: usize| x < sds0.len() implies #[trigger] arena@[x as int] == (
                    if claimed_before(lds, (l + 1) as int, x) {
                        None::<Sidedef>
                    } else {
                        sds0[x as int]
                    }) by {
                        lemma_claimed_step(lds, l as int, x);
                    }
                }
                (None, None)
            },
        };
        let a = vertexes[d.v1_index];
        let b = vertexes[d.v2_index];
        let line = line_between(a, b);
        let normal = normal_between(a, b);
        let bbox = bbox_two(a, b);
        let mut planes = bbox_planes(&bbox);
        if normal.x != 0 && normal.y != 0 {
            let dist = dot(a, normal);
            planes.push(Plane { normal, distance: dist });
            planes.push(Plane { normal: neg_dir(normal), distance: -dist });
            proof {
                assert(planes@ =~= spec_linedef_planes(a, b));
            }
        } else {
            proof {
                assert(planes@ =~= spec_linedef_planes(a, b));
            }
        }
        let solid_mask: u16 = if d.flags & LINEDEF_BLOCKING != 0 {
            SOLID_MASK_ALL
        } else if d.flags & LINEDEF_BLOCKMONSTERS != 0 {
            SOLID_MASK_MONSTER
        } else {
            SOLID_MASK_EMPTY
        };
        out.push(
            Linedef {
                line,
                normal,
                planes,
                bbox,
                flags: d.flags,
                solid_mask,
                special_type: d.special_type,
                sector_tag: d.sector_tag,
                right_sidedef,
                left_sidedef,
            },
        );
        proof {
            assert forall|s: int, t: usize| 0 <= s < secs0.len() implies ((
            #[trigger] sectors@[s].neighbours@.contains(t)) <==> spec_adjacent_upto(
                lds,
                sds0,
                (l + 1) as int,
                s,
                t as int,
            )) by {
                if sectors@[s].neighbours@.contains(t) {
                    if spec_adjacent_upto(lds, sds0, l as int, s, t as int) {
                        let k = choose|k: int|
                            0 <= k < l && #[trigger] spec_links(lds[k], sds0, s, t as int);
                        assert(spec_links(lds[k], sds0, s, t as int));
                        assert(spec_adjacent_upto(lds, sds0, (l + 1) as int, s, t as int));
                    } else {
                        assert(spec_links(lds[l as int], sds0, s, t as int));
                        assert(spec_adjacent_upto(lds, sds0, (l + 1) as int, s, t as int));
                    }
                }
                if spec_adjacent_upto(lds, sds0, (l + 1) as int, s, t as int) {
                    let k = choose|k: int|
                        0 <= k < l + 1 && #[trigger] spec_links(lds[k], sds0, s, t as int);
                    if k < l {
                        assert(spec_adjacent_upto(lds, sds0, l as int, s, t as int));
                    }
                    assert(sectors@[s].neighbours@.contains(t));
                }
            }
        }
        l = l + 1;
    }
    proof {
        assert forall|s: int, t: usize| 0 <= s < secs0.len() implies ((
        #[trigger] sectors@[s].neighbours@.contains(t)) <==> spec_adjacent(
            lds,
            sds0,
            s,
            t as int,
        )) by {}
    }
    out
}

// ---------------------------------------------------------------------
// BSP nodes: source order is leaf-to-root; the final tree is root-first.
// ---------------------------------------------------------------------

/// An internal child reference `x` of a reversed node array of length
/// `n` becomes `n - 1 - x`; a leaf reference is unchanged.
pub open spec fn spec_reindex_child(c: NodeChild, n: int) -> NodeChild {
    match c {
        NodeChild::Subsector(x) => c,
        NodeChild::Node(x) => NodeChild::Node((n - 1 - x) as usize),
    }
}

/// Whether `nd` is the node built from `d` in a tree of `n` nodes.
pub open spec fn node_built(nd: &GLNode, d: GLNodeData, n: int) -> bool {
    &&& nd.partition_line == (Line2 {
        point: d.partition_point,
        dir: Dir2 { x: d.partition_dir.x as i64, y: d.partition_dir.y as i64 },
    })
    &&& nd.normal == (Dir2 {
        x: d.partition_dir.y as i64,
        y: (-(d.partition_dir.x as int)) as i64,
    })
    &&& nd.right_bbox == d.right_bbox
    &&& nd.left_bbox == d.left_bbox
    &&& nd.right_child == spec_reindex_child(d.right_child, n)
    &&& nd.left_child == spec_reindex_child(d.left_child, n)
}

fn reindex_child(c: NodeChild, n: usize) -> (r: NodeChild)
    requires
        c matches NodeChild::Node(x) ==> x < n,
    ensures
        r == spec_reindex_child(c, n as int),
{
    match c {
        NodeChild::Subsector(x) => NodeChild::Subsector(x),
        NodeChild::Node(x) => NodeChild::Node(n - 1 - x),
    }
}

/// Re-index the BSP node array: for an input of length `n`, node 0 of
/// the result is the former node `n - 1`, every internal child reference
/// `x` becomes `n - 1 - x`, and leaf references are unchanged.
pub fn reindex_nodes(nodes_data: &Vec<GLNodeData>) -> (r: Vec<GLNode>)
    requires
        forall|i: int|
            0 <= i < nodes_data@.len() ==> ((#[trigger] nodes_data@[i]).right_child matches NodeChild::Node(x)
                ==> x < nodes_data@.len()) && (nodes_data@[i].left_child matches NodeChild::Node(x)
                ==> x < nodes_data@.len()),
    ensures
        r@.len() == nodes_data@.len(),
        forall|i: int|
            0 <= i < r@.len() ==> node_built(
                &#[trigger] r@[i],
                nodes_data@[r@.len() - 1 - i],
                r@.len() as int,
            ),
{
    let n: usize = nodes_data.len();
    let mut out: Vec<GLNode> = Vec::new();
    let mut i: usize = 0;
    while i < n
        invariant
            n == nodes_data@.len(),
            forall|k: int|
                0 <= k < nodes_data@.len() ==> ((#[trigger] nodes_data@[k]).right_child matches NodeChild::Node(
                    x,
                ) ==> x < nodes_data@.len()) && (nodes_data@[k].left_child matches NodeChild::Node(
                    x,
                ) ==> x < nodes_data@.len()),
            i <= n,
            out@.len() == i,
            forall|k: int|
                0 <= k < i ==> node_built(&#[trigger] out@[k], nodes_data@[n - 1 - k], n as int),
        decreases n - i,
    {
        let d = &nodes_data[n - 1 - i];
        out.push(
            GLNode {
                partition_line: Line2 {
                    point: d.partition_point,
                    dir: Dir2 { x: d.partition_dir.x as i64, y: d.partition_dir.y as i64 },
                },
                normal: Dir2 {
                    x: d.partition_dir.y as i64,
                    y: -(d.partition_dir.x as i64),
                },
                right_bbox: d.right_bbox,
                left_bbox: d.left_bbox,
                right_child: reindex_child(d.right_child, n),
                left_child: reindex_child(d.left_child, n),
            },
        );
        i = i + 1;
    }
    out
}

// ---------------------------------------------------------------------
// GL segs.
// ---------------------------------------------------------------------

/// The position a vertex reference points at, in whichever array its
/// tag selects.
pub open spec fn spec_vertex_of(v: EitherVertex, verts: Seq<Vec2>, gl: Seq<Vec2>) -> Vec2 {
    match v {
        EitherVertex::Normal(x) => verts[x as int],
        EitherVertex::GL(x) => gl[x as int],
    }
}

/// Whether `s` is the seg built from `d`.
pub open spec fn seg_built(s: &GLSeg, d: GLSegData, verts: Seq<Vec2>, gl: Seq<Vec2>) -> bool {
    let a = spec_vertex_of(d.start_vertex, verts, gl);
    let b = spec_vertex_of(d.end_vertex, verts, gl);
    &&& s.line == spec_line_between(a, b)
    &&& s.normal == spec_normal_of(spec_dir_between(a, b))
    &&& s.linedef_index == d.linedef_index
    &&& s.linedef_side == d.linedef_side
}

fn vertex_of(v: EitherVertex, vertexes: &Vec<Vec2>, gl_vert: &Vec<Vec2>) -> (r: Vec2)
    requires
        v matches EitherVertex::Normal(x) ==> x < vertexes@.len(),
        v matches EitherVertex::GL(x) ==> x < gl_vert@.len(),
    ensures
        r == spec_vertex_of(v, vertexes@, gl_vert@),
{
    match v {
        EitherVertex::Normal(x) => vertexes[x],
        EitherVertex::GL(x) => gl_vert[x],
    }
}

/// Build the GL segs: each endpoint resolved from whichever vertex array
/// its tag selects, with the seg's line and outward normal.
pub fn build_segs(gl_segs: &Vec<GLSegData>, vertexes: &Vec<Vec2>, gl_vert: &Vec<Vec2>) -> (r: Vec<
    GLSeg,
>)
    requires
        forall|j: int|
            0 <= j < gl_segs@.len() ==> {
                let d = #[trigger] gl_segs@[j];
                &&& (d.start_vertex matches EitherVertex::Normal(x) ==> x < vertexes@.len())
                &&& (d.start_vertex matches EitherVertex::GL(x) ==> x < gl_vert@.len())
                &&& (d.end_vertex matches EitherVertex::Normal(x) ==> x < vertexes@.len())
                &&& (d.end_vertex matches EitherVertex::GL(x) ==> x < gl_vert@.len())
            },
    ensures
        r@.len() == gl_segs@.len(),
        forall|j: int|
            0 <= j < r@.len() ==> seg_built(&#[trigger] r@[j], gl_segs@[j], vertexes@, gl_vert@),
{
    let mut out: Vec<GLSeg> = Vec::new();
    let mut j: usize = 0;
    while j < gl_segs.len()
        invariant
            forall|k: int|
                0 <= k < gl_segs@.len() ==> {
                    let d = #[trigger] gl_segs@[k];
                    &&& (d.start_vertex matches EitherVertex::Normal(x) ==> x < vertexes@.len())
                    &&& (d.start_vertex matches EitherVertex::GL(x) ==> x < gl_vert@.len())
                    &&& (d.end_vertex matches EitherVertex::Normal(x) ==> x < vertexes@.len())
                    &&& (d.end_vertex matches EitherVertex::GL(x) ==> x < gl_vert@.len())
                },
            j <= gl_segs@.len(),
            out@.len() == j,
            forall|k: int|
                0 <= k < j ==> seg_built(&#[trigger] out@[k], gl_segs@[k], vertexes@, gl_vert@),
        decreases gl_segs@.len() - j,
    {
        let d = &gl_segs[j];
        let a = vertex_of(d.start_vertex, vertexes, gl_vert);
        let b = vertex_of(d.end_vertex, vertexes, gl_vert);
        out.push(
            GLSeg {
                line: line_between(a, b),
                normal: normal_between(a, b),
                linedef_index: d.linedef_index,
                linedef_side: d.linedef_side,
            },
        );
        j = j + 1;
    }
    out
}

// ---------------------------------------------------------------------
// Subsectors: the owning sector, bounding box and convex boundary.
// ---------------------------------------------------------------------

/// The sector seg `j` leads to: through its linedef's sidedef on the
/// seg's side, if both are resolved.
pub open spec fn spec_seg_sector(md: &MapData, j: int) -> Option<usize> {
    match md.gl_segs@[j].linedef_index {
        Some(l) => match md.linedefs@[l as int].spec_sidedef_index(md.gl_segs@[j].linedef_side) {
            Some(x) => Some(md.sidedefs@[x as int].sector_index),
            None => None,
        },
        None => None,
    }
}

/// The sector of the first seg in the range with a resolved sidedef.
pub open spec fn spec_first_sector(md: &MapData, first: int, count: int) -> Option<usize>
    decreases count,
{
    if count <= 0 {
        None
    } else {
        match spec_seg_sector(md, first) {
            Some(s) => Some(s),
            None => spec_first_sector(md, first + 1, count - 1),
        }
    }
}

/// The sector owning subsector `i`: the first of its segs whose linedef
/// has a resolved sidedef on the matching side.
pub open spec fn spec_ssect_sector(md: &MapData, i: int) -> Option<usize> {
    spec_first_sector(
        md,
        md.gl_ssect@[i].first_seg_index as int,
        md.gl_ssect@[i].seg_count as int,
    )
}

proof fn lemma_first_sector_found(md: &MapData, first: int, count: int, j: int)
    requires
        0 <= j < count,
        forall|m: int| first <= m < first + j ==> #[trigger] spec_seg_sector(md, m) is None,
        spec_seg_sector(md, first + j) is Some,
    ensures
        spec_first_sector(md, first, count) == spec_seg_sector(md, first + j),
    decreases j,
{
    if j > 0 {
        assert(spec_seg_sector(md, first) is None);
        lemma_first_sector_found(md, first + 1, count - 1, j - 1);
    }
}

proof fn lemma_first_sector_none(md: &MapData, first: int, count: int)
    requires
        forall|m: int| first <= m < first + count ==> #[trigger] spec_seg_sector(md, m) is None,
    ensures
        spec_first_sector(md, first, count) is None,
    decreases count,
{
    if count > 0 {
        assert(spec_seg_sector(md, first) is None);
        lemma_first_sector_none(md, first + 1, count - 1);
    }
}

/// The box around the start points of the seg range (the range's
/// endpoint set, as each seg starts where the previous one ends).
pub open spec fn spec_points_bbox(segs: Seq<GLSeg>, first: int, count: int) -> AABB2
    recommends
        count >= 1,
    decreases count,
{
    if count <= 1 {
        spec_bbox_two(segs[first].line.point, segs[first].line.point)
    } else {
        spec_bbox_add(spec_points_bbox(segs, first, count - 1), segs[first + count - 1].line.point)
    }
}

/// One inward plane per diagonal seg of the range, in seg order.
pub open spec fn spec_diag_planes(segs: Seq<GLSeg>, first: int, count: int) -> Seq<Plane>
    decreases count,
{
    if count <= 0 {
        Seq::empty()
    } else {
        let s = segs[first + count - 1];
        spec_diag_planes(segs, first, count - 1) + (if spec_diagonal(s.normal) {
            seq![
                Plane {
                    normal: spec_neg_dir(s.normal),
                    distance: spec_dot(s.line.point, spec_neg_dir(s.normal)) as i128,
                },
            ]
        } else {
            Seq::empty()
        })
    }
}

/// Whether `ss` is the subsector built from range `i` of the validated
/// data, over the built segs.
pub open spec fn ssect_built(ss: &GLSSect, md: &MapData, i: int, segs: Seq<GLSeg>) -> bool {
    let first = md.gl_ssect@[i].first_seg_index as int;
    let count = md.gl_ssect@[i].seg_count as int;
    &&& Some(ss.sector_index) == spec_ssect_sector(md, i)
    &&& ss.segs@ == segs.subrange(first, first + count)
    &&& ss.bbox == spec_points_bbox(segs, first, count)
    &&& ss.planes@ == spec_bbox_planes(ss.bbox) + spec_diag_planes(segs, first, count)
}

/// All fields agree except the subsector list.
pub open spec fn sector_same_mod_subsectors(a: Sector, b: Sector) -> bool {
    &&& b.interval == a.interval
    &&& b.floor_texture == a.floor_texture
    &&& b.ceiling_texture == a.ceiling_texture
    &&& b.light_level == a.light_level
    &&& b.special_type == a.special_type
    &&& b.sector_tag == a.sector_tag
    &&& b.neighbours == a.neighbours
}

/// Strictly increasing.
pub open spec fn strictly_inc(s: Seq<usize>) -> bool {
    forall|a: int, b: int| 0 <= a < b < s.len() ==> s[a] < s[b]
}

/// Whether a built linedef has its faces exactly where the raw record
/// references them, owned by the raw sidedefs' sectors.
pub open spec fn linedef_sides_match(
    ld: &Linedef,
    d: LinedefData,
    sdsr: Seq<SidedefData>,
) -> bool {
    &&& (ld.right_sidedef is Some <==> d.right_sidedef_index is Some)
    &&& (d.right_sidedef_index matches Some(x) ==> ld.right_sidedef->0.sector_index
        == sdsr[x as int].sector_index)
    &&& (ld.left_sidedef is Some <==> d.left_sidedef_index is Some)
    &&& (d.left_sidedef_index matches Some(x) ==> ld.left_sidedef->0.sector_index
        == sdsr[x as int].sector_index)
}

/// Build the subsectors from their contiguous seg ranges: the owning
/// sector comes from the first seg with a resolved sidedef on its side
/// (a range with none is a build-time error), each subsector is
/// registered in its sector's subsector list, and the convex boundary is
/// the box's planes plus one inward plane per diagonal seg.
fn build_subsectors(
    gl_ssect: &Vec<GLSSectData>,
    segs: &Vec<GLSeg>,
    linedefs: &Vec<Linedef>,
    sectors: &mut Vec<Sector>,
    Ghost(md): Ghost<MapData>,
) -> (r: Result<Vec<GLSSect>, AssetError>)
    requires
        md.gl_ssect@ == gl_ssect@,
        segs@.len() == md.gl_segs@.len(),
        linedefs@.len() == md.linedefs@.len(),
        old(sectors)@.len() == md.sectors@.len(),
        forall|i: int| 0 <= i < md.gl_ssect@.len() ==> #[trigger] crate::map::ssect_ok(&md, i),
        forall|j: int| 0 <= j < md.gl_segs@.len() ==> #[trigger] crate::map::seg_ok(&md, j),
        forall|l: int| 0 <= l < md.linedefs@.len() ==> #[trigger] crate::map::linedef_ok(&md, l),
        forall|x: int|
            0 <= x < md.sidedefs@.len() ==> (#[trigger] md.sidedefs@[x]).sector_index
                < md.sectors@.len(),
        forall|j: int|
            0 <= j < segs@.len() ==> (#[trigger] segs@[j]).linedef_index
                == md.gl_segs@[j].linedef_index && segs@[j].linedef_side
                == md.gl_segs@[j].linedef_side,
        forall|j: int|
            0 <= j < segs@.len() ==> (#[trigger] segs@[j]).normal.x > i64::MIN && segs@[j].normal.y
                > i64::MIN,
        forall|l: int|
            0 <= l < linedefs@.len() ==> linedef_sides_match(
                &#[trigger] linedefs@[l],
                md.linedefs@[l],
                md.sidedefs@,
            ),
        forall|s: int|
            0 <= s < old(sectors)@.len() ==> (#[trigger] old(sectors)@[s]).subsectors@ == Seq::<
                usize,
            >::empty(),
    ensures
        final(sectors)@.len() == old(sectors)@.len(),
        forall|s: int|
            0 <= s < final(sectors)@.len() ==> sector_same_mod_subsectors(
                old(sectors)@[s],
                #[trigger] final(sectors)@[s],
            ),
        r is Ok <==> (forall|i: int|
            0 <= i < md.gl_ssect@.len() ==> #[trigger] spec_ssect_sector(&md, i) is Some),
        r is Err ==> (r->Err_0 matches AssetError::NoSectorForSubsector { subsector } && subsector
            < md.gl_ssect@.len() && spec_ssect_sector(&md, subsector as int) is None),
        r is Ok ==> r->Ok_0@.len() == md.gl_ssect@.len() && (forall|i: int|
            0 <= i < md.gl_ssect@.len() ==> ssect_built(&#[trigger] r->Ok_0@[i], &md, i, segs@)),
        r is Ok ==> forall|s: int, j: usize|
            0 <= s < final(sectors)@.len() ==> ((#[trigger] final(sectors)@[s].subsectors@.contains(
                j,
            )) <==> (j < md.gl_ssect@.len() && spec_ssect_sector(
                &md,
                j as int,
            ) == Some(s as usize))),
        r is Ok ==> forall|s: int|
            0 <= s < final(sectors)@.len() ==> strictly_inc(
                (#[trigger] final(sectors)@[s]).subsectors@,
            ),
{
    let ghost secs0 = sectors@;
    let nsegs: usize = segs.len();
    let nsecs: usize = sectors.len();
    proof {
        assert(segs@.len() == nsegs);
        assert(secs0.len() == nsecs);
    }
    let mut out: Vec<GLSSect> = Vec::new();
    let mut i: usize = 0;
    let n: usize = gl_ssect.len();
    while i < n
        invariant
            n == md.gl_ssect@.len(),
            md.gl_ssect@ == gl_ssect@,
            segs@.len() == md.gl_segs@.len(),
            linedefs@.len() == md.linedefs@.len(),
            secs0 == old(sectors)@,
            secs0.len() <= usize::MAX,
            secs0.len() == md.sectors@.len(),
            sectors@.len() == secs0.len(),
            segs@.len() <= usize::MAX,
            forall|k: int| 0 <= k < md.gl_ssect@.len() ==> #[trigger] crate::map::ssect_ok(&md, k),
            forall|j: int| 0 <= j < md.gl_segs@.len() ==> #[trigger] crate::map::seg_ok(&md, j),
            forall|l: int|
                0 <= l < md.linedefs@.len() ==> #[trigger] crate::map::linedef_ok(&md, l),
            forall|x: int|
                0 <= x < md.sidedefs@.len() ==> (#[trigger] md.sidedefs@[x]).sector_index
                    < md.sectors@.len(),
            forall|j: int|
                0 <= j < segs@.len() ==> (#[trigger] segs@[j]).linedef_index
                    == md.gl_segs@[j].linedef_index && segs@[j].linedef_side
                    == md.gl_segs@[j].linedef_side,
            forall|j: int|
                0 <= j < segs@.len() ==> (#[trigger] segs@[j]).normal.x > i64::MIN
                    && segs@[j].normal.y > i64::MIN,
            forall|l: int|
                0 <= l < linedefs@.len() ==> linedef_sides_match(
                    &#[trigger] linedefs@[l],
                    md.linedefs@[l],
                    md.sidedefs@,
                ),
            i <= n,
            out@.len() == i,
            forall|k: int| 0 <= k < i ==> #[trigger] spec_ssect_sector(&md, k) is Some,
            forall|k: int| 0 <= k < i ==> ssect_built(&#[trigger] out@[k], &md, k, segs@),
            forall|s: int|
                0 <= s < secs0.len() ==> sector_same_mod_subsectors(
                    secs0[s],
                    #[trigger] sectors@[s],
                ),
            forall|s: int, j: usize|
                0 <= s < secs0.len() ==> ((#[trigger] sectors@[s].subsectors@.contains(j)) <==> (j
                    < i && spec_ssect_sector(&md, j as int) == Some(s as usize))),
            forall|s: int|
                0 <= s < secs0.len() ==> strictly_inc((#[trigger] sectors@[s]).subsectors@),
        decreases n - i,
    {
        let ssd = &gl_ssect[i];
        let first: usize = ssd.first_seg_index;
        let count: usize = ssd.seg_count;
        proof {
            assert(crate::map::ssect_ok(&md, i as int));
        }
        let mut found: Option<usize> = None;
        let mut j: usize = 0;
        while j < count && found.is_none()
            invariant
                n == md.gl_ssect@.len(),
                md.gl_ssect@ == gl_ssect@,
                i < n,
                first == md.gl_ssect@[i as int].first_seg_index,
                count == md.gl_ssect@[i as int].seg_count,
                first + count <= segs@.len(),
                segs@.len() <= usize::MAX,
                segs@.len() == md.gl_segs@.len(),
                linedefs@.len() == md.linedefs@.len(),
                forall|k: int| 0 <= k < md.gl_segs@.len() ==> #[trigger] crate::map::seg_ok(&md, k),
                forall|l: int|
                    0 <= l < md.linedefs@.len() ==> #[trigger] crate::map::linedef_ok(&md, l),
                forall|x: int|
                    0 <= x < md.sidedefs@.len() ==> (#[trigger] md.sidedefs@[x]).sector_index
                        < md.sectors@.len(),
                forall|k: int|
                    0 <= k < segs@.len() ==> (#[trigger] segs@[k]).linedef_index
                        == md.gl_segs@[k].linedef_index && segs@[k].linedef_side
                        == md.gl_segs@[k].linedef_side,
                forall|l: int|
                    0 <= l < linedefs@.len() ==> linedef_sides_match(
                        &#[trigger] linedefs@[l],
                        md.linedefs@[l],
                        md.sidedefs@,
                    ),
                j <= count,
                found is None ==> forall|m: int|
                    first <= m < first + j ==> #[trigger] spec_seg_sector(&md, m) is None,
                found matches Some(s) ==> spec_first_sector(
                    &md,
                    first as int,
                    count as int,
                ) == Some(s) && s < md.sectors@.len(),
            decreases count - j,
        {
            let seg = &segs[first + j];
            match seg.linedef_index {
                Some(ld) => {
                    proof {
                        assert(crate::map::seg_ok(&md, (first + j) as int));
                        assert(crate::map::linedef_ok(&md, ld as int));
                    }
                    match linedefs[ld].sidedef(seg.linedef_side) {
                        Some(sd) => {
                            proof {
                                assert(linedef_sides_match(
                                    &linedefs@[ld as int],
                                    md.linedefs@[ld as int],
                                    md.sidedefs@,
                                ));
                                assert(spec_seg_sector(&md, (first + j) as int) == Some(
                                    sd.sector_index,
                                ));
                                lemma_first_sector_found(
                                    &md,
                                    first as int,
                                    count as int,
                                    j as int,
                                );
                            }
                            found = Some(sd.sector_index);
                        },
                        None => {
                            proof {
                                assert(spec_seg_sector(&md, (first + j) as int) is None);
                            }
                        },
                    }
                },
                None => {
                    proof {
                        assert(spec_seg_sector(&md, (first + j) as int) is None);
                    }
                },
            }
            j = j + 1;
        }
        let sector_index = match found {
            Some(s) => s,
            None => {
                proof {
                    lemma_first_sector_none(&md, first as int, count as int);
                }
                return Err(AssetError::NoSectorForSubsector { subsector: i });
            },
        };
        proof {
            assert(count >= 1);
        }
        let mut sub: Vec<GLSeg> = Vec::new();
        let mut k: usize = 0;
        while k < count
            invariant
                first + count <= segs@.len(),
                segs@.len() <= usize::MAX,
                k <= count,
                sub@.len() == k,
                forall|m: int| 0 <= m < k ==> #[trigger] sub@[m] == segs@[first + m],
            decreases count - k,
        {
            sub.push(segs[first + k]);
            k = k + 1;
        }
        proof {
            assert(sub@ =~= segs@.subrange(first as int, first as int + count as int));
        }
        let mut bbox = bbox_two(segs[first].line.point, segs[first].line.point);
        let mut k: usize = 1;
        while k < count
            invariant
                first + count <= segs@.len(),
                segs@.len() <= usize::MAX,
                count >= 1,
                1 <= k <= count,
                bbox == spec_points_bbox(segs@, first as int, k as int),
            decreases count - k,
        {
            bbox = bbox_add(bbox, segs[first + k].line.point);
            k = k + 1;
        }
        let mut planes = bbox_planes(&bbox);
        let ghost base_planes = planes@;
        let mut k: usize = 0;
        while k < count
            invariant
                first + count <= segs@.len(),
                segs@.len() <= usize::MAX,
                forall|m: int|
                    0 <= m < segs@.len() ==> (#[trigger] segs@[m]).normal.x > i64::MIN
                        && segs@[m].normal.y > i64::MIN,
                k <= count,
                planes@ == base_planes + spec_diag_planes(segs@, first as int, k as int),
            decreases count - k,
        {
            let seg = &segs[first + k];
            if seg.normal.x != 0 && seg.normal.y != 0 {
                let nn = neg_dir(seg.normal);
                planes.push(Plane { normal: nn, distance: dot(seg.line.point, nn) });
            }
            proof {
                assert(planes@ =~= base_planes + spec_diag_planes(
                    segs@,
                    first as int,
                    k + 1 as int,
                ));
            }
            k = k + 1;
        }
        let ghost pre_sectors = sectors@;
        {
            let sec = &mut sectors[sector_index];
            sec.subsectors.push(i);
        }
        proof {
            broadcast use vstd::seq_lib::lemma_seq_contains_after_push;

            assert(spec_ssect_sector(&md, i as int) == Some(sector_index));
            assert forall|s: int, j2: usize| 0 <= s < secs0.len() implies ((
            #[trigger] sectors@[s].subsectors@.contains(j2)) <==> (j2 < i + 1
                && spec_ssect_sector(&md, j2 as int) == Some(s as usize))) by {
                if s == sector_index {
                    assert(sectors@[s].subsectors@ == pre_sectors[s].subsectors@.push(i));
                } else {
                    assert(sectors@[s] == pre_sectors[s]);
                }
            }
            assert forall|s: int| 0 <= s < secs0.len() implies strictly_inc(
                (#[trigger] sectors@[s]).subsectors@,
            ) by {
                if s == sector_index {
                    assert forall|a: int, b: int|
                        0 <= a < b < sectors@[s].subsectors@.len() implies sectors@[
                        s
                    ].subsectors@[a] < sectors@[s].subsectors@[b] by {
                        if b == sectors@[s].subsectors@.len() - 1 {
                            assert(pre_sectors[s].subsectors@.contains(
                                pre_sectors[s].subsectors@[a],
                            ));
                        }
                    }
                }
            }
        }
        out.push(GLSSect { segs: sub, planes, sector_index, bbox });
        i = i + 1;
    }
    Ok(out)
}

// ---------------------------------------------------------------------
// The whole build, specified against the raw validated data.
// ---------------------------------------------------------------------

/// Whether linedef `l` of the raw data joins the distinct sectors `s`
/// and `t` through its two sidedefs.
pub open spec fn raw_links(md: &MapData, l: int, s: int, t: int) -> bool {
    let d = md.linedefs@[l];
    &&& d.right_sidedef_index is Some
    &&& d.left_sidedef_index is Some
    &&& {
        let fs = md.sidedefs@[d.right_sidedef_index->0 as int].sector_index as int;
        let bs = md.sidedefs@[d.left_sidedef_index->0 as int].sector_index as int;
        fs != bs && ((s == fs && t == bs) || (s == bs && t == fs))
    }
}

/// The sector adjacency relation of the raw data: some linedef joins the
/// two sectors.
pub open spec fn raw_adjacent(md: &MapData, s: int, t: int) -> bool {
    exists|l: int| 0 <= l < md.linedefs@.len() && #[trigger] raw_links(md, l, s, t)
}

/// Whether the raw sector's ceiling flat is the sky marker.
pub open spec fn sky_ceiling(md: &MapData, s: int) -> bool {
    md.sectors@[s].ceiling_flat_name matches Some(n) && sky_flat(n@)
}

/// Whether the sky hack applies to raw linedef `l`: two-sided, between
/// two sectors whose ceiling flats are both the sky.
pub open spec fn raw_sky_hack(md: &MapData, l: int) -> bool {
    let d = md.linedefs@[l];
    &&& d.right_sidedef_index is Some
    &&& d.left_sidedef_index is Some
    &&& sky_ceiling(md, md.sidedefs@[d.right_sidedef_index->0 as int].sector_index as int)
    &&& sky_ceiling(md, md.sidedefs@[d.left_sidedef_index->0 as int].sector_index as int)
}

/// Whether `sd` is the face built from the raw record `d`, with the top
/// forced to the sky exactly when `hack` holds.
pub open spec fn raw_sidedef_built(
    sd: &Sidedef,
    d: SidedefData,
    hack: bool,
    mw: StorageModel<WallTexture>,
) -> bool {
    &&& sd.texture_offset_x == d.texture_offset_x
    &&& sd.texture_offset_y == d.texture_offset_y
    &&& if hack {
        sd.top_texture is Sky
    } else {
        tex_resolved(d.top_texture_name, true, &sd.top_texture, mw)
    }
    &&& tex_resolved(d.bottom_texture_name, false, &sd.bottom_texture, mw)
    &&& tex_resolved(d.middle_texture_name, false, &sd.middle_texture, mw)
    &&& sd.sector_index == d.sector_index
}

/// Whether `l` is the linedef built from raw record `i`.
pub open spec fn raw_linedef_built(
    l: &Linedef,
    md: &MapData,
    i: int,
    mw: StorageModel<WallTexture>,
) -> bool {
    let d = md.linedefs@[i];
    let a = md.vertexes@[d.v1_index as int];
    let b = md.vertexes@[d.v2_index as int];
    &&& l.line == spec_line_between(a, b)
    &&& l.normal == spec_normal_of(spec_dir_between(a, b))
    &&& l.bbox == spec_bbox_two(a, b)
    &&& l.planes@ == spec_linedef_planes(a, b)
    &&& l.flags == d.flags
    &&& l.solid_mask == spec_solid_mask(d.flags)
    &&& l.special_type == d.special_type
    &&& l.sector_tag == d.sector_tag
    &&& match d.right_sidedef_index {
        Some(x) => l.right_sidedef is Some && raw_sidedef_built(
            &l.right_sidedef->0,
            md.sidedefs@[x as int],
            raw_sky_hack(md, i),
            mw,
        ),
        None => l.right_sidedef is None,
    }
    &&& match d.left_sidedef_index {
        Some(x) => l.left_sidedef is Some && raw_sidedef_built(
            &l.left_sidedef->0,
            md.sidedefs@[x as int],
            raw_sky_hack(md, i),
            mw,
        ),
        None => l.left_sidedef is None,
    }
}

/// The seg that building produces from raw seg `j`.
pub open spec fn spec_built_seg(md: &MapData, j: int) -> GLSeg {
    let d = md.gl_segs@[j];
    let a = spec_vertex_of(d.start_vertex, md.vertexes@, md.gl_vert@);
    let b = spec_vertex_of(d.end_vertex, md.vertexes@, md.gl_vert@);
    GLSeg {
        line: spec_line_between(a, b),
        normal: spec_normal_of(spec_dir_between(a, b)),
        linedef_index: d.linedef_index,
        linedef_side: d.linedef_side,
    }
}

/// All segs that building produces.
pub open spec fn spec_built_segs(md: &MapData) -> Seq<GLSeg> {
    Seq::new(md.gl_segs@.len(), |j: int| spec_built_seg(md, j))
}

/// Everything `build_map` promises of a map built from validated data
/// `md` with sky name `sky_name`, against the final storage states.
pub open spec fn map_built(
    m: &LevelMap,
    md: &MapData,
    sky_name: Seq<char>,
    mf: StorageModel<Flat>,
    mw: StorageModel<WallTexture>,
) -> bool {
    &&& mw.names.contains_key(sky_name)
    &&& m.sky@ == mw.names[sky_name]
    &&& m.sectors@.len() == md.sectors@.len()
    &&& forall|s: int|
        0 <= s < m.sectors@.len() ==> sector_built(&#[trigger] m.sectors@[s], md.sectors@[s], mf)
    &&& forall|s: int, t: usize|
        0 <= s < m.sectors@.len() ==> ((#[trigger] m.sectors@[s].neighbours@.contains(t))
            <==> raw_adjacent(md, s, t as int))
    &&& forall|s: int| 0 <= s < m.sectors@.len() ==> nodup((#[trigger] m.sectors@[s]).neighbours@)
    &&& forall|s: int, j: usize|
        0 <= s < m.sectors@.len() ==> ((#[trigger] m.sectors@[s].subsectors@.contains(j)) <==> (j
            < md.gl_ssect@.len() && spec_ssect_sector(md, j as int) == Some(s as usize)))
    &&& forall|s: int|
        0 <= s < m.sectors@.len() ==> strictly_inc((#[trigger] m.sectors@[s]).subsectors@)
    &&& m.linedefs@.len() == md.linedefs@.len()
    &&& forall|i: int|
        0 <= i < m.linedefs@.len() ==> raw_linedef_built(&#[trigger] m.linedefs@[i], md, i, mw)
    &&& m.nodes@.len() == md.gl_nodes@.len()
    &&& forall|i: int|
        0 <= i < m.nodes@.len() ==> node_built(
            &#[trigger] m.nodes@[i],
            md.gl_nodes@[m.nodes@.len() - 1 - i],
            m.nodes@.len() as int,
        )
    &&& m.subsectors@.len() == md.gl_ssect@.len()
    &&& forall|i: int|
        0 <= i < m.subsectors@.len() ==> ssect_built(
            &#[trigger] m.subsectors@[i],
            md,
            i,
            spec_built_segs(md),
        )
}

/// Law: the sector adjacency relation is symmetric, so two sectors
/// joined by a two-sided linedef become mutual neighbours.
pub proof fn lemma_adjacent_symmetric(md: &MapData, s: int, t: int)
    ensures
        raw_adjacent(md, s, t) <==> raw_adjacent(md, t, s),
{
    if raw_adjacent(md, s, t) {
        let l = choose|l: int| 0 <= l < md.linedefs@.len() && #[trigger] raw_links(md, l, s, t);
        assert(raw_links(md, l, t, s));
    }
    if raw_adjacent(md, t, s) {
        let l = choose|l: int| 0 <= l < md.linedefs@.len() && #[trigger] raw_links(md, l, t, s);
        assert(raw_links(md, l, s, t));
    }
}

/// Law: in a built map, sector `s` lists sector `t` as a neighbour
/// exactly when some two-sided linedef joins the two distinct sectors,
/// and no neighbour is listed twice.
pub proof fn lemma_neighbours_are_adjacency(
    m: &LevelMap,
    md: &MapData,
    sky_name: Seq<char>,
    mf: StorageModel<Flat>,
    mw: StorageModel<WallTexture>,
    s: int,
    t: usize,
)
    requires
        map_built(m, md, sky_name, mf, mw),
        0 <= s < m.sectors@.len(),
    ensures
        m.sectors@[s].neighbours@.contains(t) <==> raw_adjacent(md, s, t as int),
        nodup(m.sectors@[s].neighbours@),
{
}

/// Law: in a built map, a two-sided linedef lying between two sectors
/// whose ceiling flats are both the sky marker has both of its top
/// textures resolved to the sky, whatever top texture names its two
/// faces carry in the data.
pub proof fn lemma_sky_hack_forces_tops(
    m: &LevelMap,
    md: &MapData,
    sky_name: Seq<char>,
    mf: StorageModel<Flat>,
    mw: StorageModel<WallTexture>,
    l: int,
)
    requires
        map_built(m, md, sky_name, mf, mw),
        0 <= l < md.linedefs@.len(),
        md.linedefs@[l].right_sidedef_index is Some,
        md.linedefs@[l].left_sidedef_index is Some,
        sky_ceiling(
            md,
            md.sidedefs@[md.linedefs@[l].right_sidedef_index->0 as int].sector_index as int,
        ),
        sky_ceiling(
            md,
            md.sidedefs@[md.linedefs@[l].left_sidedef_index->0 as int].sector_index as int,
        ),
    ensures
        m.linedefs@[l].right_sidedef is Some,
        m.linedefs@[l].right_sidedef->0.top_texture is Sky,
        m.linedefs@[l].left_sidedef is Some,
        m.linedefs@[l].left_sidedef->0.top_texture is Sky,
{
    assert(raw_linedef_built(&m.linedefs@[l], md, l, mw));
    assert(raw_sky_hack(md, l));
}

/// The Map Builder's one-shot pipeline over validated data: resolve the
/// sky handle, build sectors, sidedefs, linedefs (adjacency and sky
/// hack), re-index the nodes, build segs and subsectors. Any failure
/// discards the whole artifact; on success every promised property of
/// `map_built` holds of the result.
#[verifier::rlimit(60)]
pub fn build_map<S: DataSource>(
    map_data: ValidMapData,
    sky_name: &str,
    source: &S,
    flats: &mut AssetStorage<Flat>,
    walls: &mut AssetStorage<WallTexture>,
) -> (r: Result<LevelMap, AssetError>)
    requires
        old(flats).wf(),
        old(walls).wf(),
        claims_unique(map_data@.linedefs@),
        old(flats)@.next_id + 2 * map_data@.sectors@.len() < u64::MAX,
        old(walls)@.next_id + 3 * map_data@.sidedefs@.len() + 1 < u64::MAX,
    ensures
        final(flats).wf(),
        final(walls).wf(),
        storage_step(old(flats)@, final(flats)@),
        storage_step(old(walls)@, final(walls)@),
        r is Ok <==> (forall|i: int|
            0 <= i < map_data@.gl_ssect@.len() ==> #[trigger] spec_ssect_sector(&map_data@, i)
                is Some),
        r is Err ==> (r->Err_0 matches AssetError::NoSectorForSubsector { subsector } && subsector
            < map_data@.gl_ssect@.len() && spec_ssect_sector(&map_data@, subsector as int)
            is None),
        r is Ok ==> map_built(&r->Ok_0, &map_data@, sky_name@, final(flats)@, final(walls)@),
{
    let ghost md = map_data@;
    let d = map_data.into_inner();
    proof {
        assert forall|l: int| 0 <= l < d.linedefs@.len() implies {
            let dd = #[trigger] d.linedefs@[l];
            &&& dd.v1_index < d.vertexes@.len()
            &&& dd.v2_index < d.vertexes@.len()
            &&& (dd.right_sidedef_index matches Some(x) ==> x < d.sidedefs@.len())
            &&& (dd.left_sidedef_index matches Some(x) ==> x < d.sidedefs@.len())
        } by {
            assert(crate::map::linedef_ok(&md, l));
        }
        assert forall|i: int| 0 <= i < d.gl_nodes@.len() implies ((
        #[trigger] d.gl_nodes@[i]).right_child matches NodeChild::Node(x) ==> x
            < d.gl_nodes@.len()) && (d.gl_nodes@[i].left_child matches NodeChild::Node(x) ==> x
            < d.gl_nodes@.len()) by {
            assert(crate::map::node_ok(&md, i));
        }
        assert forall|j: int| 0 <= j < d.gl_segs@.len() implies {
            let dd = #[trigger] d.gl_segs@[j];
            &&& (dd.start_vertex matches EitherVertex::Normal(x) ==> x < d.vertexes@.len())
            &&& (dd.start_vertex matches EitherVertex::GL(x) ==> x < d.gl_vert@.len())
            &&& (dd.end_vertex matches EitherVertex::Normal(x) ==> x < d.vertexes@.len())
            &&& (dd.end_vertex matches EitherVertex::GL(x) ==> x < d.gl_vert@.len())
        } by {
            assert(crate::map::seg_ok(&md, j));
        }
        assert forall|x: int| 0 <= x < d.sidedefs@.len() implies (
        #[trigger] d.sidedefs@[x]).sector_index < d.sectors@.len() by {
            assert(crate::map::sidedef_ok(&md, x));
        }
    }
    let ghost mw0 = walls@;
    let ghost mf0 = flats@;
    let sky = walls.load(sky_name, source);
    let ghost mw1 = walls@;
    let mut sectors = build_sectors(&d.sectors, source, flats);
    let ghost secs_built = sectors@;
    let sidedefs = build_sidedefs(&d.sidedefs, source, walls);
    let ghost sds_built = sidedefs@;
    proof {
        lemma_storage_step_trans(mw0, mw1, walls@);
    }
    let linedefs = build_linedefs(&d.linedefs, &d.vertexes, sidedefs, &mut sectors);
    let nodes = reindex_nodes(&d.gl_nodes);
    let segs = build_segs(&d.gl_segs, &d.vertexes, &d.gl_vert);
    proof {
        assert(segs@ =~= spec_built_segs(&md));
        assert forall|l: int| 0 <= l < linedefs@.len() implies linedef_sides_match(
            &#[trigger] linedefs@[l],
            md.linedefs@[l],
            md.sidedefs@,
        ) by {
            assert(linedef_built(&linedefs@[l], md.linedefs@[l], md.vertexes@, sds_built, secs_built));
        }
        assert forall|j: int| 0 <= j < segs@.len() implies (#[trigger] segs@[j]).normal.x
            > i64::MIN && segs@[j].normal.y > i64::MIN by {
            assert(seg_built(&segs@[j], md.gl_segs@[j], md.vertexes@, md.gl_vert@));
        }
    }
    let subsectors = match build_subsectors(&d.gl_ssect, &segs, &linedefs, &mut sectors, Ghost(md)) {
        Ok(v) => v,
        Err(e) => {
            return Err(e);
        },
    };
    let ghost mw_f = walls@;
    let ghost mf_f = flats@;
    let m = LevelMap { linedefs, sectors, subsectors, nodes, sky };
    proof {
        assert forall|s: int| 0 <= s < m.sectors@.len() implies sector_built(
            &#[trigger] m.sectors@[s],
            md.sectors@[s],
            mf_f,
        ) by {
            assert(sector_built(&secs_built[s], md.sectors@[s], mf_f));
        }
        assert forall|s: int, t: usize| 0 <= s < m.sectors@.len() implies ((
        #[trigger] m.sectors@[s].neighbours@.contains(t)) <==> raw_adjacent(&md, s, t as int)) by {
            assert forall|l: int| 0 <= l < md.linedefs@.len() implies (spec_links(
                md.linedefs@[l],
                sds_built,
                s,
                t as int,
            ) == #[trigger] raw_links(&md, l, s, t as int)) by {
                let dd = md.linedefs@[l];
                if dd.right_sidedef_index is Some && dd.left_sidedef_index is Some {
                    assert(sidedef_built(
                        &sds_built[dd.right_sidedef_index->0 as int]->0,
                        md.sidedefs@[dd.right_sidedef_index->0 as int],
                        mw_f,
                    ));
                    assert(sidedef_built(
                        &sds_built[dd.left_sidedef_index->0 as int]->0,
                        md.sidedefs@[dd.left_sidedef_index->0 as int],
                        mw_f,
                    ));
                }
            }
            if m.sectors@[s].neighbours@.contains(t) {
                let l = choose|l: int|
                    0 <= l < md.linedefs@.len() && #[trigger] spec_links(
                        md.linedefs@[l],
                        sds_built,
                        s,
                        t as int,
                    );
                assert(raw_links(&md, l, s, t as int));
            }
            if raw_adjacent(&md, s, t as int) {
                let l = choose|l: int|
                    0 <= l < md.linedefs@.len() && #[trigger] raw_links(&md, l, s, t as int);
                assert(spec_links(md.linedefs@[l], sds_built, s, t as int));
                assert(spec_adjacent(md.linedefs@, sds_built, s, t as int));
            }
        }
        assert forall|i: int| 0 <= i < m.linedefs@.len() implies raw_linedef_built(
            &#[trigger] m.linedefs@[i],
            &md,
            i,
            mw_f,
        ) by {
            let dd = md.linedefs@[i];
            assert(linedef_built(&m.linedefs@[i], dd, md.vertexes@, sds_built, secs_built));
            assert(spec_sky_hack(dd, sds_built, secs_built) == raw_sky_hack(&md, i)) by {
                if dd.right_sidedef_index is Some && dd.left_sidedef_index is Some {
                    let xr = dd.right_sidedef_index->0 as int;
                    let xl = dd.left_sidedef_index->0 as int;
                    assert(sidedef_built(&sds_built[xr]->0, md.sidedefs@[xr], mw_f));
                    assert(sidedef_built(&sds_built[xl]->0, md.sidedefs@[xl], mw_f));
                    let fs = sds_built[xr]->0.sector_index as int;
                    let bs = sds_built[xl]->0.sector_index as int;
                    assert(sector_built(&secs_built[fs], md.sectors@[fs], mf_f));
                    assert(sector_built(&secs_built[bs], md.sectors@[bs], mf_f));
                }
            }
            match dd.right_sidedef_index {
                Some(x) => {
                    assert(sidedef_built(&sds_built[x as int]->0, md.sidedefs@[x as int], mw_f));
                },
                None => {},
            }
            match dd.left_sidedef_index {
                Some(x) => {
                    assert(sidedef_built(&sds_built[x as int]->0, md.sidedefs@[x as int], mw_f));
                },
                None => {},
            }
        }
        assert forall|s: int, j: usize| 0 <= s < m.sectors@.len() implies ((
        #[trigger] m.sectors@[s].subsectors@.contains(j)) <==> (j < md.gl_ssect@.len()
            && spec_ssect_sector(&md, j as int) == Some(s as usize))) by {
            assert(sectors@[s].subsectors@.contains(j) <==> (j < md.gl_ssect@.len()
                && spec_ssect_sector(&md, j as int) == Some(s as usize)));
        }
        assert forall|s: int| 0 <= s < m.sectors@.len() implies strictly_inc(
            (#[trigger] m.sectors@[s]).subsectors@,
        ) by {
            assert(strictly_inc(sectors@[s].subsectors@));
        }
        assert forall|s: int| 0 <= s < m.sectors@.len() implies nodup(
            (#[trigger] m.sectors@[s]).neighbours@,
        ) by {
            assert(nodup(sectors@[s].neighbours@));
        }
        assert forall|i: int| 0 <= i < m.nodes@.len() implies node_built(
            &#[trigger] m.nodes@[i],
            md.gl_nodes@[m.nodes@.len() - 1 - i],
            m.nodes@.len() as int,
        ) by {
            assert(node_built(&nodes@[i], md.gl_nodes@[nodes@.len() - 1 - i], nodes@.len() as int));
        }
        assert forall|i: int| 0 <= i < m.subsectors@.len() implies ssect_built(
            &#[trigger] m.subsectors@[i],
            &md,
            i,
            spec_built_segs(&md),
        ) by {
            assert(ssect_built(&m.subsectors@[i], &md, i, segs@));
        }
        assert(mw1.names.contains_key(sky_name@) && mw1.names[sky_name@] == sky@);
        assert(walls@.names.contains_key(sky_name@) && walls@.names[sky_name@] == sky@);
        assert(m.sky@ == walls@.names[sky_name@]);
        assert(map_built(&m, &md, sky_name@, flats@, walls@));
    }
    Ok(m)
}

/// Append `x` unless it is already present.
fn push_unique(v: &mut Vec<usize>, x: usize)
    ensures
        final(v)@ == if old(v)@.contains(x) {
            old(v)@
        } else {
            old(v)@.push(x)
        },
{
    let mut i: usize = 0;
    while i < v.len()
        invariant
            v@ == old(v)@,
            i <= v@.len(),
            forall|k: int| 0 <= k < i ==> v@[k] != x,
        decreases v@.len() - i,
    {
        if v[i] == x {
            return ;
        }
        i = i + 1;
    }
    v.push(x);
}

} // verus!

//! The one-shot level pipeline: load a map asset, then drain its build
//! queue through the Map Builder, which resolves textures through the
//! flat and wall texture storages. Decode, validation and build failures
//! leave the handle allocated but permanently unresolved.

use vstd::prelude::*;
use crate::assets::AssetBuilder;
use crate::assets::AssetStorage;
use crate::assets::DataSource;
use crate::assets::drain_post;
use crate::assets::lemma_drain_post_frame;
use crate::assets::resolve_id;
use crate::builder::build_map;
use crate::builder::sidedef_claims_unique;
use crate::error::AssetError;
use crate::handle::AssetHandle;
use crate::map::LevelMap;
use crate::map::ValidMapData;
use crate::textures::Flat;
use crate::textures::WallTexture;

verus! {

/// The Map Builder's context: exclusive access to the texture storages
/// the build resolves names through, and the sky texture's name.
pub struct MapBuilder {
    pub flats: AssetStorage<Flat>,
    pub walls: AssetStorage<WallTexture>,
    pub sky_name: String,
}

impl AssetBuilder<LevelMap> for MapBuilder {
    open spec fn inv(&self) -> bool {
        self.flats.wf() && self.walls.wf()
    }

    fn build<S: DataSource>(&mut self, intermediate: ValidMapData, source: &S) -> Result<
        LevelMap,
        AssetError,
    > {
        let reused = {
            let d = intermediate.data();
            proof {
                assert forall|l: int| 0 <= l < d.linedefs@.len() implies ((
                #[trigger] d.linedefs@[l]).right_sidedef_index matches Some(x) ==> x
                    < d.sidedefs@.len()) && (d.linedefs@[l].left_sidedef_index matches Some(x)
                    ==> x < d.sidedefs@.len()) by {
                    assert(crate::map::linedef_ok(d, l));
                }
            }
            match sidedef_claims_unique(&d.linedefs, d.sidedefs.len()) {
                Some(x) => Some(x),
                None => {
                    let nf = self.flats.next_id();
                    let nw = self.walls.next_id();
                    let ns = d.sectors.len();
                    let nsd = d.sidedefs.len();
                    if !(nf as u128 + 2 * (ns as u128) < u64::MAX as u128 && nw as u128 + 3 * (
                    nsd as u128) + 1 < u64::MAX as u128) {
                        return Err(AssetError::IdSpaceExhausted);
                    }
                    None
                },
            }
        };
        match reused {
            Some(x) => Err(AssetError::SidedefReused { sidedef: x }),
            None => build_map(
                intermediate,
                self.sky_name.as_str(),
                source,
                &mut self.flats,
                &mut self.walls,
            ),
        }
    }
}

/// Load the named level and run its whole build phase: the returned
/// handle resolves to the built map on success, and stays allocated but
/// unresolved when any stage of the import failed.
pub fn load_map<S: DataSource>(
    name: &str,
    sky_name: &str,
    source: &S,
    maps: &mut AssetStorage<LevelMap>,
    flats: &mut AssetStorage<Flat>,
    walls: &mut AssetStorage<WallTexture>,
) -> (r: AssetHandle<LevelMap>)
    requires
        old(maps).wf(),
        old(flats).wf(),
        old(walls).wf(),
        old(maps)@.next_id < u64::MAX,
    ensures
        final(maps).wf(),
        final(flats).wf(),
        final(walls).wf(),
        r@ == resolve_id::<LevelMap>(old(maps)@, name@),
        final(maps)@.names.contains_key(name@),
        final(maps)@.names[name@] == r@,
        final(maps)@.unbuilt.len() == 0,
{
    let handle = maps.load(name, source);
    let ghost m1 = maps@;
    let mut ctx = MapBuilder {
        flats: AssetStorage::new(),
        walls: AssetStorage::new(),
        sky_name: sky_name.to_owned(),
    };
    core::mem::swap(&mut ctx.flats, flats);
    core::mem::swap(&mut ctx.walls, walls);
    maps.build_waiting(&mut ctx, source);
    core::mem::swap(&mut ctx.flats, flats);
    core::mem::swap(&mut ctx.walls, walls);
    proof {
        let outs = choose|outs: Seq<Option<LevelMap>>|
            outs.len() == m1.unbuilt.len() && maps@ == #[trigger] drain_post::<LevelMap>(m1, outs)
                && (forall|k: int|
                0 <= k < outs.len() ==> (m1.unbuilt[k].1 is Err ==> outs[k] is None));
        lemma_drain_post_frame::<LevelMap>(m1, outs);
    }
    handle
}

} // verus!
